use vstd::prelude::*;
use vstd::string::*;

verus! {

/// Why a umask written as text was refused.
#[derive(Debug, Clone, Copy, PartialEq, Eq, Structural)]
pub enum UmaskError {
    /// nothing left once the `0o` prefixes are removed
    Empty,
    /// a character that is not an octal digit
    InvalidDigit,
    /// the value does not fit in 16 bits
    PosOverflow,
}

/// How a umask may be written in a configuration file: as text in octal
/// (`"022"` or `"0o022"`), or as a number.
#[derive(Debug, Clone, PartialEq, Eq)]
pub enum UmaskConfig {
    Str(String),
    Int(u16),
}

/// The text left once every leading `0o` has been removed.
pub open spec fn strip_octal_prefix(s: Seq<char>) -> Seq<char>
    decreases s.len(),
{
    if s.len() >= 2 && s[0] == '0' && s[1] == 'o' {
        strip_octal_prefix(s.subrange(2, s.len() as int))
    } else {
        s
    }
}

pub open spec fn is_octal_digit(c: char) -> bool {
    '0' <= c && c <= '7'
}

pub open spec fn digit_value(c: char) -> int {
    c as int - '0' as int
}

/// Reads octal digits left to right onto `acc`: the first character that is
/// not a digit, or the first digit after which the value exceeds 16 bits,
/// ends the reading with that error.
pub open spec fn octal_scan(d: Seq<char>, acc: int) -> Result<u16, UmaskError>
    decreases d.len(),
{
    if d.len() == 0 {
        Ok(acc as u16)
    } else if !is_octal_digit(d[0]) {
        Err(UmaskError::InvalidDigit)
    } else if acc * 8 + digit_value(d[0]) > 0xffff {
        Err(UmaskError::PosOverflow)
    } else {
        octal_scan(d.drop_first(), acc * 8 + digit_value(d[0]))
    }
}

/// An unsigned 16-bit number in base 8: an optional `+`, then digits.
pub open spec fn octal_u16(s: Seq<char>) -> Result<u16, UmaskError> {
    if s.len() == 0 {
        Err(UmaskError::Empty)
    } else if s.len() == 1 && (s[0] == '+' || s[0] == '-') {
        Err(UmaskError::InvalidDigit)
    } else if s[0] == '+' {
        octal_scan(s.drop_first(), 0)
    } else {
        octal_scan(s, 0)
    }
}

proof fn lemma_strip_step(s: Seq<char>, i: int)
    requires
        0 <= i,
        i + 2 <= s.len(),
        s[i] == '0',
        s[i + 1] == 'o',
    ensures
        strip_octal_prefix(s.subrange(i, s.len() as int)) == strip_octal_prefix(
            s.subrange(i + 2, s.len() as int),
        ),
{
    let t = s.subrange(i, s.len() as int);
    assert(t.subrange(2, t.len() as int) =~= s.subrange(i + 2, s.len() as int));
}

proof fn lemma_scan_step(s: Seq<char>, i: int)
    requires
        0 <= i < s.len(),
    ensures
        s.subrange(i, s.len() as int).drop_first() == s.subrange(i + 1, s.len() as int),
        s.subrange(i, s.len() as int)[0] == s[i],
{
    assert(s.subrange(i, s.len() as int).drop_first() =~= s.subrange(i + 1, s.len() as int));
}

/// Reads a umask written in octal, after any number of leading `0o`.
pub fn parse_umask(s: &str) -> (r: Result<u16, UmaskError>)
    ensures
        r == octal_u16(strip_octal_prefix(s@)),
{
    let n = s.unicode_len();
    let ghost text = s@;
    let mut i: usize = 0;
    assert(text.subrange(0, n as int) == text);
    while n - i > 1 && s.get_char(i) == '0' && s.get_char(i + 1) == 'o'
        invariant
            n == text.len(),
            text == s@,
            i <= n,
            strip_octal_prefix(text) == strip_octal_prefix(text.subrange(i as int, n as int)),
        decreases n - i,
    {
        proof { lemma_strip_step(text, i as int); }
        i = i + 2;
    }
    let ghost rest = text.subrange(i as int, n as int);
    assert(strip_octal_prefix(rest) == rest);
    if i == n {
        return Err(UmaskError::Empty);
    }
    let first = s.get_char(i);
    if i + 1 == n && (first == '+' || first == '-') {
        return Err(UmaskError::InvalidDigit);
    }
    let mut j: usize = i;
    if first == '+' {
        j = i + 1;
        assert(rest.drop_first() =~= text.subrange(j as int, n as int));
    }
    assert(octal_u16(rest) == octal_scan(text.subrange(j as int, n as int), 0));
    scan_octal(s, j, n)
}

proof fn lemma_scan_unfold(d: Seq<char>, acc: int)
    requires
        d.len() > 0,
    ensures
        octal_scan(d, acc) == (if !is_octal_digit(d[0]) {
            Err(UmaskError::InvalidDigit)
        } else if acc * 8 + digit_value(d[0]) > 0xffff {
            Err(UmaskError::PosOverflow)
        } else {
            octal_scan(d.drop_first(), acc * 8 + digit_value(d[0]))
        }),
{
}

fn scan_octal(s: &str, start: usize, n: usize) -> (r: Result<u16, UmaskError>)
    requires
        start <= n,
        n == s@.len(),
    ensures
        r == octal_scan(s@.subrange(start as int, n as int), 0),
{
    let ghost text = s@;
    let mut j = start;
    let mut acc: u32 = 0;
    while j < n
        invariant
            n == text.len(),
            text == s@,
            start <= j <= n,
            acc <= 0xffff,
            octal_scan(text.subrange(start as int, n as int), 0) == octal_scan(
                text.subrange(j as int, n as int),
                acc as int,
            ),
        decreases n - j,
    {
        let c = s.get_char(j);
        proof {
            lemma_scan_step(text, j as int);
            lemma_scan_unfold(text.subrange(j as int, n as int), acc as int);
        }
        if !('0' <= c && c <= '7') {
            return Err(UmaskError::InvalidDigit);
        }
        let d = (c as u32) - ('0' as u32);
        let next = acc * 8 + d;
        if next > 0xffff {
            return Err(UmaskError::PosOverflow);
        }
        acc = next;
        j = j + 1;
    }
    assert(text.subrange(n as int, n as int).len() == 0);
    Ok(acc as u16)
}

/// The umask of a program: text is read as octal, a number is taken as it is.
pub fn umask_from_config(setting: Option<UmaskConfig>) -> (r: Result<Option<u16>, UmaskError>)
    ensures
        setting is None ==> r == Ok::<Option<u16>, UmaskError>(None),
        setting matches Some(UmaskConfig::Int(i)) ==> r == Ok::<Option<u16>, UmaskError>(Some(i)),
        setting matches Some(UmaskConfig::Str(t)) ==> r == match octal_u16(
            strip_octal_prefix(t@),
        ) {
            Ok(v) => Ok(Some(v)),
            Err(e) => Err(e),
        },
{
    match setting {
        Some(UmaskConfig::Str(t)) => match parse_umask(t.as_str()) {
            Ok(v) => Ok(Some(v)),
            Err(e) => Err(e),
        },
        Some(UmaskConfig::Int(i)) => Ok(Some(i)),
        None => Ok(None),
    }
}

} // verus!

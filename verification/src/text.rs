use vstd::prelude::*;
use vstd::string::*;

verus! {

/// Whether a character has the Unicode `White_Space` property: U+0009 to
/// U+000D, U+0020, U+0085, U+00A0, U+1680, U+2000 to U+200A, U+2028, U+2029,
/// U+202F, U+205F and U+3000.
pub open spec fn unicode_white_space(c: char) -> bool {
    let n = c as u32;
    ||| 0x9 <= n <= 0xd
    ||| n == 0x20
    ||| n == 0x85
    ||| n == 0xa0
    ||| n == 0x1680
    ||| 0x2000 <= n <= 0x200a
    ||| n == 0x2028
    ||| n == 0x2029
    ||| n == 0x202f
    ||| n == 0x205f
    ||| n == 0x3000
}

/// Whether a character is white space (see [`unicode_white_space`]).
pub fn is_white_space(c: char) -> (r: bool)
    ensures
        r == unicode_white_space(c),
{
    let n = c as u32;
    (0x9 <= n && n <= 0xd) || n == 0x20 || n == 0x85 || n == 0xa0 || n == 0x1680 || (0x2000 <= n
        && n <= 0x200a) || n == 0x2028 || n == 0x2029 || n == 0x202f || n == 0x205f || n == 0x3000
}

/// The words of a text: its maximal runs of characters that are not white
/// space, in order.
pub open spec fn words(s: Seq<char>) -> Seq<Seq<char>>
    decreases s.len(),
{
    if s.len() == 0 {
        Seq::empty()
    } else {
        let before = words(s.drop_last());
        let c = s.last();
        if unicode_white_space(c) {
            before
        } else if s.len() >= 2 && !unicode_white_space(s[s.len() - 2]) {
            before.update(before.len() - 1, before.last().push(c))
        } else {
            before.push(seq![c])
        }
    }
}

pub open spec fn texts_view(v: Seq<String>) -> Seq<Seq<char>> {
    v.map_values(|t: String| t@)
}

/// The words read so far, with the word being read (from `start` to `i`) when
/// there is one.
spec fn words_so_far(done: Seq<Seq<char>>, s: Seq<char>, start: int, i: int, in_word: bool) -> Seq<
    Seq<char>,
> {
    if in_word {
        done.push(s.subrange(start, i))
    } else {
        done
    }
}

proof fn lemma_words_step(s: Seq<char>, i: int)
    requires
        0 <= i < s.len(),
    ensures
        ({
            let pre = s.subrange(0, i + 1);
            let before = words(s.subrange(0, i));
            words(pre) == if unicode_white_space(s[i]) {
                before
            } else if i >= 1 && !unicode_white_space(s[i - 1]) {
                before.update(before.len() - 1, before.last().push(s[i]))
            } else {
                before.push(seq![s[i]])
            }
        }),
{
    let pre = s.subrange(0, i + 1);
    assert(pre.drop_last() =~= s.subrange(0, i));
}

/// Splits a text into its words (see [`words`]).
pub fn split_whitespace(s: &str) -> (r: Vec<String>)
    ensures
        texts_view(r@) == words(s@),
{
    let n = s.unicode_len();
    let ghost text = s@;
    let mut out: Vec<String> = Vec::new();
    let mut start: usize = 0;
    let mut in_word = false;
    let mut i: usize = 0;
    while i < n
        invariant
            n == text.len(),
            text == s@,
            i <= n,
            start <= i,
            in_word ==> start < i,
            in_word ==> !unicode_white_space(text[i - 1]),
            in_word ==> forall|k: int| start <= k < i ==> !unicode_white_space(#[trigger] text[k]),
            in_word ==> (start == 0 || unicode_white_space(text[start - 1])),
            !in_word ==> (i == 0 || unicode_white_space(text[i - 1])),
            words(text.subrange(0, i as int)) == words_so_far(
                texts_view(out@),
                text,
                start as int,
                i as int,
                in_word,
            ),
            in_word ==> words(text.subrange(0, i as int)).len() > 0 && words(
                text.subrange(0, i as int),
            ).last() == text.subrange(start as int, i as int),
        decreases n - i,
    {
        let c = s.get_char(i);
        let ws = is_white_space(c);
        proof { lemma_words_step(text, i as int); }
        let ghost before = words(text.subrange(0, i as int));
        if ws {
            if in_word {
                let w = s.substring_char(start, i);
                let t = w.to_owned();
                let ghost old_out = out@;
                out.push(t);
                assert(texts_view(out@) =~= texts_view(old_out).push(t@));
                in_word = false;
            }
        } else {
            if !in_word {
                start = i;
                in_word = true;
                assert(text.subrange(i as int, i + 1) =~= seq![c]);
            } else {
                assert(text.subrange(start as int, i + 1) =~= text.subrange(
                    start as int,
                    i as int,
                ).push(c));
            }
        }
        i = i + 1;
    }
    assert(text.subrange(0, n as int) =~= text);
    if in_word {
        let w = s.substring_char(start, n);
        let t = w.to_owned();
        let ghost old_out = out@;
        out.push(t);
        assert(texts_view(out@) =~= texts_view(old_out).push(t@));
    }
    out
}

/// The text without its leading white space.
pub open spec fn trim_start(s: Seq<char>) -> Seq<char>
    decreases s.len(),
{
    if s.len() > 0 && unicode_white_space(s[0]) {
        trim_start(s.drop_first())
    } else {
        s
    }
}

/// The text without its trailing white space.
pub open spec fn trim_end(s: Seq<char>) -> Seq<char>
    decreases s.len(),
{
    if s.len() > 0 && unicode_white_space(s.last()) {
        trim_end(s.drop_last())
    } else {
        s
    }
}

/// The text without its leading and trailing white space.
pub open spec fn trimmed(s: Seq<char>) -> Seq<char> {
    trim_end(trim_start(s))
}

/// Removes the white space at both ends of a text (see [`trimmed`]).
pub fn trim(s: &str) -> (r: String)
    ensures
        r@ == trimmed(s@),
{
    let n = s.unicode_len();
    let ghost text = s@;
    let mut a: usize = 0;
    assert(text.subrange(0, n as int) =~= text);
    while a < n && is_white_space(s.get_char(a))
        invariant
            n == text.len(),
            text == s@,
            a <= n,
            trim_start(text) == trim_start(text.subrange(a as int, n as int)),
        decreases n - a,
    {
        let ghost rest = text.subrange(a as int, n as int);
        assert(rest.drop_first() =~= text.subrange(a + 1, n as int));
        a = a + 1;
    }
    assert(trim_start(text.subrange(a as int, n as int)) == text.subrange(a as int, n as int));
    let mut b: usize = n;
    while b > a && is_white_space(s.get_char(b - 1))
        invariant
            n == text.len(),
            text == s@,
            a <= b <= n,
            trimmed(text) == trim_end(text.subrange(a as int, b as int)),
        decreases b - a,
    {
        let ghost part = text.subrange(a as int, b as int);
        assert(part.drop_last() =~= text.subrange(a as int, b - 1));
        b = b - 1;
    }
    assert(trim_end(text.subrange(a as int, b as int)) == text.subrange(a as int, b as int));
    s.substring_char(a, b).to_owned()
}

} // verus!

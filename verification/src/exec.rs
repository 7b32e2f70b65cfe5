use vstd::prelude::*;
use vstd::string::*;

use crate::config::{lemma_update_view, codes_view, ProgramConfig2, ProgramConfigView, ProgramView, Program, Taskmaster, _Restart};
use crate::text::{split_whitespace, texts_view, words};

verus! {

/// What waiting (without blocking) on a child process reported.
#[derive(Debug, Clone, Copy, PartialEq, Eq, Structural)]
pub enum ChildWait {
    /// still running
    Running,
    /// exited, with its exit code, or `None` when a signal ended it
    Exited(Option<i32>),
    /// the wait itself failed
    WaitFailed,
}

/// Whole seconds elapsed on a millisecond clock (zero if `now` is earlier).
pub open spec fn elapsed_secs(now: u64, since: u64) -> int {
    if now >= since {
        (now - since) / 1000
    } else {
        0
    }
}

/// Seconds a process must run to count as successfully started.
pub open spec fn min_runtime(c: ProgramConfigView) -> u64 {
    match c.minimum_runtime {
        Some(m) => m,
        None => 1,
    }
}

/// An exit the configuration does not expect: a code outside the expected
/// list (or other than 0 when there is no list), or an end by signal.
pub open spec fn unexpected_exit(expected: Option<Seq<u32>>, code: Option<i32>) -> bool {
    match code {
        Some(c) => match expected {
            Some(l) => !l.contains(c as u32),
            None => c != 0,
        },
        None => true,
    }
}

pub open spec fn policy_allows(p: ProgramView) -> bool {
    match p.config.restart_policy {
        _Restart::Never => false,
        _Restart::UnexpectedExits => p.unexpected_error_code,
        _Restart::Always => true,
    }
}

/// A program is relaunched when it was not stopped by hand, its policy asks
/// for it, it has retries left, and its last launch is old enough.
pub open spec fn relaunch_allowed(p: ProgramView, now: u64) -> bool {
    &&& !p.is_stopped_manually
    &&& policy_allows(p)
    &&& p.retry_count < p.config.max_relauch_retry
    &&& elapsed_secs(now, p.last_launch_time) >= min_runtime(p.config)
}

/// A program as it is once launched at `now`.
pub open spec fn started(p: ProgramView, now: u64) -> ProgramView {
    ProgramView { is_stopped_manually: false, last_launch_time: now, ..p }
}

/// A program once the unexpected exit that asked for its relaunch is forgotten.
pub open spec fn forget_unexpected(p: ProgramView) -> ProgramView {
    ProgramView { unexpected_error_code: false, ..p }
}

/// A program once the processes `pids` are added to its children.
pub open spec fn with_spawned(p: ProgramView, pids: Seq<u32>) -> ProgramView {
    ProgramView { childs: p.childs + pids, ..p }
}

/// A program as it is once stopped by hand.
pub open spec fn stopped(p: ProgramView) -> ProgramView {
    ProgramView { childs: Seq::empty(), is_stopped_manually: true, ..p }
}

/// The children whose wait reported them still running, in order.
pub open spec fn still_running(childs: Seq<u32>, st: Seq<ChildWait>) -> Seq<u32>
    decreases st.len(),
{
    if st.len() == 0 || childs.len() == 0 {
        Seq::empty()
    } else {
        let kept = still_running(childs.drop_last(), st.drop_last());
        if st.last() is Running {
            kept.push(childs.last())
        } else {
            kept
        }
    }
}

/// How many children exited.
pub open spec fn exit_count(st: Seq<ChildWait>) -> nat
    decreases st.len(),
{
    if st.len() == 0 {
        0
    } else {
        exit_count(st.drop_last()) + if st.last() is Exited {
            1nat
        } else {
            0nat
        }
    }
}

pub open spec fn unexpected_status(expected: Option<Seq<u32>>, w: ChildWait) -> bool {
    match w {
        ChildWait::Exited(code) => unexpected_exit(expected, code),
        _ => false,
    }
}

pub open spec fn some_unexpected_exit(expected: Option<Seq<u32>>, st: Seq<ChildWait>) -> bool {
    exists|i: int| 0 <= i < st.len() && unexpected_status(expected, #[trigger] st[i])
}

/// A program once the ended children are removed. Unless the program was
/// stopped by hand, each exit counts: an unexpected one is remembered, and a
/// process that ran less than the minimum runtime adds a retry, while one that
/// ran long enough clears them.
pub open spec fn reaped(p: ProgramView, st: Seq<ChildWait>, now: u64) -> ProgramView {
    let exits = if p.is_stopped_manually {
        0
    } else {
        exit_count(st)
    };
    ProgramView {
        childs: still_running(p.childs, st),
        unexpected_error_code: p.unexpected_error_code || (!p.is_stopped_manually
            && some_unexpected_exit(p.config.expected_error_codes, st)),
        retry_count: if exits == 0 {
            p.retry_count
        } else if elapsed_secs(now, p.last_launch_time) < min_runtime(p.config) {
            (p.retry_count + exits) as u32
        } else {
            0
        },
        ..p
    }
}

/// A check of a program: its ended children are removed, and when fewer than
/// the configured number are left and a relaunch is allowed, the missing ones
/// are to be launched (the program counts as launched at `now`).
/// Gives the new program and the number of processes to launch.
pub open spec fn checked(p: ProgramView, st: Seq<ChildWait>, now: u64) -> (ProgramView, int) {
    let r = reaped(p, st, now);
    if r.childs.len() < r.config.num_processes && relaunch_allowed(r, now) {
        (
            started(forget_unexpected(r), now),
            r.config.num_processes - r.childs.len(),
        )
    } else {
        (r, 0)
    }
}

/// Whether an exit code is one the program's configuration does not expect.
pub fn exit_is_unexpected(expected: &Option<Vec<u32>>, code: Option<i32>) -> (r: bool)
    ensures
        r == unexpected_exit(codes_view(*expected), code),
{
    match code {
        Some(c) => match expected {
            Some(list) => {
                assert(codes_view(*expected) == Some(list@));
                let wanted = #[verifier::truncate] (c as u32);
                assert(wanted == c as u32);
                let mut i: usize = 0;
                while i < list.len()
                    invariant
                        i <= list.len(),
                        code == Some(c),
                        codes_view(*expected) == Some(list@),
                        wanted == c as u32,
                        forall|k: int| 0 <= k < i ==> list@[k] != wanted,
                    decreases list.len() - i,
                {
                    if list[i] == wanted {
                        assert(list@.contains(wanted)) by {
                            assert(list@[i as int] == wanted);
                        }
                        assert(!unexpected_exit(codes_view(*expected), code));
                        return false;
                    }
                    i = i + 1;
                }
                true
            },
            None => c != 0,
        },
        None => true,
    }
}

fn elapsed_since(now: u64, since: u64) -> (r: u64)
    ensures
        r == elapsed_secs(now, since),
{
    now.saturating_sub(since) / 1000
}

/// Whether the program is to be relaunched now; a relaunch forgets the
/// unexpected exit that asked for it.
pub fn should_relaunch(program: &mut Program, now: u64) -> (r: bool)
    ensures
        r == relaunch_allowed(old(program)@, now),
        final(program)@ == (if r {
            forget_unexpected(old(program)@)
        } else {
            old(program)@
        }),
{
    if program.is_stopped_manually {
        return false;
    }
    match program.config.1.restart_policy {
        _Restart::Never => {
            return false;
        },
        _Restart::UnexpectedExits => {
            if !program.unexpected_error_code {
                return false;
            }
        },
        _Restart::Always => {},
    }
    if program.retry_count >= program.config.1.max_relauch_retry {
        return false;
    }
    let wait_time = match program.config.1.minimum_runtime {
        Some(m) => m,
        None => 1,
    };
    if elapsed_since(now, program.last_launch_time) < wait_time {
        return false;
    }
    program.unexpected_error_code = false;
    true
}

/// Marks the program as launched at `now`; the processes themselves are
/// recorded with [`record_spawned`] once started.
pub fn start_prog(program: &mut Program, now: u64)
    ensures
        final(program)@ == started(old(program)@, now),
{
    program.is_stopped_manually = false;
    program.last_launch_time = now;
}

/// Adds the processes just started for the program.
pub fn record_spawned(program: &mut Program, pids: Vec<u32>)
    ensures
        final(program)@ == with_spawned(old(program)@, pids@),
{
    let mut i: usize = 0;
    let ghost start = program.childs@;
    while i < pids.len()
        invariant
            i <= pids.len(),
            start == old(program)@.childs,
            program.childs@ == start + pids@.subrange(0, i as int),
            program@ == with_spawned(old(program)@, pids@.subrange(0, i as int)),
        decreases pids.len() - i,
    {
        program.childs.push(pids[i]);
        assert(start + pids@.subrange(0, i + 1) =~= (start + pids@.subrange(0, i as int)).push(
            pids@[i as int],
        ));
        i = i + 1;
    }
    assert(pids@.subrange(0, pids.len() as int) =~= pids@);
}

/// The time (ms) until which stopped children are given to end: `grace`
/// seconds after `now`, at once when there is none; the clock's end bounds it.
pub fn stop_deadline(now: u64, grace: Option<u64>) -> (r: u64)
    ensures
        r == match grace {
            Some(g) => if now + g * 1000 <= u64::MAX {
                (now + g * 1000) as u64
            } else {
                u64::MAX
            },
            None => now,
        },
{
    match grace {
        Some(g) => {
            if g <= (u64::MAX - now) / 1000 {
                assert(g * 1000 <= u64::MAX - now) by (nonlinear_arith)
                    requires g <= (u64::MAX - now) / 1000;
                now + g * 1000
            } else {
                assert(now + g * 1000 > u64::MAX) by (nonlinear_arith)
                    requires g > (u64::MAX - now) / 1000, now <= u64::MAX;
                u64::MAX
            }
        },
        None => now,
    }
}

/// Stops the program by hand: gives the processes to end and forgets them.
pub fn stop_prog(program: &mut Program) -> (pids: Vec<u32>)
    ensures
        pids@ == old(program)@.childs,
        final(program)@ == stopped(old(program)@),
{
    program.is_stopped_manually = true;
    let mut pids: Vec<u32> = Vec::new();
    std::mem::swap(&mut pids, &mut program.childs);
    pids
}

proof fn lemma_running_step(childs: Seq<u32>, st: Seq<ChildWait>, k: int)
    requires
        childs.len() == st.len(),
        0 <= k < st.len(),
    ensures
        still_running(childs.subrange(0, k + 1), st.subrange(0, k + 1)) == if st[k] is Running {
            still_running(childs.subrange(0, k), st.subrange(0, k)).push(childs[k])
        } else {
            still_running(childs.subrange(0, k), st.subrange(0, k))
        },
        exit_count(st.subrange(0, k + 1)) == exit_count(st.subrange(0, k)) + if st[k] is Exited {
            1nat
        } else {
            0nat
        },
{
    assert(childs.subrange(0, k + 1).drop_last() =~= childs.subrange(0, k));
    assert(st.subrange(0, k + 1).drop_last() =~= st.subrange(0, k));
}

/// Counting the exits keeps the retry count within 32 bits: it only grows
/// for a program not stopped by hand whose processes ran less than the
/// minimum runtime, by one per exit.
pub open spec fn retries_fit(p: ProgramView, st: Seq<ChildWait>, now: u64) -> bool {
    ||| p.is_stopped_manually
    ||| elapsed_secs(now, p.last_launch_time) >= min_runtime(p.config)
    ||| p.retry_count + exit_count(st) <= u32::MAX
}

proof fn lemma_exit_count_prefix(st: Seq<ChildWait>, k: int)
    requires
        0 <= k <= st.len(),
    ensures
        exit_count(st.subrange(0, k)) <= exit_count(st),
    decreases st.len(),
{
    if k == st.len() {
        assert(st.subrange(0, k) =~= st);
    } else {
        let pre = st.drop_last();
        assert(st.subrange(0, k) =~= pre.subrange(0, k));
        lemma_exit_count_prefix(pre, k);
    }
}

/// Whether checking the program with these wait results keeps its retry
/// count within 32 bits (see [`retries_fit`]).
pub fn counts_fit(program: &Program, statuses: &Vec<ChildWait>, now: u64) -> (r: bool)
    ensures
        r == retries_fit(program@, statuses@, now),
{
    if program.is_stopped_manually {
        return true;
    }
    let min = match program.config.1.minimum_runtime {
        Some(m) => m,
        None => 1,
    };
    if elapsed_since(now, program.last_launch_time) >= min {
        return true;
    }
    let ghost st = statuses@;
    let mut exits: usize = 0;
    let mut k: usize = 0;
    while k < statuses.len()
        invariant
            k <= statuses.len(),
            st == statuses@,
            exits == exit_count(st.subrange(0, k as int)),
            exits <= k,
        decreases statuses.len() - k,
    {
        proof {
            let pre = st.subrange(0, k + 1);
            assert(pre.drop_last() =~= st.subrange(0, k as int));
        }
        match statuses[k] {
            ChildWait::Exited(_) => {
                exits = exits + 1;
            },
            _ => {},
        }
        k = k + 1;
    }
    assert(st.subrange(0, k as int) =~= st);
    let room = (u32::MAX - program.retry_count) as u64;
    (exits as u64) <= room
}

/// Removes the children that ended and counts their exits (see [`reaped`]).
/// `statuses[i]` is what waiting on `childs[i]` reported.
pub fn reap_children(program: &mut Program, statuses: &Vec<ChildWait>, now: u64)
    requires
        statuses.len() == old(program).childs.len(),
        retries_fit(old(program)@, statuses@, now),
    ensures
        final(program)@ == reaped(old(program)@, statuses@, now),
{
    let ghost p0 = program@;
    let ghost st = statuses@;
    let stopped_by_hand = program.is_stopped_manually;
    let quick = elapsed_since(now, program.last_launch_time) < match program.config.1.minimum_runtime {
        Some(m) => m,
        None => 1,
    };
    let mut old_childs: Vec<u32> = Vec::new();
    std::mem::swap(&mut old_childs, &mut program.childs);
    let mut kept: Vec<u32> = Vec::new();
    let mut k: usize = 0;
    while k < statuses.len()
        invariant
            k <= statuses.len(),
            st == statuses@,
            p0 == old(program)@,
            old_childs@ == p0.childs,
            statuses.len() == old_childs.len(),
            retries_fit(p0, st, now),
            exit_count(st.subrange(0, k as int)) <= exit_count(st),
            stopped_by_hand == p0.is_stopped_manually,
            quick == (elapsed_secs(now, p0.last_launch_time) < min_runtime(p0.config)),
            kept@ == still_running(p0.childs.subrange(0, k as int), st.subrange(0, k as int)),
            program.config == old(program).config,
            program.last_launch_time == p0.last_launch_time,
            program.is_stopped_manually == p0.is_stopped_manually,
            program.unexpected_error_code == (p0.unexpected_error_code || (!p0.is_stopped_manually
                && some_unexpected_exit(p0.config.expected_error_codes, st.subrange(0, k as int)))),
            program.retry_count == ({
                let exits = if p0.is_stopped_manually {
                    0
                } else {
                    exit_count(st.subrange(0, k as int))
                };
                if exits == 0 {
                    p0.retry_count
                } else if quick {
                    (p0.retry_count + exits) as u32
                } else {
                    0
                }
            }),
        decreases statuses.len() - k,
    {
        proof {
            lemma_running_step(p0.childs, st, k as int);
            lemma_exit_count_prefix(st, k + 1);
        }
        let ghost prefix = st.subrange(0, k as int);
        let ghost next = st.subrange(0, k + 1);
        assert(next == prefix.push(st[k as int]));
        match statuses[k] {
            ChildWait::Running => {
                kept.push(old_childs[k]);
                assert(!unexpected_status(p0.config.expected_error_codes, st[k as int]));
            },
            ChildWait::Exited(code) => {
                assert(st[k as int] == ChildWait::Exited(code));
                assert(next[k as int] == st[k as int]);
                if !stopped_by_hand {
                    if exit_is_unexpected(&program.config.1.expected_error_codes, code) {
                        program.unexpected_error_code = true;
                        assert(unexpected_status(p0.config.expected_error_codes, next[k as int]));
                    }
                    if quick {
                        program.retry_count = program.retry_count + 1;
                    } else {
                        program.retry_count = 0;
                    }
                }
            },
            ChildWait::WaitFailed => {
                assert(!unexpected_status(p0.config.expected_error_codes, st[k as int]));
            },
        }
        assert(some_unexpected_exit(p0.config.expected_error_codes, next) == (some_unexpected_exit(
            p0.config.expected_error_codes,
            prefix,
        ) || unexpected_status(p0.config.expected_error_codes, st[k as int]))) by {
            if unexpected_status(p0.config.expected_error_codes, st[k as int]) {
                assert(next[k as int] == st[k as int]);
            }
            if some_unexpected_exit(p0.config.expected_error_codes, prefix) {
                let j = choose|j: int|
                    0 <= j < prefix.len() && unexpected_status(
                        p0.config.expected_error_codes,
                        #[trigger] prefix[j],
                    );
                assert(next[j] == prefix[j]);
            }
            if some_unexpected_exit(p0.config.expected_error_codes, next) {
                let j = choose|j: int|
                    0 <= j < next.len() && unexpected_status(
                        p0.config.expected_error_codes,
                        #[trigger] next[j],
                    );
                if j < k {
                    assert(prefix[j] == next[j]);
                }
            }
        }
        k = k + 1;
    }
    assert(p0.childs.subrange(0, k as int) =~= p0.childs);
    assert(st.subrange(0, k as int) =~= st);
    program.childs = kept;
}

/// One check of a program: reaps its ended children (see [`reaped`]), then,
/// when fewer than the configured number are left and a relaunch is allowed,
/// marks it launched and gives the number of processes to launch (else 0).
pub fn check_program_status(program: &mut Program, statuses: &Vec<ChildWait>, now: u64) -> (missing:
    usize)
    requires
        statuses.len() == old(program).childs.len(),
        retries_fit(old(program)@, statuses@, now),
    ensures
        (final(program)@, missing as int) == checked(old(program)@, statuses@, now),
{
    reap_children(program, statuses, now);
    let current_len = program.childs.len();
    let target_len = program.config.1.num_processes as usize;
    if current_len < target_len && should_relaunch(program, now) {
        start_prog(program, now);
        target_len - current_len
    } else {
        0
    }
}

/// Where to find the program to run.
#[derive(Debug, Clone, Copy, PartialEq, Eq, Structural)]
pub enum ExecutableLocation {
    /// a bare name, looked up in the search path
    SearchPath,
    /// an absolute path
    Absolute,
    /// a path relative to the supervisor's working directory
    RelativeToWorkingDir,
}

/// The program and arguments that a command line runs.
#[derive(Debug, PartialEq, Eq)]
pub struct LaunchCommand {
    pub program: String,
    pub args: Vec<String>,
    pub location: ExecutableLocation,
}

pub open spec fn location_of(binary: Seq<char>) -> ExecutableLocation {
    if !binary.contains('/') {
        ExecutableLocation::SearchPath
    } else if binary[0] == '/' {
        ExecutableLocation::Absolute
    } else {
        ExecutableLocation::RelativeToWorkingDir
    }
}

fn contains_slash(s: &String) -> (r: bool)
    ensures
        r == s@.contains('/'),
{
    let n = s.as_str().unicode_len();
    let mut i: usize = 0;
    while i < n
        invariant
            n == s@.len(),
            i <= n,
            forall|k: int| 0 <= k < i ==> s@[k] != '/',
        decreases n - i,
    {
        if s.as_str().get_char(i) == '/' {
            assert(s@[i as int] == '/');
            return true;
        }
        i = i + 1;
    }
    false
}

/// What the configured command runs: its first word is the program, the
/// others its arguments; `None` when the command has no word.
pub fn launch_command(config: &ProgramConfig2) -> (r: Option<LaunchCommand>)
    ensures
        r is None <==> words(config.cmd@).len() == 0,
        r matches Some(l) ==> l.program@ == words(config.cmd@)[0] && texts_view(l.args@)
            == words(config.cmd@).drop_first() && l.location == location_of(l.program@),
{
    let mut parts = split_whitespace(config.cmd.as_str());
    if parts.len() == 0 {
        return None;
    }
    let ghost all = parts@;
    let program = parts.remove(0);
    assert(texts_view(parts@) =~= texts_view(all).drop_first());
    let location = if !contains_slash(&program) {
        ExecutableLocation::SearchPath
    } else if program.as_str().get_char(0) == '/' {
        ExecutableLocation::Absolute
    } else {
        ExecutableLocation::RelativeToWorkingDir
    };
    Some(LaunchCommand { program, args: parts, location })
}


/// One check of every program (see [`checked`]): `statuses[i][k]` is what
/// waiting on the `k`-th child of the `i`-th program reported. Gives, for each
/// program, the number of processes to launch.
pub fn check_process_status(tm: &mut Taskmaster, statuses: &Vec<Vec<ChildWait>>, now: u64) -> (missing:
    Vec<usize>)
    requires
        statuses.len() == old(tm).programs.len(),
        forall|i: int|
            0 <= i < statuses.len() ==> #[trigger] statuses@[i].len() == old(tm)@[i].childs.len()
                && retries_fit(old(tm)@[i], statuses@[i]@, now),
    ensures
        final(tm)@.len() == old(tm)@.len(),
        missing.len() == old(tm)@.len(),
        forall|i: int|
            0 <= i < missing.len() ==> (#[trigger] final(tm)@[i], missing@[i] as int) == checked(
                old(tm)@[i],
                statuses@[i]@,
                now,
            ),
        final(tm).config_file == old(tm).config_file,
{
    let ghost ps = old(tm)@;
    let mut missing: Vec<usize> = Vec::new();
    let mut i: usize = 0;
    while i < tm.programs.len()
        invariant
            i <= tm.programs.len(),
            tm.programs.len() == ps.len(),
            statuses.len() == ps.len(),
            missing.len() == i,
            tm.config_file == old(tm).config_file,
            forall|k: int|
                0 <= k < statuses.len() ==> #[trigger] statuses@[k].len() == ps[k].childs.len()
                    && retries_fit(ps[k], statuses@[k]@, now),
            forall|k: int|
                0 <= k < i ==> (#[trigger] tm@[k], missing@[k] as int) == checked(
                    ps[k],
                    statuses@[k]@,
                    now,
                ),
            forall|k: int| i <= k < ps.len() ==> #[trigger] tm@[k] == ps[k],
        decreases ps.len() - i,
    {
        let ghost before = tm.programs@;
        assert(tm@[i as int] == tm.programs@[i as int]@);
        assert(statuses@[i as int].len() == ps[i as int].childs.len());
        let m = check_program_status(&mut tm.programs[i], &statuses[i], now);
        missing.push(m);
        proof {
            assert(tm.programs@ == before.update(i as int, tm.programs@[i as int]));
            lemma_update_view(before, i as int, tm.programs@[i as int]);
        }
        i = i + 1;
    }
    missing
}

} // verus!

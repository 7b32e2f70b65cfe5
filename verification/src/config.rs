use vstd::prelude::*;
use vstd::string::*;

use crate::errors::{is_argument_error, is_invalid_param, TaskmasterError};
use crate::signals::_Signalstopper;

verus! {

/// When a program whose processes died is started again.
#[derive(Debug, Clone, Copy, PartialEq, Eq, Structural)]
pub enum _Restart {
    Always,
    Never,
    UnexpectedExits,
}

/// Files that receive the standard output and error of a program.
#[derive(Debug, Clone, PartialEq, Eq)]
pub struct Redirect {
    pub stdout: String,
    pub stderr: String,
}

pub struct RedirectView {
    pub stdout: Seq<char>,
    pub stderr: Seq<char>,
}

impl View for Redirect {
    type V = RedirectView;

    open spec fn view(&self) -> RedirectView {
        RedirectView { stdout: self.stdout@, stderr: self.stderr@ }
    }
}

/// The configuration of one program.
///
/// `env_to_set` lists the variables to set; it stands for the map from each
/// name to its value (a later entry for a name overrides an earlier one), so
/// the order of the entries does not matter. Two configurations are the same
/// when all their fields are.
#[derive(Debug, Clone, PartialEq, Eq)]
pub struct ProgramConfig2 {
    /// command to run
    pub cmd: String,
    /// processes to start and keep running
    pub num_processes: u32,
    /// launch the program when the supervisor starts
    pub autostart: bool,
    pub restart_policy: _Restart,
    /// exit codes that count as normal; `None` means only 0
    pub expected_error_codes: Option<Vec<u32>>,
    /// seconds a process must run to count as successfully started (default 1)
    pub minimum_runtime: Option<u64>,
    /// how many quick failures are relaunched before giving up
    pub max_relauch_retry: u32,
    /// signal sent to stop the program; the supervisor also stops the
    /// program when it receives this signal
    pub stop_signal: Option<_Signalstopper>,
    /// seconds to wait before killing a program that ignores its stop signal
    pub time_after_proper_stop: Option<u64>,
    /// files for stdout/stderr; `None` discards both
    pub redirect: Option<Redirect>,
    /// environment variables to set
    pub env_to_set: Option<Vec<(String, String)>>,
    /// working directory
    pub working_dir: Option<String>,
    /// umask set before the program starts
    pub umask: Option<u16>,
}

pub struct ProgramConfigView {
    pub cmd: Seq<char>,
    pub num_processes: u32,
    pub autostart: bool,
    pub restart_policy: _Restart,
    pub expected_error_codes: Option<Seq<u32>>,
    pub minimum_runtime: Option<u64>,
    pub max_relauch_retry: u32,
    pub stop_signal: Option<_Signalstopper>,
    pub time_after_proper_stop: Option<u64>,
    pub redirect: Option<RedirectView>,
    pub env_to_set: Option<Map<Seq<char>, Seq<char>>>,
    pub working_dir: Option<Seq<char>>,
    pub umask: Option<u16>,
}

pub open spec fn codes_view(o: Option<Vec<u32>>) -> Option<Seq<u32>> {
    match o {
        Some(v) => Some(v@),
        None => None,
    }
}

pub open spec fn pairs_view(v: Vec<(String, String)>) -> Seq<(Seq<char>, Seq<char>)> {
    v@.map_values(|e: (String, String)| (e.0@, e.1@))
}

/// The map that a list of (name, value) entries gives: each name to the
/// value of its last entry.
pub open spec fn env_map(pairs: Seq<(Seq<char>, Seq<char>)>) -> Map<Seq<char>, Seq<char>>
    decreases pairs.len(),
{
    if pairs.len() == 0 {
        Map::empty()
    } else {
        env_map(pairs.drop_last()).insert(pairs.last().0, pairs.last().1)
    }
}

pub open spec fn env_view(o: Option<Vec<(String, String)>>) -> Option<Map<Seq<char>, Seq<char>>> {
    match o {
        Some(v) => Some(env_map(pairs_view(v))),
        None => None,
    }
}

pub open spec fn redirect_view(o: Option<Redirect>) -> Option<RedirectView> {
    match o {
        Some(r) => Some(r@),
        None => None,
    }
}

pub open spec fn text_view(o: Option<String>) -> Option<Seq<char>> {
    match o {
        Some(s) => Some(s@),
        None => None,
    }
}

impl View for ProgramConfig2 {
    type V = ProgramConfigView;

    open spec fn view(&self) -> ProgramConfigView {
        ProgramConfigView {
            cmd: self.cmd@,
            num_processes: self.num_processes,
            autostart: self.autostart,
            restart_policy: self.restart_policy,
            expected_error_codes: codes_view(self.expected_error_codes),
            minimum_runtime: self.minimum_runtime,
            max_relauch_retry: self.max_relauch_retry,
            stop_signal: self.stop_signal,
            time_after_proper_stop: self.time_after_proper_stop,
            redirect: redirect_view(self.redirect),
            env_to_set: env_view(self.env_to_set),
            working_dir: text_view(self.working_dir),
            umask: self.umask,
        }
    }
}

fn copy_text(o: &Option<String>) -> (r: Option<String>)
    ensures
        text_view(r) == text_view(*o),
{
    match o {
        Some(s) => Some(s.clone()),
        None => None,
    }
}

fn same_text(a: &Option<String>, b: &Option<String>) -> (r: bool)
    ensures
        r == (text_view(*a) == text_view(*b)),
{
    match a {
        Some(x) => match b {
            Some(y) => *x == *y,
            None => false,
        },
        None => b.is_none(),
    }
}

fn copy_codes(o: &Option<Vec<u32>>) -> (r: Option<Vec<u32>>)
    ensures
        codes_view(r) == codes_view(*o),
{
    match o {
        Some(v) => {
            let mut c: Vec<u32> = Vec::new();
            let mut i: usize = 0;
            while i < v.len()
                invariant
                    i <= v.len(),
                    c@ == v@.subrange(0, i as int),
                decreases v.len() - i,
            {
                c.push(v[i]);
                i = i + 1;
            }
            assert(c@ == v@);
            Some(c)
        },
        None => None,
    }
}

fn same_codes(a: &Option<Vec<u32>>, b: &Option<Vec<u32>>) -> (r: bool)
    ensures
        r == (codes_view(*a) == codes_view(*b)),
{
    match a {
        Some(x) => match b {
            Some(y) => same_numbers(x, y),
            None => false,
        },
        None => b.is_none(),
    }
}

fn same_numbers(x: &Vec<u32>, y: &Vec<u32>) -> (r: bool)
    ensures
        r == (x@ == y@),
{
    if x.len() != y.len() {
        assert(x@.len() != y@.len());
        return false;
    }
    let mut i: usize = 0;
    while i < x.len()
        invariant
            i <= x.len(),
            x.len() == y.len(),
            x@.subrange(0, i as int) == y@.subrange(0, i as int),
        decreases x.len() - i,
    {
        if x[i] != y[i] {
            assert(x@[i as int] != y@[i as int]);
            return false;
        }
        assert(x@.subrange(0, i + 1) == x@.subrange(0, i as int).push(x@[i as int]));
        assert(y@.subrange(0, i + 1) == y@.subrange(0, i as int).push(y@[i as int]));
        i = i + 1;
    }
    assert(x@ == x@.subrange(0, x.len() as int));
    assert(y@ == y@.subrange(0, y.len() as int));
    true
}

fn copy_env(o: &Option<Vec<(String, String)>>) -> (r: Option<Vec<(String, String)>>)
    ensures
        env_view(r) == env_view(*o),
{
    match o {
        Some(v) => {
            let mut c: Vec<(String, String)> = Vec::new();
            let mut i: usize = 0;
            while i < v.len()
                invariant
                    i <= v.len(),
                    pairs_view(c) == pairs_view(*v).subrange(0, i as int),
                decreases v.len() - i,
            {
                let k = v[i].0.clone();
                let x = v[i].1.clone();
                let ghost before = c@;
                assert(before.len() == pairs_view(c).len());
                c.push((k, x));
                assert(c@ == before.push((k, x)));
                assert(pairs_view(*v)[i as int] == (v@[i as int].0@, v@[i as int].1@));
                assert(c@[i as int] == (k, x));
                assert(pairs_view(c)[i as int] == (k@, x@));
                assert(pairs_view(c) =~= pairs_view(*v).subrange(0, i + 1));
                i = i + 1;
            }
            assert(pairs_view(*v) == pairs_view(*v).subrange(0, v.len() as int));
            Some(c)
        },
        None => None,
    }
}

fn same_env(a: &Option<Vec<(String, String)>>, b: &Option<Vec<(String, String)>>) -> (r: bool)
    ensures
        r == (env_view(*a) == env_view(*b)),
{
    match a {
        Some(x) => match b {
            Some(y) => same_pairs(x, y),
            None => false,
        },
        None => b.is_none(),
    }
}

proof fn lemma_env_map_step(p: Seq<(Seq<char>, Seq<char>)>, i: int)
    requires
        0 <= i < p.len(),
    ensures
        env_map(p.subrange(0, i + 1)) == env_map(p.subrange(0, i)).insert(p[i].0, p[i].1),
{
    assert(p.subrange(0, i + 1).drop_last() =~= p.subrange(0, i));
}

proof fn lemma_env_map_dom(p: Seq<(Seq<char>, Seq<char>)>, k: Seq<char>)
    ensures
        env_map(p).dom().contains(k) <==> exists|i: int| 0 <= i < p.len() && #[trigger] p[i].0 == k,
    decreases p.len(),
{
    if p.len() > 0 {
        let pre = p.drop_last();
        lemma_env_map_dom(pre, k);
        if exists|i: int| 0 <= i < pre.len() && #[trigger] pre[i].0 == k {
            let i = choose|i: int| 0 <= i < pre.len() && #[trigger] pre[i].0 == k;
            assert(p[i] == pre[i]);
        }
        if exists|i: int| 0 <= i < p.len() && #[trigger] p[i].0 == k {
            let i = choose|i: int| 0 <= i < p.len() && #[trigger] p[i].0 == k;
            if i < pre.len() {
                assert(pre[i] == p[i]);
            }
        }
    }
}

/// The index of the last entry for `key`, which gives its value.
fn lookup(v: &Vec<(String, String)>, key: &String) -> (r: Option<usize>)
    ensures
        r is None <==> !env_map(pairs_view(*v)).dom().contains(key@),
        r matches Some(i) ==> i < v.len() && v@[i as int].1@ == env_map(pairs_view(*v))[key@],
{
    let ghost p = pairs_view(*v);
    let mut found: Option<usize> = None;
    let mut i: usize = 0;
    assert(env_map(p.subrange(0, 0)) == Map::<Seq<char>, Seq<char>>::empty()) by {
        assert(p.subrange(0, 0).len() == 0);
    }
    while i < v.len()
        invariant
            i <= v.len(),
            p == pairs_view(*v),
            found is None <==> !env_map(p.subrange(0, i as int)).dom().contains(key@),
            found matches Some(j) ==> j < i && v@[j as int].1@ == env_map(p.subrange(0, i as int))[key@],
        decreases v.len() - i,
    {
        proof { lemma_env_map_step(p, i as int); }
        assert(p[i as int] == (v@[i as int].0@, v@[i as int].1@));
        if v[i].0 == *key {
            found = Some(i);
        }
        i = i + 1;
    }
    assert(p.subrange(0, i as int) =~= p);
    found
}

/// Whether every name of `x` has the same value in `y`.
fn values_agree(x: &Vec<(String, String)>, y: &Vec<(String, String)>) -> (r: bool)
    ensures
        r == forall|k: Seq<char>|
            #[trigger] env_map(pairs_view(*x)).dom().contains(k) ==> env_map(
                pairs_view(*y),
            ).dom().contains(k) && env_map(pairs_view(*y))[k] == env_map(pairs_view(*x))[k],
{
    let ghost px = pairs_view(*x);
    let ghost mx = env_map(px);
    let ghost my = env_map(pairs_view(*y));
    let mut i: usize = 0;
    while i < x.len()
        invariant
            i <= x.len(),
            px == pairs_view(*x),
            mx == env_map(px),
            my == env_map(pairs_view(*y)),
            forall|j: int|
                0 <= j < i ==> my.dom().contains(#[trigger] px[j].0) && my[px[j].0] == mx[px[j].0],
        decreases x.len() - i,
    {
        assert(px[i as int] == (x@[i as int].0@, x@[i as int].1@));
        proof { lemma_env_map_dom(px, px[i as int].0); }
        let in_x = lookup(x, &x[i].0);
        let in_y = lookup(y, &x[i].0);
        match (in_x, in_y) {
            (Some(a), Some(b)) => {
                if !(x[a].1 == y[b].1) {
                    return false;
                }
            },
            _ => {
                return false;
            },
        }
        i = i + 1;
    }
    assert forall|k: Seq<char>| #[trigger] mx.dom().contains(k) implies my.dom().contains(k)
        && my[k] == mx[k] by {
        lemma_env_map_dom(px, k);
        let j = choose|j: int| 0 <= j < px.len() && #[trigger] px[j].0 == k;
    }
    true
}

/// Whether two lists of entries give the same map.
fn same_pairs(x: &Vec<(String, String)>, y: &Vec<(String, String)>) -> (r: bool)
    ensures
        r == (env_map(pairs_view(*x)) == env_map(pairs_view(*y))),
{
    let ghost mx = env_map(pairs_view(*x));
    let ghost my = env_map(pairs_view(*y));
    let r = values_agree(x, y) && values_agree(y, x);
    proof {
        if r {
            assert(mx =~= my);
        }
    }
    r
}

impl ProgramConfig2 {
    /// Whether two configurations are the same in every field.
    pub fn same_as(&self, other: &ProgramConfig2) -> (r: bool)
        ensures
            r == (self@ == other@),
    {
        let redirect_same = match (&self.redirect, &other.redirect) {
            (Some(x), Some(y)) => x.stdout == y.stdout && x.stderr == y.stderr,
            (None, None) => true,
            _ => false,
        };
        self.cmd == other.cmd && self.num_processes == other.num_processes && self.autostart
            == other.autostart && self.restart_policy == other.restart_policy && same_codes(
            &self.expected_error_codes,
            &other.expected_error_codes,
        ) && self.minimum_runtime == other.minimum_runtime && self.max_relauch_retry
            == other.max_relauch_retry && self.stop_signal == other.stop_signal
            && self.time_after_proper_stop == other.time_after_proper_stop && redirect_same
            && same_env(&self.env_to_set, &other.env_to_set) && same_text(
            &self.working_dir,
            &other.working_dir,
        ) && self.umask == other.umask
    }

    /// A copy of this configuration.
    pub fn duplicate(&self) -> (r: ProgramConfig2)
        ensures
            r@ == self@,
    {
        let redirect = match &self.redirect {
            Some(x) => Some(Redirect { stdout: x.stdout.clone(), stderr: x.stderr.clone() }),
            None => None,
        };
        ProgramConfig2 {
            cmd: self.cmd.clone(),
            num_processes: self.num_processes,
            autostart: self.autostart,
            restart_policy: self.restart_policy,
            expected_error_codes: copy_codes(&self.expected_error_codes),
            minimum_runtime: self.minimum_runtime,
            max_relauch_retry: self.max_relauch_retry,
            stop_signal: self.stop_signal,
            time_after_proper_stop: self.time_after_proper_stop,
            redirect,
            env_to_set: copy_env(&self.env_to_set),
            working_dir: copy_text(&self.working_dir),
            umask: self.umask,
        }
    }
}

/// The programs of a configuration file, each under its own name: a map from
/// names to configurations that keeps the order in which names came in.
#[derive(Debug)]
pub struct ProgramsConfig {
    programs: Vec<(String, ProgramConfig2)>,
}

pub open spec fn entries_view(v: Seq<(String, ProgramConfig2)>) -> Seq<(Seq<char>, ProgramConfigView)> {
    v.map_values(|e: (String, ProgramConfig2)| (e.0@, e.1@))
}

impl View for ProgramsConfig {
    type V = Seq<(Seq<char>, ProgramConfigView)>;

    closed spec fn view(&self) -> Seq<(Seq<char>, ProgramConfigView)> {
        entries_view(self.programs@)
    }
}

/// Whether some entry has the name `name`.
pub open spec fn has_entry(entries: Seq<(Seq<char>, ProgramConfigView)>, name: Seq<char>) -> bool {
    exists|i: int| 0 <= i < entries.len() && #[trigger] entries[i].0 == name
}

/// The entries after `name` is bound to `config`: an entry of that name gets
/// the new configuration in its place; a new name goes last.
pub open spec fn insert_entry(
    entries: Seq<(Seq<char>, ProgramConfigView)>,
    name: Seq<char>,
    config: ProgramConfigView,
) -> Seq<(Seq<char>, ProgramConfigView)> {
    if has_entry(entries, name) {
        entries.update(
            choose|i: int| 0 <= i < entries.len() && #[trigger] entries[i].0 == name,
            (name, config),
        )
    } else {
        entries.push((name, config))
    }
}

impl ProgramsConfig {
    #[verifier::type_invariant]
    spec fn names_once(self) -> bool {
        entry_names_distinct(self@)
    }

    /// A configuration with no program.
    pub fn new() -> (r: ProgramsConfig)
        ensures
            r@ == Seq::<(Seq<char>, ProgramConfigView)>::empty(),
    {
        let r = ProgramsConfig { programs: Vec::new() };
        assert(r@ =~= Seq::<(Seq<char>, ProgramConfigView)>::empty());
        r
    }

    /// Binds `name` to `config`, replacing the configuration that the name had.
    pub fn insert(&mut self, name: String, config: ProgramConfig2)
        ensures
            final(self)@ == insert_entry(old(self)@, name@, config@),
            entry_names_distinct(final(self)@),
    {
        proof { use_type_invariant(&*self); }
        let ghost before = self@;
        let mut v: Vec<(String, ProgramConfig2)> = Vec::new();
        std::mem::swap(&mut v, &mut self.programs);
        assert(entries_view(v@) == before);
        let mut i: usize = 0;
        let mut found: Option<usize> = None;
        while i < v.len()
            invariant
                i <= v.len(),
                entries_view(v@) == before,
                found is None ==> forall|j: int| 0 <= j < i ==> #[trigger] before[j].0 != name@,
                found matches Some(k) ==> k < v.len() && before[k as int].0 == name@,
            decreases v.len() - i,
        {
            assert(before[i as int] == (v@[i as int].0@, v@[i as int].1@));
            if found.is_none() && v[i].0 == name {
                found = Some(i);
            }
            i = i + 1;
        }
        let ghost name_v = name@;
        let ghost config_v = config@;
        match found {
            Some(k) => {
                assert(has_entry(before, name_v));
                let ghost c = choose|j: int| 0 <= j < before.len() && #[trigger] before[j].0 == name_v;
                assert(c == k as int);
                v.set(k, (name, config));
                assert(entries_view(v@) =~= before.update(k as int, (name_v, config_v)));
            },
            None => {
                assert(!has_entry(before, name_v));
                v.push((name, config));
                assert(entries_view(v@) =~= before.push((name_v, config_v)));
            },
        }
        self.programs = v;
    }

    /// The entries, in order.
    pub fn into_entries(self) -> (r: Vec<(String, ProgramConfig2)>)
        ensures
            entries_view(r@) == self@,
            entry_names_distinct(self@),
    {
        proof { use_type_invariant(&self); }
        self.programs
    }
}

/// A supervised program: its name and configuration, the process ids of its
/// running children, and the state of its restart policy.
///
/// Times are milliseconds of a monotonic clock.
#[derive(Debug)]
pub struct Program {
    /// (name of program, config of program)
    pub config: (String, ProgramConfig2),
    pub childs: Vec<u32>,
    pub retry_count: u32,
    pub last_launch_time: u64,
    pub unexpected_error_code: bool,
    pub is_stopped_manually: bool,
}

pub struct ProgramView {
    pub name: Seq<char>,
    pub config: ProgramConfigView,
    pub childs: Seq<u32>,
    pub retry_count: u32,
    pub last_launch_time: u64,
    pub unexpected_error_code: bool,
    pub is_stopped_manually: bool,
}

impl View for Program {
    type V = ProgramView;

    open spec fn view(&self) -> ProgramView {
        ProgramView {
            name: self.config.0@,
            config: self.config.1@,
            childs: self.childs@,
            retry_count: self.retry_count,
            last_launch_time: self.last_launch_time,
            unexpected_error_code: self.unexpected_error_code,
            is_stopped_manually: self.is_stopped_manually,
        }
    }
}

/// All supervised programs, and the configuration file they were read from.
#[derive(Debug)]
pub struct Taskmaster {
    pub programs: Vec<Program>,
    pub config_file: String,
}

pub open spec fn programs_view(ps: Seq<Program>) -> Seq<ProgramView> {
    ps.map_values(|p: Program| p@)
}

impl View for Taskmaster {
    type V = Seq<ProgramView>;

    open spec fn view(&self) -> Seq<ProgramView> {
        programs_view(self.programs@)
    }
}

/// Replacing one program replaces its view.
pub proof fn lemma_update_view(programs: Seq<Program>, i: int, p: Program)
    requires
        0 <= i < programs.len(),
    ensures
        programs_view(programs.update(i, p)) == programs_view(programs).update(i, p@),
{
    assert(programs_view(programs.update(i, p)) =~= programs_view(programs).update(i, p@));
}

/// No two programs share a name.
pub open spec fn names_distinct(ps: Seq<ProgramView>) -> bool {
    forall|i: int, j: int|
        0 <= i < ps.len() && 0 <= j < ps.len() && #[trigger] ps[i].name == #[trigger] ps[j].name
            ==> i == j
}

/// No two entries of a configuration share a name.
pub open spec fn entry_names_distinct(entries: Seq<(Seq<char>, ProgramConfigView)>) -> bool {
    forall|i: int, j: int|
        0 <= i < entries.len() && 0 <= j < entries.len() && #[trigger] entries[i].0
            == #[trigger] entries[j].0 ==> i == j
}

/// A program as it stands right after the configuration was read: no
/// children, no retries, last launched at `now`.
pub open spec fn fresh_program(name: Seq<char>, config: ProgramConfigView, now: u64) -> ProgramView {
    ProgramView {
        name,
        config,
        childs: Seq::empty(),
        retry_count: 0,
        last_launch_time: now,
        unexpected_error_code: false,
        is_stopped_manually: false,
    }
}

pub open spec fn stops_on_hup(p: ProgramView) -> bool {
    p.config.stop_signal == Some(_Signalstopper::SIGHUP)
}

pub open spec fn hup_message(name: Seq<char>) -> Seq<char> {
    "Invalid signal for program "@ + name + ". SIGHUP is reserved for configuration reload."@
}

/// `SIGHUP` is reserved for reloading the configuration: the configuration is
/// refused, naming the first program that would be stopped with it.
pub fn is_config_valid(config: &Taskmaster) -> (r: Result<(), TaskmasterError>)
    ensures
        r is Ok <==> forall|i: int| 0 <= i < config@.len() ==> !stops_on_hup(#[trigger] config@[i]),
        r matches Err(e) ==> exists|i: int|
            0 <= i < config@.len() && stops_on_hup(#[trigger] config@[i]) && (forall|j: int|
                0 <= j < i ==> !stops_on_hup(config@[j])) && is_invalid_param(e, hup_message(config@[i].name)),
{
    let mut i: usize = 0;
    while i < config.programs.len()
        invariant
            i <= config.programs.len(),
            forall|j: int| 0 <= j < i ==> !stops_on_hup(#[trigger] config@[j]),
        decreases config.programs.len() - i,
    {
        let program = &config.programs[i];
        assert(config@[i as int] == program@);
        match program.config.1.stop_signal {
            Some(sig) => {
                if sig == _Signalstopper::SIGHUP {
                    proof {
                        reveal_strlit("Invalid signal for program ");
                        reveal_strlit(". SIGHUP is reserved for configuration reload.");
                    }
                    let msg = String::from_str("Invalid signal for program ").concat(
                        program.config.0.as_str(),
                    ).concat(". SIGHUP is reserved for configuration reload.");
                    return Err(TaskmasterError::InvalidParam(msg));
                }
            },
            None => {},
        }
        i = i + 1;
    }
    Ok(())
}

/// The configuration file named on the command line (`args[0]` is the program
/// itself): `config.yaml` when none is given.
pub fn config_path(args: &Vec<String>) -> (r: Result<String, TaskmasterError>)
    ensures
        args.len() == 1 ==> (r matches Ok(p) && p@ == "config.yaml"@),
        args.len() == 2 ==> (r matches Ok(p) && p@ == args@[1]@),
        args.len() != 1 && args.len() != 2 ==> (r matches Err(e) && is_argument_error(
            e,
            "Too many arguments provided"@,
        )),
{
    proof {
        reveal_strlit("config.yaml");
        reveal_strlit("Too many arguments provided");
    }
    if args.len() == 1 {
        Ok(String::from_str("config.yaml"))
    } else if args.len() == 2 {
        Ok(args[1].clone())
    } else {
        Err(TaskmasterError::Argument(String::from_str("Too many arguments provided")))
    }
}

/// The supervisor state for a freshly read configuration: one program per
/// entry, in order, none running; refused when a program would be stopped with
/// `SIGHUP`.
pub fn build_taskmaster(config: ProgramsConfig, path: String, now: u64) -> (r: Result<
    Taskmaster,
    TaskmasterError,
>)
    ensures
        (r is Ok) <==> forall|i: int|
            0 <= i < config@.len() ==> #[trigger] config@[i].1.stop_signal != Some(
                _Signalstopper::SIGHUP,
            ),
        r matches Ok(tm) ==> tm.config_file == path && tm@.len() == config@.len() && forall|i: int|
            0 <= i < tm@.len() ==> #[trigger] tm@[i] == fresh_program(
                config@[i].0,
                config@[i].1,
                now,
            ),
        r matches Ok(tm) ==> names_distinct(tm@),
        r matches Err(e) ==> exists|i: int|
            0 <= i < config@.len() && #[trigger] config@[i].1.stop_signal == Some(
                _Signalstopper::SIGHUP,
            ) && (forall|j: int|
                0 <= j < i ==> config@[j].1.stop_signal != Some(_Signalstopper::SIGHUP))
                && is_invalid_param(e, hup_message(config@[i].0)),
{
    let ghost entries = config@;
    let list = config.into_entries();
    let programs = fresh_programs(list, now);
    let tm = Taskmaster { programs, config_file: path };
    assert forall|i: int| 0 <= i < tm@.len() implies tm@[i] == fresh_program(
        entries[i].0,
        entries[i].1,
        now,
    ) && (stops_on_hup(#[trigger] tm@[i]) <==> entries[i].1.stop_signal == Some(
        _Signalstopper::SIGHUP,
    )) by {
        assert(tm@[i] == tm.programs@[i]@);
        assert(entries[i] == (list@[i].0@, list@[i].1@));
    }
    assert forall|i: int, j: int|
        0 <= i < tm@.len() && 0 <= j < tm@.len() && #[trigger] tm@[i].name
            == #[trigger] tm@[j].name implies i == j by {
        assert(tm@[i].name == entries[i].0);
        assert(tm@[j].name == entries[j].0);
    }
    match is_config_valid(&tm) {
        Ok(()) => {
            assert forall|i: int| 0 <= i < entries.len() implies #[trigger] entries[i].1.stop_signal
                != Some(_Signalstopper::SIGHUP) by {
                assert(!stops_on_hup(tm@[i]));
            }
            Ok(tm)
        },
        Err(e) => {
            let ghost k = choose|k: int|
                0 <= k < tm@.len() && stops_on_hup(#[trigger] tm@[k]) && (forall|j: int|
                    0 <= j < k ==> !stops_on_hup(tm@[j])) && is_invalid_param(
                    e,
                    hup_message(tm@[k].name),
                );
            assert(entries[k].1.stop_signal == Some(_Signalstopper::SIGHUP));
            assert forall|j: int| 0 <= j < k implies entries[j].1.stop_signal != Some(
                _Signalstopper::SIGHUP,
            ) by {
                assert(!stops_on_hup(tm@[j]));
            }
            Err(e)
        },
    }
}

fn fresh_programs(entries: Vec<(String, ProgramConfig2)>, now: u64) -> (programs: Vec<Program>)
    ensures
        programs.len() == entries.len(),
        forall|i: int|
            0 <= i < programs.len() ==> #[trigger] programs@[i]@ == fresh_program(
                entries@[i].0@,
                entries@[i].1@,
                now,
            ),
{
    let ghost all = entries@;
    let mut rest = entries;
    let mut programs: Vec<Program> = Vec::new();
    while rest.len() > 0
        invariant
            programs.len() + rest.len() == all.len(),
            rest@ == all.subrange(programs.len() as int, all.len() as int),
            forall|i: int|
                0 <= i < programs.len() ==> #[trigger] programs@[i]@ == fresh_program(
                    all[i].0@,
                    all[i].1@,
                    now,
                ),
        decreases rest.len(),
    {
        let (name, cfg) = rest.remove(0);
        programs.push(
            Program {
                config: (name, cfg),
                childs: Vec::new(),
                retry_count: 0,
                last_launch_time: now,
                unexpected_error_code: false,
                is_stopped_manually: false,
            },
        );
    }
    programs
}

} // verus!

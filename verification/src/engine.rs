use vstd::prelude::*;

use crate::communication::ThreadMessage;
use crate::config::{lemma_update_view, programs_view, text_view, Program, ProgramView, Taskmaster};
use crate::exec::{start_prog, started, stop_prog, stopped};
use crate::signals::_Signalstopper;

verus! {

/// What the execution engine reports to its log.
#[derive(Debug, PartialEq, Eq)]
pub enum Notice {
    /// a start was asked for a program that is running
    AlreadyRunning(String),
    /// no program has this name
    NotFound(String),
    /// a restart was asked for a program that is not running
    AlreadyOff(String),
    /// the program is stopped because the supervisor received its stop signal
    StoppingOnSignal(_Signalstopper, String),
    /// the engine is exiting
    Exiting,
    /// a child of the program is killed
    Killing(String, u32),
    /// the program is not in the new configuration
    WillBeRemoved(String),
    /// the program's configuration changed
    Updated(String),
    /// the program is new in the configuration
    NewProgram(String),
    /// the program and the process ids of its running children
    Status(String, Vec<u32>),
}

/// The answers of the execution engine to the control shell.
#[derive(Debug, Clone, Copy, PartialEq, Eq, Structural)]
pub enum Reply {
    ActionDone,
    StatusDone,
    ExitDone,
    ConfigReloaded,
}

/// The work that the execution engine leaves to its caller, in order.
#[derive(Debug, PartialEq, Eq)]
pub enum ExecAction {
    /// report a notice
    Log(Notice),
    /// end these children: send each the program's stop signal when it has
    /// one and give them the grace time (seconds) to end, then kill and wait
    /// for those still running; with no stop signal, kill at once
    Stop(Vec<u32>, Option<_Signalstopper>, Option<u64>),
    /// kill and wait for one child, whatever comes of it
    Kill(u32),
    /// launch that many processes of the named program (announcing each when
    /// the flag is set) and record them with `record_spawned`
    Spawn(String, usize, bool),
    /// answer the control shell
    Reply(Reply),
    /// end the engine
    Quit,
}

pub enum NoticeView {
    AlreadyRunning(Seq<char>),
    NotFound(Seq<char>),
    AlreadyOff(Seq<char>),
    StoppingOnSignal(_Signalstopper, Seq<char>),
    Exiting,
    Killing(Seq<char>, u32),
    WillBeRemoved(Seq<char>),
    Updated(Seq<char>),
    NewProgram(Seq<char>),
    Status(Seq<char>, Seq<u32>),
}

pub enum ActionView {
    Log(NoticeView),
    Stop(Seq<u32>, Option<_Signalstopper>, Option<u64>),
    Kill(u32),
    Spawn(Seq<char>, int, bool),
    Reply(Reply),
    Quit,
}

impl View for Notice {
    type V = NoticeView;

    open spec fn view(&self) -> NoticeView {
        match self {
            Notice::AlreadyRunning(n) => NoticeView::AlreadyRunning(n@),
            Notice::NotFound(n) => NoticeView::NotFound(n@),
            Notice::AlreadyOff(n) => NoticeView::AlreadyOff(n@),
            Notice::StoppingOnSignal(s, n) => NoticeView::StoppingOnSignal(*s, n@),
            Notice::Exiting => NoticeView::Exiting,
            Notice::Killing(n, pid) => NoticeView::Killing(n@, *pid),
            Notice::WillBeRemoved(n) => NoticeView::WillBeRemoved(n@),
            Notice::Updated(n) => NoticeView::Updated(n@),
            Notice::NewProgram(n) => NoticeView::NewProgram(n@),
            Notice::Status(n, pids) => NoticeView::Status(n@, pids@),
        }
    }
}

impl View for ExecAction {
    type V = ActionView;

    open spec fn view(&self) -> ActionView {
        match self {
            ExecAction::Log(n) => ActionView::Log(n@),
            ExecAction::Stop(pids, sig, grace) => ActionView::Stop(pids@, *sig, *grace),
            ExecAction::Kill(pid) => ActionView::Kill(*pid),
            ExecAction::Spawn(n, count, announce) => ActionView::Spawn(n@, *count as int, *announce),
            ExecAction::Reply(r) => ActionView::Reply(*r),
            ExecAction::Quit => ActionView::Quit,
        }
    }
}

pub open spec fn actions_view(v: Seq<ExecAction>) -> Seq<ActionView> {
    v.map_values(|a: ExecAction| a@)
}

pub open spec fn log(n: NoticeView) -> ActionView {
    ActionView::Log(n)
}

pub open spec fn reply(r: Reply) -> ActionView {
    ActionView::Reply(r)
}

/// Ending a program's children the way its configuration says: with its stop
/// signal and grace time.
pub open spec fn stop_of(p: ProgramView) -> ActionView {
    ActionView::Stop(p.childs, p.config.stop_signal, p.config.time_after_proper_stop)
}

/// Stops the program by hand (see [`stop_prog`]) and gives the work that ends
/// its children.
fn stop_children(p: &mut Program) -> (a: ExecAction)
    ensures
        a@ == stop_of(old(p)@),
        final(p)@ == stopped(old(p)@),
{
    let sig = p.config.1.stop_signal;
    let grace = p.config.1.time_after_proper_stop;
    let pids = stop_prog(p);
    ExecAction::Stop(pids, sig, grace)
}

/// The first program with this name, or -1.
pub open spec fn find_program(ps: Seq<ProgramView>, name: Seq<char>) -> int
    decreases ps.len(),
{
    if ps.len() == 0 {
        -1
    } else {
        let f = find_program(ps.drop_last(), name);
        if f >= 0 {
            f
        } else if ps.last().name == name {
            ps.len() - 1
        } else {
            -1
        }
    }
}

/// Some program has this name.
pub open spec fn has_name(ps: Seq<ProgramView>, name: Seq<char>) -> bool {
    exists|i: int| 0 <= i < ps.len() && #[trigger] ps[i].name == name
}

pub proof fn lemma_find_program(ps: Seq<ProgramView>, name: Seq<char>)
    ensures
        -1 <= find_program(ps, name) < ps.len(),
        find_program(ps, name) < 0 <==> !has_name(ps, name),
        find_program(ps, name) >= 0 ==> ps[find_program(ps, name)].name == name,
        forall|j: int| 0 <= j < find_program(ps, name) ==> #[trigger] ps[j].name != name,
    decreases ps.len(),
{
    if ps.len() > 0 {
        let pre = ps.drop_last();
        lemma_find_program(pre, name);
        if find_program(pre, name) >= 0 {
            let f = find_program(pre, name);
            assert(ps[f] == pre[f]);
            assert forall|j: int| 0 <= j < f implies #[trigger] ps[j].name != name by {
                assert(ps[j] == pre[j]);
            }
        } else {
            assert forall|j: int| 0 <= j < ps.len() - 1 implies #[trigger] ps[j].name != name by {
                assert(ps[j] == pre[j]);
                assert(!(pre[j].name == name));
            }
            if has_name(ps, name) {
                let k = choose|k: int| 0 <= k < ps.len() && #[trigger] ps[k].name == name;
                assert(k == ps.len() - 1);
            }
        }
    }
}

/// Finds the first program with this name.
pub fn find_index(programs: &Vec<Program>, name: &String) -> (r: Option<usize>)
    ensures
        match r {
            Some(i) => i < programs.len() && i as int == find_program(programs_view(programs@), name@),
            None => find_program(programs_view(programs@), name@) < 0,
        },
{
    let ghost ps = programs_view(programs@);
    proof { lemma_find_program(ps, name@); }
    let mut i: usize = 0;
    while i < programs.len()
        invariant
            i <= programs.len(),
            ps == programs_view(programs@),
            forall|j: int| 0 <= j < i ==> #[trigger] ps[j].name != name@,
            -1 <= find_program(ps, name@) < ps.len(),
            find_program(ps, name@) < 0 <==> !has_name(ps, name@),
            find_program(ps, name@) >= 0 ==> ps[find_program(ps, name@)].name == name@,
            forall|j: int| 0 <= j < find_program(ps, name@) ==> #[trigger] ps[j].name != name@,
        decreases programs.len() - i,
    {
        assert(ps[i as int] == programs@[i as int]@);
        if programs[i].config.0 == *name {
            assert(ps[i as int].name == name@);
            assert(has_name(ps, name@));
            proof {
                let f = find_program(ps, name@);
                if f < i {
                    assert(ps[f].name == name@);
                }
            }
            return Some(i);
        }
        i = i + 1;
    }
    None
}

/// A start: a program not running is launched with its configured number of
/// processes.
pub open spec fn start_step(ps: Seq<ProgramView>, name: Seq<char>, now: u64) -> (
    Seq<ProgramView>,
    Seq<ActionView>,
) {
    let i = find_program(ps, name);
    if i < 0 {
        (ps, seq![log(NoticeView::NotFound(name)), reply(Reply::ActionDone)])
    } else if ps[i].childs.len() > 0 {
        (ps, seq![log(NoticeView::AlreadyRunning(name)), reply(Reply::ActionDone)])
    } else {
        (
            ps.update(i, started(ps[i], now)),
            seq![
                ActionView::Spawn(name, ps[i].config.num_processes as int, true),
                reply(Reply::ActionDone),
            ],
        )
    }
}

/// A stop: the children of a running program are ended.
pub open spec fn stop_step(ps: Seq<ProgramView>, name: Seq<char>) -> (
    Seq<ProgramView>,
    Seq<ActionView>,
) {
    let i = find_program(ps, name);
    if i < 0 {
        (ps, seq![log(NoticeView::NotFound(name)), reply(Reply::ActionDone)])
    } else if ps[i].childs.len() > 0 {
        (
            ps.update(i, stopped(ps[i])),
            seq![stop_of(ps[i]), reply(Reply::ActionDone)],
        )
    } else {
        (ps, seq![reply(Reply::ActionDone)])
    }
}

/// A restart: a running program is stopped, then launched again.
pub open spec fn restart_step(ps: Seq<ProgramView>, name: Seq<char>, now: u64) -> (
    Seq<ProgramView>,
    Seq<ActionView>,
) {
    let i = find_program(ps, name);
    if i < 0 {
        (ps, seq![log(NoticeView::NotFound(name)), reply(Reply::ActionDone)])
    } else if ps[i].childs.len() == 0 {
        (ps, seq![log(NoticeView::AlreadyOff(name)), reply(Reply::ActionDone)])
    } else {
        (
            ps.update(i, started(stopped(ps[i]), now)),
            seq![
                stop_of(ps[i]),
                ActionView::Spawn(name, ps[i].config.num_processes as int, true),
                reply(Reply::ActionDone),
            ],
        )
    }
}

/// Handles a start request.
pub fn handle_start(tm: &mut Taskmaster, name: String, now: u64) -> (acts: Vec<ExecAction>)
    ensures
        (final(tm)@, actions_view(acts@)) == start_step(old(tm)@, name@, now),
        final(tm).config_file == old(tm).config_file,
{
    let mut acts: Vec<ExecAction> = Vec::new();
    match find_index(&tm.programs, &name) {
        None => {
            acts.push(ExecAction::Log(Notice::NotFound(name)));
        },
        Some(i) => {
            if tm.programs[i].childs.len() > 0 {
                acts.push(ExecAction::Log(Notice::AlreadyRunning(name)));
            } else {
                let ghost before = tm.programs@;
                let count = tm.programs[i].config.1.num_processes as usize;
                start_prog(&mut tm.programs[i], now);
                proof {
                    assert(tm.programs@ == before.update(i as int, tm.programs@[i as int]));
                    lemma_update_view(before, i as int, tm.programs@[i as int]);
                }
                acts.push(ExecAction::Spawn(name, count, true));
            }
        },
    }
    acts.push(ExecAction::Reply(Reply::ActionDone));
    assert(actions_view(acts@) =~= start_step(old(tm)@, name@, now).1);
    acts
}


/// Handles a stop request.
pub fn handle_stop(tm: &mut Taskmaster, name: String) -> (acts: Vec<ExecAction>)
    ensures
        (final(tm)@, actions_view(acts@)) == stop_step(old(tm)@, name@),
        final(tm).config_file == old(tm).config_file,
{
    let mut acts: Vec<ExecAction> = Vec::new();
    match find_index(&tm.programs, &name) {
        None => {
            acts.push(ExecAction::Log(Notice::NotFound(name)));
        },
        Some(i) => {
            if tm.programs[i].childs.len() > 0 {
                let ghost before = tm.programs@;
                let stop = stop_children(&mut tm.programs[i]);
                proof {
                    lemma_update_view(before, i as int, tm.programs@[i as int]);
                }
                acts.push(stop);
            }
        },
    }
    acts.push(ExecAction::Reply(Reply::ActionDone));
    assert(actions_view(acts@) =~= stop_step(old(tm)@, name@).1);
    acts
}

/// Handles a restart request.
pub fn handle_restart(tm: &mut Taskmaster, name: String, now: u64) -> (acts: Vec<ExecAction>)
    ensures
        (final(tm)@, actions_view(acts@)) == restart_step(old(tm)@, name@, now),
        final(tm).config_file == old(tm).config_file,
{
    let mut acts: Vec<ExecAction> = Vec::new();
    match find_index(&tm.programs, &name) {
        None => {
            acts.push(ExecAction::Log(Notice::NotFound(name)));
        },
        Some(i) => {
            if tm.programs[i].childs.len() == 0 {
                acts.push(ExecAction::Log(Notice::AlreadyOff(name)));
            } else {
                let ghost before = tm.programs@;
                let count = tm.programs[i].config.1.num_processes as usize;
                let stop = stop_children(&mut tm.programs[i]);
                start_prog(&mut tm.programs[i], now);
                proof {
                    lemma_update_view(before, i as int, tm.programs@[i as int]);
                }
                acts.push(stop);
                acts.push(ExecAction::Spawn(name, count, true));
            }
        },
    }
    acts.push(ExecAction::Reply(Reply::ActionDone));
    assert(actions_view(acts@) =~= restart_step(old(tm)@, name@, now).1);
    acts
}

/// The program is stopped with this signal.
pub open spec fn signal_hits(p: ProgramView, sig: _Signalstopper) -> bool {
    p.config.stop_signal == Some(sig)
}

/// A program once the supervisor received `sig`: stopped if it runs and
/// stops with that signal.
pub open spec fn after_signal(p: ProgramView, sig: _Signalstopper) -> ProgramView {
    if signal_hits(p, sig) && p.childs.len() > 0 {
        stopped(p)
    } else {
        p
    }
}

pub open spec fn program_signal_actions(p: ProgramView, sig: _Signalstopper) -> Seq<ActionView> {
    if signal_hits(p, sig) {
        seq![log(NoticeView::StoppingOnSignal(sig, p.name))] + if p.childs.len() > 0 {
            seq![stop_of(p)]
        } else {
            Seq::empty()
        }
    } else {
        Seq::empty()
    }
}

pub open spec fn signal_actions(ps: Seq<ProgramView>, sig: _Signalstopper) -> Seq<ActionView>
    decreases ps.len(),
{
    if ps.len() == 0 {
        Seq::empty()
    } else {
        signal_actions(ps.drop_last(), sig) + program_signal_actions(ps.last(), sig)
    }
}

/// A signal forwarded by the control shell: every running program that stops
/// with it is stopped.
pub open spec fn signal_step(ps: Seq<ProgramView>, sig: _Signalstopper) -> (
    Seq<ProgramView>,
    Seq<ActionView>,
) {
    (
        ps.map_values(|p: ProgramView| after_signal(p, sig)),
        signal_actions(ps, sig) + seq![reply(Reply::ActionDone)],
    )
}

/// Handles a signal forwarded by the control shell.
pub fn handle_signal(tm: &mut Taskmaster, sig: _Signalstopper) -> (acts: Vec<ExecAction>)
    ensures
        (final(tm)@, actions_view(acts@)) == signal_step(old(tm)@, sig),
        final(tm).config_file == old(tm).config_file,
{
    let ghost ps = old(tm)@;
    let mut acts: Vec<ExecAction> = Vec::new();
    let mut i: usize = 0;
    while i < tm.programs.len()
        invariant
            i <= tm.programs.len(),
            tm.programs.len() == ps.len(),
            tm.config_file == old(tm).config_file,
            forall|k: int| 0 <= k < i ==> #[trigger] tm@[k] == after_signal(ps[k], sig),
            forall|k: int| i <= k < ps.len() ==> #[trigger] tm@[k] == ps[k],
            actions_view(acts@) == signal_actions(ps.subrange(0, i as int), sig),
        decreases ps.len() - i,
    {
        let ghost before = tm.programs@;
        let ghost acts_before = actions_view(acts@);
        assert(tm@[i as int] == tm.programs@[i as int]@);
        let hit = match tm.programs[i].config.1.stop_signal {
            Some(s) => s == sig,
            None => false,
        };
        if hit {
            acts.push(
                ExecAction::Log(Notice::StoppingOnSignal(sig, tm.programs[i].config.0.clone())),
            );
            if tm.programs[i].childs.len() > 0 {
                let stop = stop_children(&mut tm.programs[i]);
                acts.push(stop);
            }
        }
        proof {
            lemma_update_view(before, i as int, tm.programs@[i as int]);
            assert(tm.programs@ == before.update(i as int, tm.programs@[i as int]));
            assert(ps.subrange(0, i + 1).drop_last() =~= ps.subrange(0, i as int));
            assert(actions_view(acts@) =~= acts_before + program_signal_actions(ps[i as int], sig));
        }
        i = i + 1;
    }
    acts.push(ExecAction::Reply(Reply::ActionDone));
    assert(ps.subrange(0, ps.len() as int) =~= ps);
    assert(tm@ =~= ps.map_values(|p: ProgramView| after_signal(p, sig)));
    assert(actions_view(acts@) =~= signal_step(ps, sig).1);
    acts
}

pub open spec fn kill_actions(name: Seq<char>, pids: Seq<u32>) -> Seq<ActionView>
    decreases pids.len(),
{
    if pids.len() == 0 {
        Seq::empty()
    } else {
        kill_actions(name, pids.drop_last()) + seq![
            log(NoticeView::Killing(name, pids.last())),
            ActionView::Kill(pids.last()),
        ]
    }
}

pub open spec fn exit_kills(ps: Seq<ProgramView>) -> Seq<ActionView>
    decreases ps.len(),
{
    if ps.len() == 0 {
        Seq::empty()
    } else {
        exit_kills(ps.drop_last()) + kill_actions(ps.last().name, ps.last().childs)
    }
}

/// An exit: every child of every program is killed, then the engine ends.
pub open spec fn exit_step(ps: Seq<ProgramView>) -> (Seq<ProgramView>, Seq<ActionView>) {
    (
        ps,
        seq![log(NoticeView::Exiting)] + exit_kills(ps) + seq![
            reply(Reply::ExitDone),
            ActionView::Quit,
        ],
    )
}

fn push_kills(acts: &mut Vec<ExecAction>, program: &Program)
    ensures
        actions_view(final(acts)@) == actions_view(old(acts)@) + kill_actions(
            program@.name,
            program@.childs,
        ),
{
    let ghost start = actions_view(acts@);
    let mut j: usize = 0;
    while j < program.childs.len()
        invariant
            j <= program.childs.len(),
            actions_view(acts@) == start + kill_actions(
                program@.name,
                program@.childs.subrange(0, j as int),
            ),
        decreases program.childs.len() - j,
    {
        let ghost before = actions_view(acts@);
        let pid = program.childs[j];
        acts.push(ExecAction::Log(Notice::Killing(program.config.0.clone(), pid)));
        acts.push(ExecAction::Kill(pid));
        proof {
            let pre = program@.childs.subrange(0, j + 1);
            assert(pre.drop_last() =~= program@.childs.subrange(0, j as int));
            assert(actions_view(acts@) =~= before + seq![
                log(NoticeView::Killing(program@.name, pid)),
                ActionView::Kill(pid),
            ]);
        }
        j = j + 1;
    }
    assert(program@.childs.subrange(0, j as int) =~= program@.childs);
}

/// Handles an exit request.
pub fn handle_exit(tm: &Taskmaster) -> (acts: Vec<ExecAction>)
    ensures
        actions_view(acts@) == exit_step(tm@).1,
{
    let ghost ps = tm@;
    let mut acts: Vec<ExecAction> = Vec::new();
    acts.push(ExecAction::Log(Notice::Exiting));
    let mut i: usize = 0;
    while i < tm.programs.len()
        invariant
            i <= tm.programs.len(),
            ps == tm@,
            actions_view(acts@) == seq![log(NoticeView::Exiting)] + exit_kills(
                ps.subrange(0, i as int),
            ),
        decreases tm.programs.len() - i,
    {
        push_kills(&mut acts, &tm.programs[i]);
        proof {
            assert(ps[i as int] == tm.programs@[i as int]@);
            assert(ps.subrange(0, i + 1).drop_last() =~= ps.subrange(0, i as int));
        }
        i = i + 1;
    }
    assert(ps.subrange(0, ps.len() as int) =~= ps);
    let ghost before = actions_view(acts@);
    acts.push(ExecAction::Reply(Reply::ExitDone));
    acts.push(ExecAction::Quit);
    assert(actions_view(acts@) =~= before + seq![reply(Reply::ExitDone), ActionView::Quit]);
    acts
}

/// The program is shown by a status request for `target` (all when `None`).
pub open spec fn shown(p: ProgramView, target: Option<Seq<char>>) -> bool {
    match target {
        Some(t) => p.name == t,
        None => true,
    }
}

pub open spec fn status_lines(ps: Seq<ProgramView>, target: Option<Seq<char>>) -> Seq<ActionView>
    decreases ps.len(),
{
    if ps.len() == 0 {
        Seq::empty()
    } else {
        status_lines(ps.drop_last(), target) + if shown(ps.last(), target) {
            seq![log(NoticeView::Status(ps.last().name, ps.last().childs))]
        } else {
            Seq::empty()
        }
    }
}

/// A status request: the name and running children of each program asked
/// for.
pub open spec fn status_step(ps: Seq<ProgramView>, target: Option<Seq<char>>) -> (
    Seq<ProgramView>,
    Seq<ActionView>,
) {
    (ps, status_lines(ps, target) + seq![reply(Reply::StatusDone)])
}

fn copy_pids(v: &Vec<u32>) -> (r: Vec<u32>)
    ensures
        r@ == v@,
{
    let mut c: Vec<u32> = Vec::new();
    let mut i: usize = 0;
    while i < v.len()
        invariant
            i <= v.len(),
            c@ == v@.subrange(0, i as int),
        decreases v.len() - i,
    {
        c.push(v[i]);
        i = i + 1;
    }
    assert(c@ =~= v@);
    c
}

/// The status of one program (`Some`) or of all (`None`): one line per
/// program shown, then the answer to the control shell.
pub fn print_status(tm: &Taskmaster, target: Option<String>) -> (acts: Vec<ExecAction>)
    ensures
        actions_view(acts@) == status_step(tm@, text_view(target)).1,
{
    let ghost ps = tm@;
    let ghost tv = text_view(target);
    let mut acts: Vec<ExecAction> = Vec::new();
    let mut i: usize = 0;
    while i < tm.programs.len()
        invariant
            i <= tm.programs.len(),
            ps == tm@,
            tv == text_view(target),
            actions_view(acts@) == status_lines(ps.subrange(0, i as int), tv),
        decreases tm.programs.len() - i,
    {
        let ghost before = actions_view(acts@);
        let program = &tm.programs[i];
        assert(ps[i as int] == program@);
        let show = match &target {
            Some(t) => program.config.0 == *t,
            None => true,
        };
        if show {
            acts.push(
                ExecAction::Log(Notice::Status(program.config.0.clone(), copy_pids(&program.childs))),
            );
        }
        proof {
            assert(ps.subrange(0, i + 1).drop_last() =~= ps.subrange(0, i as int));
            assert(show == shown(ps[i as int], tv));
        }
        assert(actions_view(acts@) =~= status_lines(ps.subrange(0, i + 1), tv));
        i = i + 1;
    }
    assert(ps.subrange(0, ps.len() as int) =~= ps);
    let ghost before = actions_view(acts@);
    acts.push(ExecAction::Reply(Reply::StatusDone));
    assert(actions_view(acts@) =~= before + seq![reply(Reply::StatusDone)]);
    acts
}


/// A program of the current configuration once the new configuration is
/// applied: when the program of the same name is configured differently, it
/// takes that configuration and starts afresh (no children, no retries,
/// launched at `now`); otherwise it is left as it is.
pub open spec fn reloaded(p: ProgramView, new: Seq<ProgramView>, now: u64) -> ProgramView {
    let j = find_program(new, p.name);
    if j >= 0 && new[j].config != p.config {
        ProgramView {
            name: p.name,
            config: new[j].config,
            childs: Seq::empty(),
            retry_count: 0,
            last_launch_time: now,
            unexpected_error_code: false,
            is_stopped_manually: false,
        }
    } else {
        p
    }
}

/// What applying the new configuration to a current program asks for: it is
/// announced as removed, or, when reconfigured, its children are stopped and
/// it is launched again if it starts automatically.
pub open spec fn update_actions_of(p: ProgramView, new: Seq<ProgramView>) -> Seq<ActionView> {
    let j = find_program(new, p.name);
    if j < 0 {
        seq![log(NoticeView::WillBeRemoved(p.name))]
    } else if new[j].config != p.config {
        (if p.childs.len() > 0 {
            seq![stop_of(p)]
        } else {
            Seq::empty()
        }) + seq![log(NoticeView::Updated(p.name))] + if new[j].config.autostart {
            seq![ActionView::Spawn(p.name, new[j].config.num_processes as int, true)]
        } else {
            Seq::empty()
        }
    } else {
        Seq::empty()
    }
}

pub open spec fn update_actions(ps: Seq<ProgramView>, new: Seq<ProgramView>) -> Seq<ActionView>
    decreases ps.len(),
{
    if ps.len() == 0 {
        Seq::empty()
    } else {
        update_actions(ps.drop_last(), new) + update_actions_of(ps.last(), new)
    }
}

/// The current programs that the new configuration keeps, once applied.
pub open spec fn kept_after_reload(ps: Seq<ProgramView>, new: Seq<ProgramView>, now: u64) -> Seq<
    ProgramView,
>
    decreases ps.len(),
{
    if ps.len() == 0 {
        Seq::empty()
    } else {
        kept_after_reload(ps.drop_last(), new, now) + if has_name(new, ps.last().name) {
            seq![reloaded(ps.last(), new, now)]
        } else {
            Seq::empty()
        }
    }
}

/// The current programs that the new configuration drops.
pub open spec fn removed_programs(ps: Seq<ProgramView>, new: Seq<ProgramView>) -> Seq<ProgramView>
    decreases ps.len(),
{
    if ps.len() == 0 {
        Seq::empty()
    } else {
        removed_programs(ps.drop_last(), new) + if has_name(new, ps.last().name) {
            Seq::empty()
        } else {
            seq![ps.last()]
        }
    }
}

/// The last of `new` is a program that is added: its name is neither current
/// nor taken by an earlier new program.
pub open spec fn adds_last(ps: Seq<ProgramView>, new: Seq<ProgramView>) -> bool {
    !has_name(ps, new.last().name) && !has_name(new.drop_last(), new.last().name)
}

/// The programs that the new configuration adds, launched at `now` when they
/// start automatically.
pub open spec fn added_programs(ps: Seq<ProgramView>, new: Seq<ProgramView>, now: u64) -> Seq<
    ProgramView,
>
    decreases new.len(),
{
    if new.len() == 0 {
        Seq::empty()
    } else {
        let q = new.last();
        added_programs(ps, new.drop_last(), now) + if adds_last(ps, new) {
            seq![
                if q.config.autostart {
                    started(q, now)
                } else {
                    q
                },
            ]
        } else {
            Seq::empty()
        }
    }
}

pub open spec fn add_actions(ps: Seq<ProgramView>, new: Seq<ProgramView>) -> Seq<ActionView>
    decreases new.len(),
{
    if new.len() == 0 {
        Seq::empty()
    } else {
        let q = new.last();
        add_actions(ps, new.drop_last()) + if adds_last(ps, new) {
            seq![log(NoticeView::NewProgram(q.name))] + if q.config.autostart {
                seq![ActionView::Spawn(q.name, q.config.num_processes as int, true)]
            } else {
                Seq::empty()
            }
        } else {
            Seq::empty()
        }
    }
}

/// Stops the children of each program, in order.
pub open spec fn stop_all(ps: Seq<ProgramView>) -> Seq<ActionView>
    decreases ps.len(),
{
    if ps.len() == 0 {
        Seq::empty()
    } else {
        stop_all(ps.drop_last()) + if ps.last().childs.len() > 0 {
            seq![stop_of(ps.last())]
        } else {
            Seq::empty()
        }
    }
}

/// A new configuration: current programs are reconfigured or removed, new
/// ones added; the kept programs stay in their order, the added ones follow
/// in the order of the new configuration.
pub open spec fn reload_step(ps: Seq<ProgramView>, new: Seq<ProgramView>, now: u64) -> (
    Seq<ProgramView>,
    Seq<ActionView>,
) {
    (
        kept_after_reload(ps, new, now) + added_programs(ps, new, now),
        update_actions(ps, new) + add_actions(ps, new) + stop_all(removed_programs(ps, new))
            + seq![reply(Reply::ConfigReloaded)],
    )
}

pub open spec fn names_of(ps: Seq<ProgramView>) -> Seq<Seq<char>> {
    ps.map_values(|p: ProgramView| p.name)
}

pub proof fn lemma_has_name_names(ps: Seq<ProgramView>, n: Seq<char>)
    ensures
        has_name(ps, n) == names_of(ps).contains(n),
{
    if has_name(ps, n) {
        let i = choose|i: int| 0 <= i < ps.len() && #[trigger] ps[i].name == n;
        assert(names_of(ps)[i] == n);
    }
    if names_of(ps).contains(n) {
        let i = choose|i: int| 0 <= i < names_of(ps).len() && names_of(ps)[i] == n;
        assert(ps[i].name == n);
    }
}

fn contains_text(v: &Vec<String>, s: &String) -> (r: bool)
    ensures
        r == crate::text::texts_view(v@).contains(s@),
{
    let ghost tv = crate::text::texts_view(v@);
    let mut i: usize = 0;
    while i < v.len()
        invariant
            i <= v.len(),
            tv == crate::text::texts_view(v@),
            forall|k: int| 0 <= k < i ==> tv[k] != s@,
        decreases v.len() - i,
    {
        if v[i] == *s {
            assert(tv[i as int] == s@);
            return true;
        }
        i = i + 1;
    }
    false
}

proof fn lemma_prefix_step<T>(s: Seq<T>, i: int)
    requires
        0 <= i < s.len(),
    ensures
        s.subrange(0, i + 1).drop_last() == s.subrange(0, i),
        s.subrange(0, i + 1).last() == s[i],
{
    assert(s.subrange(0, i + 1).drop_last() =~= s.subrange(0, i));
}

/// Applies the new configuration to the current programs (first part of a
/// reload): gives the kept programs, the removed ones and the names of all.
fn reload_updates(olds: Vec<Program>, new: &Vec<Program>, now: u64) -> (r: (
    Vec<Program>,
    Vec<Program>,
    Vec<String>,
    Vec<ExecAction>,
))
    ensures
        programs_view(r.0@) == kept_after_reload(programs_view(olds@), programs_view(new@), now),
        programs_view(r.1@) == removed_programs(programs_view(olds@), programs_view(new@)),
        crate::text::texts_view(r.2@) == names_of(programs_view(olds@)),
        actions_view(r.3@) == update_actions(programs_view(olds@), programs_view(new@)),
{
    let ghost ps = programs_view(olds@);
    let ghost nv = programs_view(new@);
    let ghost all = olds@;
    let mut rest = olds;
    let mut kept: Vec<Program> = Vec::new();
    let mut removed: Vec<Program> = Vec::new();
    let mut names: Vec<String> = Vec::new();
    let mut acts: Vec<ExecAction> = Vec::new();
    let mut i: usize = 0;
    let total = rest.len();
    while rest.len() > 0
        invariant
            i + rest.len() == all.len(),
            all.len() == total,
            ps == programs_view(all),
            nv == programs_view(new@),
            rest@ == all.subrange(i as int, all.len() as int),
            programs_view(kept@) == kept_after_reload(ps.subrange(0, i as int), nv, now),
            programs_view(removed@) == removed_programs(ps.subrange(0, i as int), nv),
            crate::text::texts_view(names@) == names_of(ps.subrange(0, i as int)),
            actions_view(acts@) == update_actions(ps.subrange(0, i as int), nv),
        decreases rest.len(),
    {
        let mut p = rest.remove(0);
        let ghost pv = p@;
        assert(pv == ps[i as int]);
        proof {
            lemma_prefix_step(ps, i as int);
            lemma_find_program(nv, pv.name);
        }
        let ghost kept0 = programs_view(kept@);
        let ghost removed0 = programs_view(removed@);
        let ghost acts0 = actions_view(acts@);
        let ghost names0 = crate::text::texts_view(names@);
        names.push(p.config.0.clone());
        assert(crate::text::texts_view(names@) =~= names0.push(pv.name));
        assert(names_of(ps.subrange(0, i + 1)) =~= names_of(ps.subrange(0, i as int)).push(pv.name));
        match find_index(new, &p.config.0) {
            None => {
                acts.push(ExecAction::Log(Notice::WillBeRemoved(p.config.0.clone())));
                removed.push(p);
                assert(programs_view(removed@) =~= removed0.push(pv));
                assert(actions_view(acts@) =~= acts0 + update_actions_of(pv, nv));
            },
            Some(j) => {
                assert(nv[j as int] == new@[j as int]@);
                if new[j].config.1.same_as(&p.config.1) {
                    kept.push(p);
                    assert(programs_view(kept@) =~= kept0.push(reloaded(pv, nv, now)));
                    assert(actions_view(acts@) =~= acts0 + update_actions_of(pv, nv));
                } else {
                    if p.childs.len() > 0 {
                        let stop = stop_children(&mut p);
                        acts.push(stop);
                    }
                    p.config.1 = new[j].config.1.duplicate();
                    p.childs = Vec::new();
                    p.retry_count = 0;
                    p.last_launch_time = now;
                    p.unexpected_error_code = false;
                    p.is_stopped_manually = false;
                    acts.push(ExecAction::Log(Notice::Updated(p.config.0.clone())));
                    if p.config.1.autostart {
                        start_prog(&mut p, now);
                        acts.push(
                            ExecAction::Spawn(
                                p.config.0.clone(),
                                p.config.1.num_processes as usize,
                                true,
                            ),
                        );
                    }
                    assert(p@ == reloaded(pv, nv, now));
                    kept.push(p);
                    assert(programs_view(kept@) =~= kept0.push(reloaded(pv, nv, now)));
                    assert(actions_view(acts@) =~= acts0 + update_actions_of(pv, nv));
                }
            },
        }
        i = i + 1;
    }
    assert(ps.subrange(0, i as int) =~= ps);
    (kept, removed, names, acts)
}

/// Adds the programs that the new configuration brings (second part of a
/// reload).
fn reload_additions(
    kept: &mut Vec<Program>,
    acts: &mut Vec<ExecAction>,
    old_names: &Vec<String>,
    new: Vec<Program>,
    ghost_old: Ghost<Seq<ProgramView>>,
    now: u64,
)
    requires
        crate::text::texts_view(old_names@) == names_of(ghost_old@),
    ensures
        programs_view(final(kept)@) == programs_view(old(kept)@) + added_programs(
            ghost_old@,
            programs_view(new@),
            now,
        ),
        actions_view(final(acts)@) == actions_view(old(acts)@) + add_actions(
            ghost_old@,
            programs_view(new@),
        ),
{
    let ghost ps = ghost_old@;
    let ghost nv = programs_view(new@);
    let ghost all = new@;
    let ghost kept_start = programs_view(kept@);
    let ghost acts_start = actions_view(acts@);
    let mut rest = new;
    let mut seen: Vec<String> = Vec::new();
    let mut j: usize = 0;
    let total = rest.len();
    while rest.len() > 0
        invariant
            j + rest.len() == all.len(),
            all.len() == total,
            nv == programs_view(all),
            rest@ == all.subrange(j as int, all.len() as int),
            crate::text::texts_view(old_names@) == names_of(ps),
            crate::text::texts_view(seen@) == names_of(nv.subrange(0, j as int)),
            programs_view(kept@) == kept_start + added_programs(ps, nv.subrange(0, j as int), now),
            actions_view(acts@) == acts_start + add_actions(ps, nv.subrange(0, j as int)),
        decreases rest.len(),
    {
        let mut q = rest.remove(0);
        let ghost qv = q@;
        let ghost pre = nv.subrange(0, j + 1);
        assert(qv == nv[j as int]);
        proof {
            lemma_prefix_step(nv, j as int);
            lemma_has_name_names(ps, qv.name);
            lemma_has_name_names(nv.subrange(0, j as int), qv.name);
        }
        let ghost kept0 = programs_view(kept@);
        let ghost acts0 = actions_view(acts@);
        let known = contains_text(old_names, &q.config.0) || contains_text(&seen, &q.config.0);
        assert(known == !adds_last(ps, pre));
        let ghost seen0 = crate::text::texts_view(seen@);
        seen.push(q.config.0.clone());
        assert(crate::text::texts_view(seen@) =~= seen0.push(qv.name));
        assert(names_of(nv.subrange(0, j + 1)) =~= names_of(nv.subrange(0, j as int)).push(qv.name));
        assert(pre.drop_last() == nv.subrange(0, j as int));
        assert(pre.last() == qv);
        if !known {
            acts.push(ExecAction::Log(Notice::NewProgram(q.config.0.clone())));
            if q.config.1.autostart {
                start_prog(&mut q, now);
                acts.push(
                    ExecAction::Spawn(q.config.0.clone(), q.config.1.num_processes as usize, true),
                );
            }
            assert(q@ == (if qv.config.autostart {
                started(qv, now)
            } else {
                qv
            }));
            assert(actions_view(acts@) =~= acts0 + (seq![log(NoticeView::NewProgram(qv.name))]
                + if qv.config.autostart {
                seq![ActionView::Spawn(qv.name, qv.config.num_processes as int, true)]
            } else {
                Seq::<ActionView>::empty()
            }));
            kept.push(q);
            assert(programs_view(kept@) =~= kept0.push(q@));
        } else {
            assert(programs_view(kept@) == kept0);
            assert(actions_view(acts@) == acts0);
        }
        assert(programs_view(kept@) =~= kept_start + added_programs(ps, pre, now));
        assert(actions_view(acts@) =~= acts_start + add_actions(ps, pre));
        j = j + 1;
    }
    assert(nv.subrange(0, j as int) =~= nv);
}

/// Stops the children of the programs that the new configuration drops (last
/// part of a reload).
fn reload_removals(acts: &mut Vec<ExecAction>, removed: Vec<Program>)
    ensures
        actions_view(final(acts)@) == actions_view(old(acts)@) + stop_all(programs_view(removed@)),
{
    let ghost rv = programs_view(removed@);
    let ghost all = removed@;
    let ghost acts_start = actions_view(acts@);
    let mut rest = removed;
    let mut k: usize = 0;
    let total = rest.len();
    while rest.len() > 0
        invariant
            k + rest.len() == all.len(),
            all.len() == total,
            rv == programs_view(all),
            rest@ == all.subrange(k as int, all.len() as int),
            actions_view(acts@) == acts_start + stop_all(rv.subrange(0, k as int)),
        decreases rest.len(),
    {
        let mut p = rest.remove(0);
        assert(p@ == rv[k as int]);
        proof { lemma_prefix_step(rv, k as int); }
        let ghost acts0 = actions_view(acts@);
        let ghost pv = p@;
        assert(rv.subrange(0, k + 1).last() == pv);
        if p.childs.len() > 0 {
            let stop = stop_children(&mut p);
            acts.push(stop);
            assert(actions_view(acts@) =~= acts0.push(stop_of(pv)));
        } else {
            assert(actions_view(acts@) == acts0);
        }
        assert(actions_view(acts@) =~= acts_start + stop_all(rv.subrange(0, k + 1)));
        k = k + 1;
    }
    assert(rv.subrange(0, k as int) =~= rv);
}

/// Handles a new configuration (see [`reload_step`]).
pub fn handle_reload(tm: &mut Taskmaster, new_config: Taskmaster, now: u64) -> (acts: Vec<
    ExecAction,
>)
    ensures
        (final(tm)@, actions_view(acts@)) == reload_step(old(tm)@, new_config@, now),
        final(tm).config_file == old(tm).config_file,
{
    let ghost ps = old(tm)@;
    let ghost nv = new_config@;
    let mut olds: Vec<Program> = Vec::new();
    std::mem::swap(&mut olds, &mut tm.programs);
    let (mut kept, removed, names, mut acts) = reload_updates(olds, &new_config.programs, now);
    let ghost kept1 = programs_view(kept@);
    let ghost acts1 = actions_view(acts@);
    reload_additions(&mut kept, &mut acts, &names, new_config.programs, Ghost(ps), now);
    reload_removals(&mut acts, removed);
    let ghost acts3 = actions_view(acts@);
    acts.push(ExecAction::Reply(Reply::ConfigReloaded));
    assert(actions_view(acts@) =~= acts3.push(reply(Reply::ConfigReloaded)));
    tm.programs = kept;
    assert(actions_view(acts@) =~= reload_step(ps, nv, now).1);
    acts
}


/// What the engine does with a message: the programs afterwards and the work
/// it leaves to its caller. Messages meant for the control shell are ignored.
pub open spec fn message_step(ps: Seq<ProgramView>, msg: ThreadMessage, now: u64) -> (
    Seq<ProgramView>,
    Seq<ActionView>,
) {
    match msg {
        ThreadMessage::Start(n) => start_step(ps, n@, now),
        ThreadMessage::SignalReceived(sig) => signal_step(ps, sig),
        ThreadMessage::Stop(n) => stop_step(ps, n@),
        ThreadMessage::Exit => exit_step(ps),
        ThreadMessage::StatusAll => status_step(ps, None),
        ThreadMessage::Status(n) => status_step(ps, Some(n@)),
        ThreadMessage::Restart(n) => restart_step(ps, n@, now),
        ThreadMessage::ReloadConfig(t) => reload_step(ps, t@, now),
        _ => (ps, Seq::empty()),
    }
}

/// Handles one message of the control shell (see [`message_step`]).
pub fn handle_message(tm: &mut Taskmaster, msg: ThreadMessage, now: u64) -> (acts: Vec<
    ExecAction,
>)
    ensures
        (final(tm)@, actions_view(acts@)) == message_step(old(tm)@, msg, now),
        final(tm).config_file == old(tm).config_file,
{
    match msg {
        ThreadMessage::Start(n) => handle_start(tm, n, now),
        ThreadMessage::SignalReceived(sig) => handle_signal(tm, sig),
        ThreadMessage::Stop(n) => handle_stop(tm, n),
        ThreadMessage::Exit => handle_exit(tm),
        ThreadMessage::StatusAll => print_status(tm, None),
        ThreadMessage::Status(n) => print_status(tm, Some(n)),
        ThreadMessage::Restart(n) => handle_restart(tm, n, now),
        ThreadMessage::ReloadConfig(t) => handle_reload(tm, t, now),
        _ => {
            let acts: Vec<ExecAction> = Vec::new();
            assert(actions_view(acts@) =~= Seq::empty());
            acts
        },
    }
}

pub open spec fn autostarted(p: ProgramView, now: u64) -> ProgramView {
    if p.config.autostart {
        started(p, now)
    } else {
        p
    }
}

pub open spec fn autostart_actions(ps: Seq<ProgramView>) -> Seq<ActionView>
    decreases ps.len(),
{
    if ps.len() == 0 {
        Seq::empty()
    } else {
        autostart_actions(ps.drop_last()) + if ps.last().config.autostart {
            seq![
                ActionView::Spawn(ps.last().name, ps.last().config.num_processes as int, true),
            ]
        } else {
            Seq::empty()
        }
    }
}

/// Launches every program that starts automatically, as the engine does when
/// it begins.
pub fn autostart_programs(tm: &mut Taskmaster, now: u64) -> (acts: Vec<ExecAction>)
    ensures
        final(tm)@ == old(tm)@.map_values(|p: ProgramView| autostarted(p, now)),
        actions_view(acts@) == autostart_actions(old(tm)@),
        final(tm).config_file == old(tm).config_file,
{
    let ghost ps = old(tm)@;
    let mut acts: Vec<ExecAction> = Vec::new();
    let mut i: usize = 0;
    while i < tm.programs.len()
        invariant
            i <= tm.programs.len(),
            tm.programs.len() == ps.len(),
            tm.config_file == old(tm).config_file,
            forall|k: int| 0 <= k < i ==> #[trigger] tm@[k] == autostarted(ps[k], now),
            forall|k: int| i <= k < ps.len() ==> #[trigger] tm@[k] == ps[k],
            actions_view(acts@) == autostart_actions(ps.subrange(0, i as int)),
        decreases ps.len() - i,
    {
        let ghost before = tm.programs@;
        let ghost acts0 = actions_view(acts@);
        assert(tm@[i as int] == tm.programs@[i as int]@);
        if tm.programs[i].config.1.autostart {
            start_prog(&mut tm.programs[i], now);
            acts.push(
                ExecAction::Spawn(
                    tm.programs[i].config.0.clone(),
                    tm.programs[i].config.1.num_processes as usize,
                    true,
                ),
            );
        }
        proof {
            lemma_update_view(before, i as int, tm.programs@[i as int]);
            assert(tm.programs@ == before.update(i as int, tm.programs@[i as int]));
            lemma_prefix_step(ps, i as int);
        }
        assert(actions_view(acts@) =~= autostart_actions(ps.subrange(0, i + 1)));
        i = i + 1;
    }
    assert(ps.subrange(0, ps.len() as int) =~= ps);
    assert(tm@ =~= ps.map_values(|p: ProgramView| autostarted(p, now)));
    acts
}

} // verus!

use taskmaster::communication::ThreadMessage;
use taskmaster::config::{Program, ProgramConfig2, Taskmaster, _Restart};
use taskmaster::engine::{autostart_programs, find_index, handle_message, ExecAction, Notice, Reply};
use taskmaster::exec::check_process_status;
use taskmaster::signals::_Signalstopper;

fn cfg(cmd: &str, n: u32) -> ProgramConfig2 {
    ProgramConfig2 {
        cmd: cmd.to_string(),
        num_processes: n,
        autostart: false,
        restart_policy: _Restart::Always,
        expected_error_codes: None,
        minimum_runtime: None,
        max_relauch_retry: 3,
        stop_signal: None,
        time_after_proper_stop: None,
        redirect: None,
        env_to_set: None,
        working_dir: None,
        umask: None,
    }
}

fn prog(name: &str, config: ProgramConfig2, childs: Vec<u32>) -> Program {
    Program {
        config: (name.to_string(), config),
        childs,
        retry_count: 0,
        last_launch_time: 0,
        unexpected_error_code: false,
        is_stopped_manually: false,
    }
}

fn tm(programs: Vec<Program>) -> Taskmaster {
    Taskmaster { programs, config_file: "conf.yaml".to_string() }
}

fn s(x: &str) -> String {
    x.to_string()
}

#[test]
fn start_unknown_program() {
    let mut t = tm(vec![prog("a", cfg("a", 1), vec![])]);
    let acts = handle_message(&mut t, ThreadMessage::Start(s("zz")), 10);
    assert_eq!(
        acts,
        vec![ExecAction::Log(Notice::NotFound(s("zz"))), ExecAction::Reply(Reply::ActionDone)]
    );
}

#[test]
fn start_idle_program_spawns_configured_count() {
    let mut t = tm(vec![prog("a", cfg("a", 3), vec![])]);
    t.programs[0].is_stopped_manually = true;
    let acts = handle_message(&mut t, ThreadMessage::Start(s("a")), 10);
    assert_eq!(
        acts,
        vec![ExecAction::Spawn(s("a"), 3, true), ExecAction::Reply(Reply::ActionDone)]
    );
    assert!(!t.programs[0].is_stopped_manually);
    assert_eq!(t.programs[0].last_launch_time, 10);
}

#[test]
fn start_running_program_changes_nothing() {
    let mut t = tm(vec![prog("a", cfg("a", 1), vec![4])]);
    let acts = handle_message(&mut t, ThreadMessage::Start(s("a")), 10);
    assert_eq!(
        acts,
        vec![ExecAction::Log(Notice::AlreadyRunning(s("a"))), ExecAction::Reply(Reply::ActionDone)]
    );
    assert_eq!(t.programs[0].childs, vec![4]);
    assert_eq!(t.programs[0].last_launch_time, 0);
}

#[test]
fn stop_running_program() {
    let mut t = tm(vec![prog("a", cfg("a", 2), vec![4, 5])]);
    let acts = handle_message(&mut t, ThreadMessage::Stop(s("a")), 10);
    assert_eq!(acts, vec![ExecAction::Stop(vec![4, 5], None, None), ExecAction::Reply(Reply::ActionDone)]);
    assert!(t.programs[0].childs.is_empty());
    assert!(t.programs[0].is_stopped_manually);
}

#[test]
fn stop_idle_program_only_answers() {
    let mut t = tm(vec![prog("a", cfg("a", 2), vec![])]);
    let acts = handle_message(&mut t, ThreadMessage::Stop(s("a")), 10);
    assert_eq!(acts, vec![ExecAction::Reply(Reply::ActionDone)]);
    assert!(!t.programs[0].is_stopped_manually);
    let acts = handle_message(&mut t, ThreadMessage::Stop(s("b")), 10);
    assert_eq!(
        acts,
        vec![ExecAction::Log(Notice::NotFound(s("b"))), ExecAction::Reply(Reply::ActionDone)]
    );
}

#[test]
fn restart_running_and_idle() {
    let mut t = tm(vec![prog("a", cfg("a", 2), vec![4, 5]), prog("b", cfg("b", 1), vec![])]);
    let acts = handle_message(&mut t, ThreadMessage::Restart(s("a")), 99);
    assert_eq!(
        acts,
        vec![
            ExecAction::Stop(vec![4, 5], None, None),
            ExecAction::Spawn(s("a"), 2, true),
            ExecAction::Reply(Reply::ActionDone)
        ]
    );
    assert!(t.programs[0].childs.is_empty());
    assert!(!t.programs[0].is_stopped_manually);
    assert_eq!(t.programs[0].last_launch_time, 99);
    let acts = handle_message(&mut t, ThreadMessage::Restart(s("b")), 99);
    assert_eq!(
        acts,
        vec![ExecAction::Log(Notice::AlreadyOff(s("b"))), ExecAction::Reply(Reply::ActionDone)]
    );
}

#[test]
fn signal_stops_matching_programs() {
    let mut a = cfg("a", 1);
    a.stop_signal = Some(_Signalstopper::SIGTERM);
    let mut b = cfg("b", 1);
    b.stop_signal = Some(_Signalstopper::SIGTERM);
    let mut c = cfg("c", 1);
    c.stop_signal = Some(_Signalstopper::SIGINT);
    let mut t = tm(vec![prog("a", a, vec![1]), prog("b", b, vec![]), prog("c", c, vec![3])]);
    let acts = handle_message(&mut t, ThreadMessage::SignalReceived(_Signalstopper::SIGTERM), 0);
    assert_eq!(
        acts,
        vec![
            ExecAction::Log(Notice::StoppingOnSignal(_Signalstopper::SIGTERM, s("a"))),
            ExecAction::Stop(vec![1], Some(_Signalstopper::SIGTERM), None),
            ExecAction::Log(Notice::StoppingOnSignal(_Signalstopper::SIGTERM, s("b"))),
            ExecAction::Reply(Reply::ActionDone)
        ]
    );
    assert!(t.programs[0].is_stopped_manually);
    assert!(!t.programs[1].is_stopped_manually);
    assert_eq!(t.programs[2].childs, vec![3]);
}

#[test]
fn exit_kills_every_child() {
    let mut t = tm(vec![prog("a", cfg("a", 2), vec![1, 2]), prog("b", cfg("b", 1), vec![3])]);
    let acts = handle_message(&mut t, ThreadMessage::Exit, 0);
    assert_eq!(
        acts,
        vec![
            ExecAction::Log(Notice::Exiting),
            ExecAction::Log(Notice::Killing(s("a"), 1)),
            ExecAction::Kill(1),
            ExecAction::Log(Notice::Killing(s("a"), 2)),
            ExecAction::Kill(2),
            ExecAction::Log(Notice::Killing(s("b"), 3)),
            ExecAction::Kill(3),
            ExecAction::Reply(Reply::ExitDone),
            ExecAction::Quit
        ]
    );
    assert_eq!(t.programs[0].childs, vec![1, 2]);
}

#[test]
fn status_of_all_and_one() {
    let mut t = tm(vec![prog("a", cfg("a", 2), vec![1, 2]), prog("b", cfg("b", 1), vec![])]);
    let acts = handle_message(&mut t, ThreadMessage::StatusAll, 0);
    assert_eq!(
        acts,
        vec![
            ExecAction::Log(Notice::Status(s("a"), vec![1, 2])),
            ExecAction::Log(Notice::Status(s("b"), vec![])),
            ExecAction::Reply(Reply::StatusDone)
        ]
    );
    let acts = handle_message(&mut t, ThreadMessage::Status(s("b")), 0);
    assert_eq!(
        acts,
        vec![ExecAction::Log(Notice::Status(s("b"), vec![])), ExecAction::Reply(Reply::StatusDone)]
    );
    let acts = handle_message(&mut t, ThreadMessage::Status(s("nope")), 0);
    assert_eq!(acts, vec![ExecAction::Reply(Reply::StatusDone)]);
}

#[test]
fn messages_for_the_shell_are_ignored() {
    let mut t = tm(vec![prog("a", cfg("a", 2), vec![1])]);
    assert!(handle_message(&mut t, ThreadMessage::Ready, 0).is_empty());
    assert!(handle_message(&mut t, ThreadMessage::ActionDone, 0).is_empty());
}

#[test]
fn reload_removes_updates_and_adds() {
    let mut t = tm(vec![
        prog("keep", cfg("k", 1), vec![1]),
        prog("gone", cfg("g", 1), vec![2]),
        prog("change", cfg("c", 1), vec![3]),
    ]);
    t.programs[0].retry_count = 2;
    let mut changed = cfg("c --new", 2);
    changed.autostart = true;
    let mut fresh = cfg("f", 1);
    fresh.autostart = true;
    let new = tm(vec![
        prog("fresh", fresh, vec![]),
        prog("change", changed, vec![]),
        prog("keep", cfg("k", 1), vec![]),
        prog("quiet", cfg("q", 1), vec![]),
    ]);
    let acts = handle_message(&mut t, ThreadMessage::ReloadConfig(new), 500);
    assert_eq!(
        acts,
        vec![
            ExecAction::Log(Notice::WillBeRemoved(s("gone"))),
            ExecAction::Stop(vec![3], None, None),
            ExecAction::Log(Notice::Updated(s("change"))),
            ExecAction::Spawn(s("change"), 2, true),
            ExecAction::Log(Notice::NewProgram(s("fresh"))),
            ExecAction::Spawn(s("fresh"), 1, true),
            ExecAction::Log(Notice::NewProgram(s("quiet"))),
            ExecAction::Stop(vec![2], None, None),
            ExecAction::Reply(Reply::ConfigReloaded)
        ]
    );
    let names: Vec<&str> = t.programs.iter().map(|p| p.config.0.as_str()).collect();
    assert_eq!(names, vec!["keep", "change", "fresh", "quiet"]);
    assert_eq!(t.programs[0].childs, vec![1]);
    assert_eq!(t.programs[0].retry_count, 2);
    assert_eq!(t.programs[1].config.1.cmd, "c --new");
    assert!(t.programs[1].childs.is_empty());
    assert_eq!(t.programs[1].last_launch_time, 500);
    assert_eq!(t.programs[2].last_launch_time, 500);
    assert_eq!(t.programs[3].last_launch_time, 0);
    assert_eq!(t.config_file, "conf.yaml");
}

#[test]
fn reload_with_same_configuration_changes_nothing() {
    let mut t = tm(vec![prog("a", cfg("a", 1), vec![1]), prog("b", cfg("b", 2), vec![2, 3])]);
    let new = tm(vec![prog("b", cfg("b", 2), vec![]), prog("a", cfg("a", 1), vec![])]);
    let acts = handle_message(&mut t, ThreadMessage::ReloadConfig(new), 500);
    assert_eq!(acts, vec![ExecAction::Reply(Reply::ConfigReloaded)]);
    assert_eq!(t.programs[0].childs, vec![1]);
    assert_eq!(t.programs[1].childs, vec![2, 3]);
}

#[test]
fn autostart_launches_flagged_programs() {
    let mut a = cfg("a", 2);
    a.autostart = true;
    let mut t = tm(vec![prog("a", a, vec![]), prog("b", cfg("b", 1), vec![])]);
    let acts = autostart_programs(&mut t, 7);
    assert_eq!(acts, vec![ExecAction::Spawn(s("a"), 2, true)]);
    assert_eq!(t.programs[0].last_launch_time, 7);
    assert_eq!(t.programs[1].last_launch_time, 0);
}

#[test]
fn find_first_program_by_name() {
    let t = tm(vec![prog("a", cfg("a", 1), vec![]), prog("b", cfg("b", 1), vec![])]);
    assert_eq!(find_index(&t.programs, &s("b")), Some(1));
    assert_eq!(find_index(&t.programs, &s("c")), None);
}

#[test]
fn stopped_program_stays_down_after_checks() {
    let mut t = tm(vec![prog("a", cfg("a", 2), vec![4, 5])]);
    handle_message(&mut t, ThreadMessage::Stop(s("a")), 10);
    let missing = check_process_status(&mut t, &vec![vec![]], 1_000_000);
    assert_eq!(missing, vec![0]);
    assert!(t.programs[0].childs.is_empty());
    assert!(t.programs[0].is_stopped_manually);
}

#[test]
fn restart_is_stop_then_start() {
    let mut t1 = tm(vec![prog("a", cfg("a", 2), vec![4, 5])]);
    let mut t2 = tm(vec![prog("a", cfg("a", 2), vec![4, 5])]);
    handle_message(&mut t1, ThreadMessage::Restart(s("a")), 30);
    handle_message(&mut t2, ThreadMessage::Stop(s("a")), 30);
    handle_message(&mut t2, ThreadMessage::Start(s("a")), 30);
    let p1 = &t1.programs[0];
    let p2 = &t2.programs[0];
    assert_eq!(p1.childs, p2.childs);
    assert_eq!(p1.is_stopped_manually, p2.is_stopped_manually);
    assert_eq!(p1.last_launch_time, p2.last_launch_time);
    assert_eq!(p1.retry_count, p2.retry_count);
}

#[test]
fn stop_uses_the_configured_signal_and_grace() {
    let mut c = cfg("a", 2);
    c.stop_signal = Some(_Signalstopper::SIGUSR1);
    c.time_after_proper_stop = Some(5);
    let mut t = tm(vec![prog("a", c, vec![8, 9])]);
    let acts = handle_message(&mut t, ThreadMessage::Stop(s("a")), 0);
    assert_eq!(
        acts,
        vec![
            ExecAction::Stop(vec![8, 9], Some(_Signalstopper::SIGUSR1), Some(5)),
            ExecAction::Reply(Reply::ActionDone)
        ]
    );
    assert!(t.programs[0].childs.is_empty());
    assert!(t.programs[0].is_stopped_manually);
}

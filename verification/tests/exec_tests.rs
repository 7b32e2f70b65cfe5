use taskmaster::config::{Program, ProgramConfig2, Taskmaster, _Restart};
use taskmaster::exec::{
    check_process_status, check_program_status, exit_is_unexpected, launch_command,
    record_spawned, should_relaunch, start_prog, stop_prog, ChildWait, ExecutableLocation,
};

fn cfg(cmd: &str, n: u32, policy: _Restart) -> ProgramConfig2 {
    ProgramConfig2 {
        cmd: cmd.to_string(),
        num_processes: n,
        autostart: false,
        restart_policy: policy,
        expected_error_codes: None,
        minimum_runtime: None,
        max_relauch_retry: 3,
        stop_signal: None,
        time_after_proper_stop: None,
        redirect: None,
        env_to_set: None,
        working_dir: None,
        umask: None,
    }
}

fn prog(name: &str, config: ProgramConfig2, childs: Vec<u32>) -> Program {
    Program {
        config: (name.to_string(), config),
        childs,
        retry_count: 0,
        last_launch_time: 0,
        unexpected_error_code: false,
        is_stopped_manually: false,
    }
}

#[test]
fn unexpected_exit_codes() {
    assert!(!exit_is_unexpected(&None, Some(0)));
    assert!(exit_is_unexpected(&None, Some(1)));
    assert!(exit_is_unexpected(&None, None));
    let list = Some(vec![0, 2]);
    assert!(!exit_is_unexpected(&list, Some(2)));
    assert!(!exit_is_unexpected(&list, Some(0)));
    assert!(exit_is_unexpected(&list, Some(1)));
    assert!(exit_is_unexpected(&list, None));
    assert!(exit_is_unexpected(&Some(vec![]), Some(0)));
}

#[test]
fn quick_failure_counts_a_retry_and_waits() {
    let mut p = prog("a", cfg("a", 2, _Restart::Always), vec![10, 11]);
    let missing = check_program_status(&mut p, &vec![ChildWait::Running, ChildWait::Exited(Some(1))], 500);
    assert_eq!(missing, 0);
    assert_eq!(p.childs, vec![10]);
    assert_eq!(p.retry_count, 1);
    assert!(p.unexpected_error_code);
    assert_eq!(p.last_launch_time, 0);
}

#[test]
fn long_run_then_exit_is_relaunched() {
    let mut p = prog("a", cfg("a", 2, _Restart::Always), vec![10, 11]);
    p.retry_count = 2;
    let missing = check_program_status(&mut p, &vec![ChildWait::Exited(Some(0)), ChildWait::Running], 5000);
    assert_eq!(missing, 1);
    assert_eq!(p.childs, vec![11]);
    assert_eq!(p.retry_count, 0);
    assert!(!p.unexpected_error_code);
    assert_eq!(p.last_launch_time, 5000);
    assert!(!p.is_stopped_manually);
}

#[test]
fn stopped_program_is_not_counted_nor_relaunched() {
    let mut p = prog("a", cfg("a", 1, _Restart::Always), vec![7]);
    p.is_stopped_manually = true;
    let missing = check_program_status(&mut p, &vec![ChildWait::Exited(None)], 10_000);
    assert_eq!(missing, 0);
    assert!(p.childs.is_empty());
    assert_eq!(p.retry_count, 0);
    assert!(!p.unexpected_error_code);
}

#[test]
fn never_policy_does_not_relaunch() {
    let mut p = prog("a", cfg("a", 1, _Restart::Never), vec![7]);
    let missing = check_program_status(&mut p, &vec![ChildWait::Exited(Some(3))], 10_000);
    assert_eq!(missing, 0);
    assert!(p.childs.is_empty());
    assert!(p.unexpected_error_code);
}

#[test]
fn unexpected_exits_policy() {
    let mut c = cfg("a", 1, _Restart::UnexpectedExits);
    c.expected_error_codes = Some(vec![0, 2]);
    let mut p = prog("a", c.clone(), vec![7]);
    assert_eq!(check_program_status(&mut p, &vec![ChildWait::Exited(Some(2))], 10_000), 0);
    assert!(!p.unexpected_error_code);
    let mut q = prog("b", c, vec![8]);
    assert_eq!(check_program_status(&mut q, &vec![ChildWait::Exited(Some(3))], 10_000), 1);
    assert!(!q.unexpected_error_code);
    assert_eq!(q.last_launch_time, 10_000);
}

#[test]
fn retries_run_out() {
    let mut p = prog("a", cfg("a", 1, _Restart::Always), vec![7]);
    p.retry_count = 2;
    p.last_launch_time = 1000;
    // quick failure: third retry
    assert_eq!(check_program_status(&mut p, &vec![ChildWait::Exited(Some(1))], 1500), 0);
    assert_eq!(p.retry_count, 3);
    // later, no more retries left
    assert_eq!(check_program_status(&mut p, &vec![], 100_000), 0);
}

#[test]
fn failed_wait_drops_the_child_silently() {
    let mut p = prog("a", cfg("a", 1, _Restart::Never), vec![7, 8]);
    assert_eq!(check_program_status(&mut p, &vec![ChildWait::WaitFailed, ChildWait::Running], 100), 0);
    assert_eq!(p.childs, vec![8]);
    assert_eq!(p.retry_count, 0);
    assert!(!p.unexpected_error_code);
}

#[test]
fn minimum_runtime_is_configurable() {
    let mut c = cfg("a", 1, _Restart::Always);
    c.minimum_runtime = Some(10);
    let mut p = prog("a", c, vec![1]);
    // ran 5 s < 10 s: counts as a quick failure, and too early to relaunch
    assert_eq!(check_program_status(&mut p, &vec![ChildWait::Exited(Some(1))], 5_999), 0);
    assert_eq!(p.retry_count, 1);
    assert_eq!(check_program_status(&mut p, &vec![], 10_000), 1);
}

#[test]
fn relaunch_decision() {
    let mut p = prog("a", cfg("a", 1, _Restart::UnexpectedExits), vec![]);
    assert!(!should_relaunch(&mut p, 5000));
    p.unexpected_error_code = true;
    assert!(!should_relaunch(&mut p, 999));
    assert!(should_relaunch(&mut p, 5000));
    assert!(!p.unexpected_error_code);
}

#[test]
fn start_record_stop() {
    let mut p = prog("a", cfg("a", 2, _Restart::Always), vec![]);
    p.is_stopped_manually = true;
    start_prog(&mut p, 77);
    assert!(!p.is_stopped_manually);
    assert_eq!(p.last_launch_time, 77);
    record_spawned(&mut p, vec![5, 6]);
    record_spawned(&mut p, vec![9]);
    assert_eq!(p.childs, vec![5, 6, 9]);
    let pids = stop_prog(&mut p);
    assert_eq!(pids, vec![5, 6, 9]);
    assert!(p.childs.is_empty());
    assert!(p.is_stopped_manually);
}

#[test]
fn check_all_programs() {
    let mut tm = Taskmaster {
        programs: vec![
            prog("a", cfg("a", 1, _Restart::Always), vec![1]),
            prog("b", cfg("b", 1, _Restart::Never), vec![2]),
        ],
        config_file: "c".to_string(),
    };
    let missing = check_process_status(
        &mut tm,
        &vec![vec![ChildWait::Exited(Some(0))], vec![ChildWait::Running]],
        60_000,
    );
    assert_eq!(missing, vec![1, 0]);
    assert!(tm.programs[0].childs.is_empty());
    assert_eq!(tm.programs[1].childs, vec![2]);
}

#[test]
fn launch_commands() {
    let l = launch_command(&cfg("/bin/ls -la  /tmp", 1, _Restart::Always)).unwrap();
    assert_eq!(l.program, "/bin/ls");
    assert_eq!(l.args, vec!["-la", "/tmp"]);
    assert_eq!(l.location, ExecutableLocation::Absolute);
    let l = launch_command(&cfg("sleep 10", 1, _Restart::Always)).unwrap();
    assert_eq!(l.program, "sleep");
    assert_eq!(l.location, ExecutableLocation::SearchPath);
    let l = launch_command(&cfg("./scripts/run.sh", 1, _Restart::Always)).unwrap();
    assert_eq!(l.location, ExecutableLocation::RelativeToWorkingDir);
    assert!(l.args.is_empty());
    assert!(launch_command(&cfg("   ", 1, _Restart::Always)).is_none());
}

use taskmaster::config::{
    build_taskmaster, config_path, is_config_valid, Program, ProgramConfig2, ProgramsConfig,
    Redirect, Taskmaster, _Restart,
};
use taskmaster::errors::TaskmasterError;
use taskmaster::signals::_Signalstopper;

fn cfg(cmd: &str) -> ProgramConfig2 {
    ProgramConfig2 {
        cmd: cmd.to_string(),
        num_processes: 1,
        autostart: false,
        restart_policy: _Restart::Always,
        expected_error_codes: None,
        minimum_runtime: None,
        max_relauch_retry: 3,
        stop_signal: None,
        time_after_proper_stop: None,
        redirect: None,
        env_to_set: None,
        working_dir: None,
        umask: None,
    }
}

fn prog(name: &str, config: ProgramConfig2) -> Program {
    Program {
        config: (name.to_string(), config),
        childs: vec![],
        retry_count: 0,
        last_launch_time: 0,
        unexpected_error_code: false,
        is_stopped_manually: false,
    }
}

#[test]
fn config_path_default_and_given() {
    assert_eq!(config_path(&vec!["taskmaster".to_string()]), Ok("config.yaml".to_string()));
    assert_eq!(
        config_path(&vec!["taskmaster".to_string(), "my.yaml".to_string()]),
        Ok("my.yaml".to_string())
    );
}

#[test]
fn config_path_too_many_arguments() {
    let args = vec!["t".to_string(), "a".to_string(), "b".to_string()];
    assert_eq!(
        config_path(&args),
        Err(TaskmasterError::Argument("Too many arguments provided".to_string()))
    );
    assert!(config_path(&vec![]).is_err());
}

#[test]
fn sighup_is_refused_naming_the_first_program() {
    let mut a = cfg("a");
    a.stop_signal = Some(_Signalstopper::SIGTERM);
    let mut b = cfg("b");
    b.stop_signal = Some(_Signalstopper::SIGHUP);
    let mut c = cfg("c");
    c.stop_signal = Some(_Signalstopper::SIGHUP);
    let tm = Taskmaster {
        programs: vec![prog("a", a), prog("b", b), prog("c", c)],
        config_file: "x".to_string(),
    };
    assert_eq!(
        is_config_valid(&tm),
        Err(TaskmasterError::InvalidParam(
            "Invalid signal for program b. SIGHUP is reserved for configuration reload."
                .to_string()
        ))
    );
}

#[test]
fn config_without_sighup_is_valid() {
    let mut a = cfg("a");
    a.stop_signal = Some(_Signalstopper::SIGINT);
    let tm = Taskmaster {
        programs: vec![prog("a", a), prog("b", cfg("b"))],
        config_file: "x".to_string(),
    };
    assert_eq!(is_config_valid(&tm), Ok(()));
    let empty = Taskmaster { programs: vec![], config_file: "x".to_string() };
    assert_eq!(is_config_valid(&empty), Ok(()));
}

#[test]
fn build_keeps_order_and_starts_fresh() {
    let mut config = ProgramsConfig::new();
    config.insert("web".to_string(), cfg("nginx"));
    config.insert("db".to_string(), cfg("pg"));
    let tm = build_taskmaster(config, "conf.yaml".to_string(), 42).unwrap();
    assert_eq!(tm.config_file, "conf.yaml");
    assert_eq!(tm.programs.len(), 2);
    assert_eq!(tm.programs[0].config.0, "web");
    assert_eq!(tm.programs[1].config.0, "db");
    assert_eq!(tm.programs[1].config.1.cmd, "pg");
    for p in &tm.programs {
        assert!(p.childs.is_empty());
        assert_eq!(p.retry_count, 0);
        assert_eq!(p.last_launch_time, 42);
        assert!(!p.unexpected_error_code);
        assert!(!p.is_stopped_manually);
    }
}

#[test]
fn build_refuses_sighup() {
    let mut bad = cfg("x");
    bad.stop_signal = Some(_Signalstopper::SIGHUP);
    let mut config = ProgramsConfig::new();
    config.insert("ok".to_string(), cfg("y"));
    config.insert("bad".to_string(), bad);
    match build_taskmaster(config, "c".to_string(), 0) {
        Err(TaskmasterError::InvalidParam(m)) => {
            assert_eq!(m, "Invalid signal for program bad. SIGHUP is reserved for configuration reload.")
        }
        other => panic!("unexpected {:?}", other),
    }
}

#[test]
fn configs_compare_field_by_field() {
    let a = cfg("run");
    let mut b = a.duplicate();
    assert!(a.same_as(&b));
    assert_eq!(a, b);
    b.env_to_set = Some(vec![("K".to_string(), "V".to_string())]);
    assert!(!a.same_as(&b));
    let c = b.duplicate();
    assert!(b.same_as(&c));
    let mut d = c.duplicate();
    d.env_to_set = Some(vec![("K".to_string(), "W".to_string())]);
    assert!(!c.same_as(&d));
    let mut e = a.duplicate();
    e.expected_error_codes = Some(vec![0, 2]);
    assert!(!a.same_as(&e));
    let mut f = e.duplicate();
    assert!(e.same_as(&f));
    f.expected_error_codes = Some(vec![0, 3]);
    assert!(!e.same_as(&f));
    let mut g = a.duplicate();
    g.redirect = Some(Redirect { stdout: "o".to_string(), stderr: "e".to_string() });
    assert!(!a.same_as(&g));
    assert!(g.same_as(&g.duplicate()));
    let mut h = a.duplicate();
    h.working_dir = Some("/tmp".to_string());
    assert!(!a.same_as(&h));
    let mut i = a.duplicate();
    i.umask = Some(18);
    assert!(!a.same_as(&i));
    let mut j = a.duplicate();
    j.num_processes = 2;
    assert!(!a.same_as(&j));
}

#[test]
fn programs_config_binds_each_name_once() {
    let mut config = ProgramsConfig::new();
    config.insert("web".to_string(), cfg("nginx"));
    config.insert("db".to_string(), cfg("pg"));
    config.insert("web".to_string(), cfg("apache"));
    let entries = config.into_entries();
    assert_eq!(entries.len(), 2);
    assert_eq!(entries[0].0, "web");
    assert_eq!(entries[0].1.cmd, "apache");
    assert_eq!(entries[1].0, "db");
    assert_eq!(entries[1].1.cmd, "pg");
    assert!(ProgramsConfig::new().into_entries().is_empty());
}

#[test]
fn environments_compare_as_maps() {
    let mut a = cfg("run");
    let mut b = cfg("run");
    a.env_to_set = Some(vec![("A".to_string(), "1".to_string()), ("B".to_string(), "2".to_string())]);
    b.env_to_set = Some(vec![("B".to_string(), "2".to_string()), ("A".to_string(), "1".to_string())]);
    assert!(a.same_as(&b));
    b.env_to_set = Some(vec![
        ("A".to_string(), "0".to_string()),
        ("B".to_string(), "2".to_string()),
        ("A".to_string(), "1".to_string()),
    ]);
    assert!(a.same_as(&b));
    b.env_to_set = Some(vec![("A".to_string(), "1".to_string()), ("A".to_string(), "0".to_string()), ("B".to_string(), "2".to_string())]);
    assert!(!a.same_as(&b));
    b.env_to_set = Some(vec![("A".to_string(), "1".to_string())]);
    assert!(!a.same_as(&b));
    b.env_to_set = None;
    assert!(!a.same_as(&b));
    let c = a.duplicate();
    assert!(c.same_as(&a));
}

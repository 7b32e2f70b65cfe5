use taskmaster::engine::Notice;
use taskmaster::exec::stop_deadline;
use taskmaster::logger::{push_decimal, Level};
use taskmaster::signals::_Signalstopper;

fn s(x: &str) -> String {
    x.to_string()
}

#[test]
fn status_notice_text() {
    assert_eq!(Notice::Status(s("web"), vec![]).text(), "[STATUS] web is off");
    assert_eq!(Notice::Status(s("web"), vec![42]).text(), "[STATUS] web is alive (PIDs: [42])");
    assert_eq!(
        Notice::Status(s("web"), vec![7, 1200, 0]).text(),
        format!("[STATUS] web is alive (PIDs: {:?})", vec![7u32, 1200, 0])
    );
    assert_eq!(Notice::Status(s("web"), vec![1]).level(), Level::Info);
}

#[test]
fn other_notice_texts_and_levels() {
    assert_eq!(Notice::AlreadyRunning(s("a")).text(), "Program : 'a' already running.");
    assert_eq!(Notice::NotFound(s("a")).text(), "Program 'a' not found.");
    assert_eq!(Notice::NotFound(s("a")).level(), Level::Error);
    assert_eq!(Notice::AlreadyOff(s("a")).text(), "Program : 'a' already off.");
    assert_eq!(
        Notice::StoppingOnSignal(_Signalstopper::SIGTERM, s("a")).text(),
        "Signal SIGTERM corresponding to 'a''s config. Stoping it properly..."
    );
    assert_eq!(Notice::Exiting.text(), "exiting...");
    assert_eq!(Notice::Killing(s("a"), 4294967295).text(), "Killing a with pid 4294967295");
    assert_eq!(Notice::Killing(s("a"), 3).level(), Level::Debug);
    assert_eq!(Notice::WillBeRemoved(s("a")).text(), "a will be removed.");
    assert_eq!(Notice::Updated(s("a")).text(), "a updated.");
    assert_eq!(Notice::NewProgram(s("a")).text(), "New program in config a");
    assert_eq!(Notice::Exiting.level(), Level::Info);
}

#[test]
fn decimal_text() {
    for n in [0u64, 9, 10, 99, 100, 12345, u64::MAX] {
        assert_eq!(push_decimal(s("x"), n), format!("x{}", n));
    }
}

#[test]
fn signal_names_and_numbers() {
    assert_eq!(_Signalstopper::SIGTERM.name(), "SIGTERM");
    assert_eq!(_Signalstopper::SIGTERM.number(), 15);
    assert_eq!(_Signalstopper::SIGPOLL.number(), 29);
    for n in 1..=31 {
        let sig = _Signalstopper::from_i32(n).unwrap();
        assert_eq!(sig.number(), n);
        assert_eq!(sig.name(), format!("{:?}", sig));
    }
}

#[test]
fn stop_deadline_adds_grace_in_ms() {
    assert_eq!(stop_deadline(1000, None), 1000);
    assert_eq!(stop_deadline(1000, Some(0)), 1000);
    assert_eq!(stop_deadline(1000, Some(3)), 4000);
    assert_eq!(stop_deadline(u64::MAX - 10, Some(1)), u64::MAX);
    assert_eq!(stop_deadline(0, Some(u64::MAX)), u64::MAX);
}

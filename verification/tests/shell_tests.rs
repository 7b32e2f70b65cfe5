use taskmaster::communication::ThreadMessage;
use taskmaster::logger::{format_line, Level, Logger};
use taskmaster::shell::{
    command_messages, exec_ready, handle_response, parse_command, process_signals, read_outcome,
    reload_outcome, Command, LineRead, RecvFailure, ReloadOutcome, ShellNotice, ThreadShoudQuit,
};
use taskmaster::signals::_Signalstopper;

fn names(v: &[&str]) -> Vec<String> {
    v.iter().map(|x| x.to_string()).collect()
}

#[test]
fn commands_are_read_from_words() {
    assert_eq!(parse_command("start a b"), Command::Start(names(&["a", "b"])));
    assert_eq!(parse_command("  stop   web "), Command::Stop(names(&["web"])));
    assert_eq!(parse_command("restart x"), Command::Restart(names(&["x"])));
    assert_eq!(parse_command("exit"), Command::Exit);
    assert_eq!(parse_command("status"), Command::StatusAll);
    assert_eq!(parse_command("status a b"), Command::Status(names(&["a", "b"])));
    assert_eq!(parse_command("clear"), Command::Clear);
    assert_eq!(parse_command(" reload "), Command::Reload);
    assert_eq!(parse_command("start"), Command::Start(vec![]));
}

#[test]
fn other_lines_are_invalid_or_empty() {
    assert_eq!(parse_command("exit now"), Command::Invalid);
    assert_eq!(parse_command("clear all"), Command::Invalid);
    assert_eq!(parse_command("reload now"), Command::Invalid);
    assert_eq!(parse_command("launch a"), Command::Invalid);
    assert_eq!(parse_command("START a"), Command::Invalid);
    assert_eq!(parse_command(""), Command::Empty);
    assert_eq!(parse_command(" \t "), Command::Empty);
}

#[test]
fn one_request_per_program() {
    let msgs = command_messages(&parse_command("start a b"));
    assert_eq!(msgs.len(), 2);
    assert!(matches!(&msgs[0], ThreadMessage::Start(n) if n == "a"));
    assert!(matches!(&msgs[1], ThreadMessage::Start(n) if n == "b"));
    let msgs = command_messages(&parse_command("status"));
    assert!(matches!(msgs.as_slice(), [ThreadMessage::StatusAll]));
    let msgs = command_messages(&parse_command("status x"));
    assert!(matches!(msgs.as_slice(), [ThreadMessage::Status(n)] if n == "x"));
    let msgs = command_messages(&parse_command("exit"));
    assert!(matches!(msgs.as_slice(), [ThreadMessage::Exit]));
    let msgs = command_messages(&parse_command("restart r"));
    assert!(matches!(msgs.as_slice(), [ThreadMessage::Restart(n)] if n == "r"));
    let msgs = command_messages(&parse_command("stop s"));
    assert!(matches!(msgs.as_slice(), [ThreadMessage::Stop(n)] if n == "s"));
    assert!(command_messages(&Command::Clear).is_empty());
    assert!(command_messages(&Command::Reload).is_empty());
    assert!(command_messages(&Command::Invalid).is_empty());
}

#[test]
fn responses() {
    let start = ThreadMessage::Start("a".to_string());
    assert_eq!(
        handle_response(&start, &Ok(ThreadMessage::ActionDone)),
        (ThreadShoudQuit::No, Some(ShellNotice::Done))
    );
    assert_eq!(
        handle_response(&start, &Ok(ThreadMessage::ExitDone)),
        (ThreadShoudQuit::No, Some(ShellNotice::ExecExited))
    );
    assert_eq!(handle_response(&start, &Ok(ThreadMessage::StatusDone)), (ThreadShoudQuit::No, None));
    assert_eq!(
        handle_response(&start, &Err(RecvFailure::Timeout)),
        (ThreadShoudQuit::No, Some(ShellNotice::NoAnswerTimeout))
    );
    assert_eq!(
        handle_response(&start, &Err(RecvFailure::Disconnected)),
        (ThreadShoudQuit::Yes, Some(ShellNotice::NoAnswerDisconnected))
    );
    assert_eq!(
        handle_response(&ThreadMessage::Exit, &Err(RecvFailure::Disconnected)),
        (ThreadShoudQuit::No, None)
    );
}

#[test]
fn readiness() {
    assert!(exec_ready(&Ok(ThreadMessage::ExecReady)));
    assert!(!exec_ready(&Ok(ThreadMessage::ActionDone)));
    assert!(!exec_ready(&Err(RecvFailure::Timeout)));
}

#[test]
fn signal_decisions() {
    let d = process_signals(true, 0);
    assert!(d.reload);
    assert_eq!(d.forward, None);
    let d = process_signals(false, 15);
    assert!(!d.reload);
    assert_eq!(d.forward, Some(_Signalstopper::SIGTERM));
    assert_eq!(process_signals(false, 64).forward, None);
}

#[test]
fn reload_answers() {
    assert_eq!(reload_outcome(Ok(ThreadMessage::ConfigReloaded)), ReloadOutcome::Updated);
    assert_eq!(
        reload_outcome(Ok(ThreadMessage::ConfigReloadError("bad".to_string()))),
        ReloadOutcome::Failed("bad".to_string())
    );
    assert_eq!(reload_outcome(Err(RecvFailure::Timeout)), ReloadOutcome::Silent);
    assert_eq!(reload_outcome(Ok(ThreadMessage::ActionDone)), ReloadOutcome::Silent);
}

#[test]
fn log_line_format() {
    // 3725 s after midnight UTC is 01:02:05 UTC, shown one hour ahead
    assert_eq!(
        format_line(Level::Info, "hello", 86400 * 3 + 3725),
        "\x1b[90m[02:02:05]\x1b[0m \x1b[32m[Info]\x1b[0m - hello"
    );
    assert_eq!(
        format_line(Level::Critical, "x", 23 * 3600 + 59 * 60 + 59),
        "\x1b[90m[00:59:59]\x1b[0m \x1b[1;31m[Critical]\x1b[0m - x"
    );
}

#[test]
fn default_logger_writes_every_level() {
    let l = Logger::new();
    assert_eq!(l.debug("d", 0), Some("\x1b[90m[01:00:00]\x1b[0m \x1b[34m[Debug]\x1b[0m - d".to_string()));
    assert!(l.info("i", 0).is_some());
    assert_eq!(l.error("e", 0), Some(format_line(Level::Error, "e", 0)));
    assert!(l.critical("c", 0).is_some());
    assert_eq!(l.log(Level::Info, "m", 60), Some(format_line(Level::Info, "m", 60)));
}

#[test]
fn level_order() {
    assert!(Level::Debug.rank() < Level::Info.rank());
    assert!(Level::Info.rank() < Level::Error.rank());
    assert!(Level::Error.rank() < Level::Critical.rank());
}

#[test]
fn typed_lines_are_trimmed_and_remembered() {
    assert_eq!(
        read_outcome(LineRead::Line("  start web \t".to_string())),
        (Some("start web".to_string()), true)
    );
    assert_eq!(read_outcome(LineRead::Line("status".to_string())), (Some("status".to_string()), true));
    assert_eq!(read_outcome(LineRead::Line(" \u{3000}\n".to_string())), (Some(String::new()), false));
    assert_eq!(read_outcome(LineRead::Line(String::new())), (Some(String::new()), false));
}

#[test]
fn interrupt_and_end_of_input_exit() {
    assert_eq!(read_outcome(LineRead::Interrupted), (Some("exit".to_string()), false));
    assert_eq!(read_outcome(LineRead::Eof), (Some("exit".to_string()), false));
    assert_eq!(read_outcome(LineRead::Failed), (None, false));
}

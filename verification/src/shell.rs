use vstd::prelude::*;
use vstd::string::*;

use crate::communication::ThreadMessage;
use crate::signals::{is_alias, signal_number, _Signalstopper};
use crate::text::{split_whitespace, texts_view, trim, trimmed, words};

verus! {

/// A command typed at the control shell.
#[derive(Debug, PartialEq, Eq)]
pub enum Command {
    /// `start <name>...`
    Start(Vec<String>),
    /// `stop <name>...`
    Stop(Vec<String>),
    /// `restart <name>...`
    Restart(Vec<String>),
    /// `exit`
    Exit,
    /// `status`
    StatusAll,
    /// `status <name>...`
    Status(Vec<String>),
    /// `reload`: read the configuration file again
    Reload,
    /// `clear`
    Clear,
    /// anything else that is not blank
    Invalid,
    /// a blank line
    Empty,
}

pub enum CommandView {
    Start(Seq<Seq<char>>),
    Stop(Seq<Seq<char>>),
    Restart(Seq<Seq<char>>),
    Exit,
    StatusAll,
    Status(Seq<Seq<char>>),
    Reload,
    Clear,
    Invalid,
    Empty,
}

impl View for Command {
    type V = CommandView;

    open spec fn view(&self) -> CommandView {
        match self {
            Command::Start(v) => CommandView::Start(texts_view(v@)),
            Command::Stop(v) => CommandView::Stop(texts_view(v@)),
            Command::Restart(v) => CommandView::Restart(texts_view(v@)),
            Command::Exit => CommandView::Exit,
            Command::StatusAll => CommandView::StatusAll,
            Command::Status(v) => CommandView::Status(texts_view(v@)),
            Command::Reload => CommandView::Reload,
            Command::Clear => CommandView::Clear,
            Command::Invalid => CommandView::Invalid,
            Command::Empty => CommandView::Empty,
        }
    }
}

/// The command that a line's words make: the first word names it, the others
/// are the programs it applies to; `exit`, `reload`, `clear` and a bare
/// `status` take none.
pub open spec fn command_of(w: Seq<Seq<char>>) -> CommandView {
    if w.len() == 0 {
        CommandView::Empty
    } else if w[0] == "start"@ {
        CommandView::Start(w.drop_first())
    } else if w[0] == "stop"@ {
        CommandView::Stop(w.drop_first())
    } else if w[0] == "exit"@ && w.len() == 1 {
        CommandView::Exit
    } else if w[0] == "restart"@ {
        CommandView::Restart(w.drop_first())
    } else if w[0] == "status"@ && w.len() == 1 {
        CommandView::StatusAll
    } else if w[0] == "status"@ {
        CommandView::Status(w.drop_first())
    } else if w[0] == "reload"@ && w.len() == 1 {
        CommandView::Reload
    } else if w[0] == "clear"@ && w.len() == 1 {
        CommandView::Clear
    } else {
        CommandView::Invalid
    }
}

/// Reads a line typed at the control shell.
pub fn parse_command(line: &str) -> (c: Command)
    ensures
        c@ == command_of(words(line@)),
{
    let mut w = split_whitespace(line);
    if w.len() == 0 {
        return Command::Empty;
    }
    proof {
        reveal_strlit("start");
        reveal_strlit("stop");
        reveal_strlit("exit");
        reveal_strlit("restart");
        reveal_strlit("status");
        reveal_strlit("reload");
        reveal_strlit("clear");
    }
    let ghost all = texts_view(w@);
    let n = w.len();
    let head = w.remove(0);
    assert(texts_view(w@) =~= all.drop_first());
    assert(head@ == all[0]);
    if head == String::from_str("start") {
        Command::Start(w)
    } else if head == String::from_str("stop") {
        Command::Stop(w)
    } else if head == String::from_str("exit") && n == 1 {
        Command::Exit
    } else if head == String::from_str("restart") {
        Command::Restart(w)
    } else if head == String::from_str("status") && n == 1 {
        Command::StatusAll
    } else if head == String::from_str("status") {
        Command::Status(w)
    } else if head == String::from_str("reload") && n == 1 {
        Command::Reload
    } else if head == String::from_str("clear") && n == 1 {
        Command::Clear
    } else {
        Command::Invalid
    }
}

/// A request of the control shell to the execution engine.
pub enum RequestView {
    Start(Seq<char>),
    Stop(Seq<char>),
    Restart(Seq<char>),
    Exit,
    StatusAll,
    Status(Seq<char>),
    Other,
}

pub open spec fn request_view(m: ThreadMessage) -> RequestView {
    match m {
        ThreadMessage::Start(n) => RequestView::Start(n@),
        ThreadMessage::Stop(n) => RequestView::Stop(n@),
        ThreadMessage::Restart(n) => RequestView::Restart(n@),
        ThreadMessage::Exit => RequestView::Exit,
        ThreadMessage::StatusAll => RequestView::StatusAll,
        ThreadMessage::Status(n) => RequestView::Status(n@),
        _ => RequestView::Other,
    }
}

pub open spec fn requests_view(v: Seq<ThreadMessage>) -> Seq<RequestView> {
    v.map_values(|m: ThreadMessage| request_view(m))
}

/// The requests that a command sends, in order: one per named program, one
/// for `exit` and a bare `status`, none for the rest (a `reload` sends the
/// configuration once it has been read again, see [`reload_outcome`]).
pub open spec fn requests_of(c: CommandView) -> Seq<RequestView> {
    match c {
        CommandView::Start(ns) => ns.map_values(|n: Seq<char>| RequestView::Start(n)),
        CommandView::Stop(ns) => ns.map_values(|n: Seq<char>| RequestView::Stop(n)),
        CommandView::Restart(ns) => ns.map_values(|n: Seq<char>| RequestView::Restart(n)),
        CommandView::Exit => seq![RequestView::Exit],
        CommandView::StatusAll => seq![RequestView::StatusAll],
        CommandView::Status(ns) => ns.map_values(|n: Seq<char>| RequestView::Status(n)),
        _ => Seq::empty(),
    }
}

/// Which request a command sends for each program name.
#[derive(Clone, Copy, PartialEq, Eq, Structural)]
enum RequestKind {
    Start,
    Stop,
    Restart,
    Status,
}

spec fn named_request(k: RequestKind, n: Seq<char>) -> RequestView {
    match k {
        RequestKind::Start => RequestView::Start(n),
        RequestKind::Stop => RequestView::Stop(n),
        RequestKind::Restart => RequestView::Restart(n),
        RequestKind::Status => RequestView::Status(n),
    }
}

fn requests_for(kind: RequestKind, names: &Vec<String>) -> (r: Vec<ThreadMessage>)
    ensures
        requests_view(r@) == texts_view(names@).map_values(|n: Seq<char>| named_request(kind, n)),
{
    let ghost target = texts_view(names@).map_values(|n: Seq<char>| named_request(kind, n));
    let mut r: Vec<ThreadMessage> = Vec::new();
    let mut i: usize = 0;
    while i < names.len()
        invariant
            i <= names.len(),
            target == texts_view(names@).map_values(|n: Seq<char>| named_request(kind, n)),
            requests_view(r@) == target.subrange(0, i as int),
        decreases names.len() - i,
    {
        let n = names[i].clone();
        let m = match kind {
            RequestKind::Start => ThreadMessage::Start(n),
            RequestKind::Stop => ThreadMessage::Stop(n),
            RequestKind::Restart => ThreadMessage::Restart(n),
            RequestKind::Status => ThreadMessage::Status(n),
        };
        let ghost before = requests_view(r@);
        r.push(m);
        assert(requests_view(r@) =~= before.push(named_request(kind, names@[i as int]@)));
        assert(requests_view(r@) =~= target.subrange(0, i + 1));
        i = i + 1;
    }
    assert(target.subrange(0, i as int) =~= target);
    r
}

/// The requests that a command sends to the execution engine.
pub fn command_messages(cmd: &Command) -> (r: Vec<ThreadMessage>)
    ensures
        requests_view(r@) == requests_of(cmd@),
{
    match cmd {
        Command::Start(ns) => {
            let r = requests_for(RequestKind::Start, ns);
            assert(requests_view(r@) =~= requests_of(cmd@));
            r
        },
        Command::Stop(ns) => {
            let r = requests_for(RequestKind::Stop, ns);
            assert(requests_view(r@) =~= requests_of(cmd@));
            r
        },
        Command::Restart(ns) => {
            let r = requests_for(RequestKind::Restart, ns);
            assert(requests_view(r@) =~= requests_of(cmd@));
            r
        },
        Command::Status(ns) => {
            let r = requests_for(RequestKind::Status, ns);
            assert(requests_view(r@) =~= requests_of(cmd@));
            r
        },
        Command::Exit => {
            let mut r: Vec<ThreadMessage> = Vec::new();
            r.push(ThreadMessage::Exit);
            assert(requests_view(r@) =~= requests_of(cmd@));
            r
        },
        Command::StatusAll => {
            let mut r: Vec<ThreadMessage> = Vec::new();
            r.push(ThreadMessage::StatusAll);
            assert(requests_view(r@) =~= requests_of(cmd@));
            r
        },
        _ => {
            let r: Vec<ThreadMessage> = Vec::new();
            assert(requests_view(r@) =~= requests_of(cmd@));
            r
        },
    }
}

/// Why no answer came from the execution engine.
#[derive(Debug, Clone, Copy, PartialEq, Eq, Structural)]
pub enum RecvFailure {
    Timeout,
    Disconnected,
}

/// Whether the control shell goes on after an answer.
#[derive(Debug, Clone, Copy, PartialEq, Eq, Structural)]
pub enum ThreadShoudQuit {
    Yes,
    No,
}

/// What the control shell reports about an answer of the execution engine.
#[derive(Debug, Clone, Copy, PartialEq, Eq, Structural)]
pub enum ShellNotice {
    /// "Done."
    Done,
    /// the engine has exited
    ExecExited,
    /// no answer in time to the request
    NoAnswerTimeout,
    /// no answer: the engine is gone
    NoAnswerDisconnected,
}

/// The control shell's reading of the answer to a request: a lost engine ends
/// the shell, except after an exit request.
pub fn handle_response(request: &ThreadMessage, response: &Result<ThreadMessage, RecvFailure>) -> (r:
    (ThreadShoudQuit, Option<ShellNotice>))
    ensures
        r == match response {
            Ok(ThreadMessage::ActionDone) => (ThreadShoudQuit::No, Some(ShellNotice::Done)),
            Ok(ThreadMessage::ExitDone) => (ThreadShoudQuit::No, Some(ShellNotice::ExecExited)),
            Err(RecvFailure::Timeout) => (ThreadShoudQuit::No, Some(ShellNotice::NoAnswerTimeout)),
            Err(RecvFailure::Disconnected) => if request is Exit {
                (ThreadShoudQuit::No, None)
            } else {
                (ThreadShoudQuit::Yes, Some(ShellNotice::NoAnswerDisconnected))
            },
            _ => (ThreadShoudQuit::No, None),
        },
{
    match response {
        Ok(ThreadMessage::ActionDone) => (ThreadShoudQuit::No, Some(ShellNotice::Done)),
        Ok(ThreadMessage::ExitDone) => (ThreadShoudQuit::No, Some(ShellNotice::ExecExited)),
        Err(RecvFailure::Timeout) => (ThreadShoudQuit::No, Some(ShellNotice::NoAnswerTimeout)),
        Err(RecvFailure::Disconnected) => match request {
            ThreadMessage::Exit => (ThreadShoudQuit::No, None),
            _ => (ThreadShoudQuit::Yes, Some(ShellNotice::NoAnswerDisconnected)),
        },
        _ => (ThreadShoudQuit::No, None),
    }
}

/// The execution engine is ready when it answered `ExecReady`.
pub fn exec_ready(received: &Result<ThreadMessage, RecvFailure>) -> (r: bool)
    ensures
        r == (received matches Ok(ThreadMessage::ExecReady)),
{
    match received {
        Ok(ThreadMessage::ExecReady) => true,
        _ => false,
    }
}

/// What the control shell does about the signals it caught.
#[derive(Debug, Clone, Copy, PartialEq, Eq, Structural)]
pub struct SignalDecision {
    /// reload the configuration (a `SIGHUP` was caught)
    pub reload: bool,
    /// the signal to forward to the execution engine
    pub forward: Option<_Signalstopper>,
}

/// Decides on the caught signals: `SIGHUP` asks for a reload; another signal
/// (`last_signal`, 0 for none) is forwarded when it has a name.
pub fn process_signals(sighup_received: bool, last_signal: i32) -> (d: SignalDecision)
    ensures
        d.reload == sighup_received,
        last_signal == 0 ==> d.forward is None,
        last_signal != 0 ==> (d.forward is None <==> !(1 <= last_signal <= 31)),
        d.forward matches Some(s) ==> signal_number(s) == last_signal && !is_alias(s),
{
    let forward = if last_signal != 0 {
        _Signalstopper::from_i32(last_signal)
    } else {
        None
    };
    SignalDecision { reload: sighup_received, forward }
}

/// The outcome of a reload, as answered by the execution engine.
#[derive(Debug, PartialEq, Eq)]
pub enum ReloadOutcome {
    /// "Config updated."
    Updated,
    /// the engine could not apply it
    Failed(String),
    /// no usable answer
    Silent,
}

/// Reads the answer of the execution engine to a new configuration.
pub fn reload_outcome(received: Result<ThreadMessage, RecvFailure>) -> (r: ReloadOutcome)
    ensures
        received matches Ok(ThreadMessage::ConfigReloaded) ==> r is Updated,
        received matches Ok(ThreadMessage::ConfigReloadError(s)) ==> (r matches ReloadOutcome::Failed(
            t,
        ) && t@ == s@),
        !(received matches Ok(ThreadMessage::ConfigReloaded)) && !(
        received matches Ok(ThreadMessage::ConfigReloadError(_))) ==> r is Silent,
{
    match received {
        Ok(ThreadMessage::ConfigReloaded) => ReloadOutcome::Updated,
        Ok(ThreadMessage::ConfigReloadError(s)) => ReloadOutcome::Failed(s),
        _ => ReloadOutcome::Silent,
    }
}

/// What the line editor gave back when asked for a line.
#[derive(Debug, PartialEq, Eq)]
pub enum LineRead {
    /// a line was typed
    Line(String),
    /// Ctrl+C
    Interrupted,
    /// Ctrl+D at an empty line
    Eof,
    /// the terminal could not be read
    Failed,
}

/// The text handed to the shell for what the editor read, and whether it goes
/// into the history: a typed line without its surrounding white space, kept in
/// the history when something is left of it; Ctrl+C and Ctrl+D mean `exit`;
/// a read that failed gives nothing.
pub fn read_outcome(r: LineRead) -> (out: (Option<String>, bool))
    ensures
        match r {
            LineRead::Line(l) => out.0 matches Some(t) && t@ == trimmed(l@) && out.1 == (
            trimmed(l@).len() > 0),
            LineRead::Interrupted | LineRead::Eof => out.0 matches Some(t) && t@ == "exit"@ && !out.1,
            LineRead::Failed => out.0 is None && !out.1,
        },
{
    match r {
        LineRead::Line(l) => {
            let t = trim(l.as_str());
            let keep = t.unicode_len() > 0;
            (Some(t), keep)
        },
        LineRead::Interrupted | LineRead::Eof => {
            proof { reveal_strlit("exit"); }
            (Some(String::from_str("exit")), false)
        },
        LineRead::Failed => (None, false),
    }
}

} // verus!

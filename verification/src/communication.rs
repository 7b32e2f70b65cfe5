use vstd::prelude::*;

use crate::config::Taskmaster;
use crate::signals::_Signalstopper;

verus! {

/// The messages that the control shell and the execution engine exchange.
#[derive(Debug)]
pub enum ThreadMessage {
    // Messages sent by the control shell
    /// sent while waiting for the engine to start and run the autostart programs
    Ready,
    /// starts a program identified by its name in the configuration
    Start(String),
    /// restarts a program identified by its name in the configuration
    Restart(String),
    /// stops a program identified by its name in the configuration
    Stop(String),
    /// orders the engine to kill all processes and exit
    Exit,
    /// asks for the status of all programs
    StatusAll,
    /// asks for the status of one program
    Status(String),
    /// replaces the configuration
    ReloadConfig(Taskmaster),
    // Messages sent by the execution engine
    /// the status was printed
    StatusDone,
    /// the engine has exited
    ExitDone,
    /// a start / stop / restart was handled
    ActionDone,
    ExecReady,
    ConfigReloaded,
    ConfigReloadError(String),
    SignalReceived(_Signalstopper),
}

} // verus!

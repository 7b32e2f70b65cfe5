use vstd::prelude::*;
use vstd::string::*;

verus! {
/// The signals a supervised program may be stopped with (Linux numbering).
/// `SIGHUP` is reserved for reloading the configuration.
#[allow(non_camel_case_types, clippy::upper_case_acronyms)]
#[derive(Debug, Clone, Copy, PartialEq, Eq, Structural)]
pub enum _Signalstopper {
    SIGHUP,
    SIGINT,
    SIGQUIT,
    SIGILL,
    SIGTRAP,
    SIGABRT,
    SIGIOT,
    SIGBUS,
    SIGFPE,
    SIGKILL,
    SIGUSR1,
    SIGSEGV,
    SIGUSR2,
    SIGPIPE,
    SIGALRM,
    SIGTERM,
    SIGSTKFLT,
    SIGCHLD,
    SIGCONT,
    SIGSTOP,
    SIGTSTP,
    SIGTTIN,
    SIGTTOU,
    SIGURG,
    SIGXCPU,
    SIGXFSZ,
    SIGVTALRM,
    SIGPROF,
    SIGWINCH,
    SIGIO,
    SIGPOLL,
    SIGPWR,
    SIGSYS,
    SIGUNUSED,
}

/// The Linux number of each signal.
pub open spec fn signal_number(s: _Signalstopper) -> i32 {
    match s {
        _Signalstopper::SIGHUP => 1,
        _Signalstopper::SIGINT => 2,
        _Signalstopper::SIGQUIT => 3,
        _Signalstopper::SIGILL => 4,
        _Signalstopper::SIGTRAP => 5,
        _Signalstopper::SIGABRT => 6,
        _Signalstopper::SIGIOT => 6,
        _Signalstopper::SIGBUS => 7,
        _Signalstopper::SIGFPE => 8,
        _Signalstopper::SIGKILL => 9,
        _Signalstopper::SIGUSR1 => 10,
        _Signalstopper::SIGSEGV => 11,
        _Signalstopper::SIGUSR2 => 12,
        _Signalstopper::SIGPIPE => 13,
        _Signalstopper::SIGALRM => 14,
        _Signalstopper::SIGTERM => 15,
        _Signalstopper::SIGSTKFLT => 16,
        _Signalstopper::SIGCHLD => 17,
        _Signalstopper::SIGCONT => 18,
        _Signalstopper::SIGSTOP => 19,
        _Signalstopper::SIGTSTP => 20,
        _Signalstopper::SIGTTIN => 21,
        _Signalstopper::SIGTTOU => 22,
        _Signalstopper::SIGURG => 23,
        _Signalstopper::SIGXCPU => 24,
        _Signalstopper::SIGXFSZ => 25,
        _Signalstopper::SIGVTALRM => 26,
        _Signalstopper::SIGPROF => 27,
        _Signalstopper::SIGWINCH => 28,
        _Signalstopper::SIGIO => 29,
        _Signalstopper::SIGPOLL => 29,
        _Signalstopper::SIGPWR => 30,
        _Signalstopper::SIGSYS => 31,
        _Signalstopper::SIGUNUSED => 31,
    }
}

/// The name of each signal, as written in a configuration.
pub open spec fn signal_name(s: _Signalstopper) -> Seq<char> {
    match s {
        _Signalstopper::SIGHUP => "SIGHUP"@,
        _Signalstopper::SIGINT => "SIGINT"@,
        _Signalstopper::SIGQUIT => "SIGQUIT"@,
        _Signalstopper::SIGILL => "SIGILL"@,
        _Signalstopper::SIGTRAP => "SIGTRAP"@,
        _Signalstopper::SIGABRT => "SIGABRT"@,
        _Signalstopper::SIGIOT => "SIGIOT"@,
        _Signalstopper::SIGBUS => "SIGBUS"@,
        _Signalstopper::SIGFPE => "SIGFPE"@,
        _Signalstopper::SIGKILL => "SIGKILL"@,
        _Signalstopper::SIGUSR1 => "SIGUSR1"@,
        _Signalstopper::SIGSEGV => "SIGSEGV"@,
        _Signalstopper::SIGUSR2 => "SIGUSR2"@,
        _Signalstopper::SIGPIPE => "SIGPIPE"@,
        _Signalstopper::SIGALRM => "SIGALRM"@,
        _Signalstopper::SIGTERM => "SIGTERM"@,
        _Signalstopper::SIGSTKFLT => "SIGSTKFLT"@,
        _Signalstopper::SIGCHLD => "SIGCHLD"@,
        _Signalstopper::SIGCONT => "SIGCONT"@,
        _Signalstopper::SIGSTOP => "SIGSTOP"@,
        _Signalstopper::SIGTSTP => "SIGTSTP"@,
        _Signalstopper::SIGTTIN => "SIGTTIN"@,
        _Signalstopper::SIGTTOU => "SIGTTOU"@,
        _Signalstopper::SIGURG => "SIGURG"@,
        _Signalstopper::SIGXCPU => "SIGXCPU"@,
        _Signalstopper::SIGXFSZ => "SIGXFSZ"@,
        _Signalstopper::SIGVTALRM => "SIGVTALRM"@,
        _Signalstopper::SIGPROF => "SIGPROF"@,
        _Signalstopper::SIGWINCH => "SIGWINCH"@,
        _Signalstopper::SIGIO => "SIGIO"@,
        _Signalstopper::SIGPOLL => "SIGPOLL"@,
        _Signalstopper::SIGPWR => "SIGPWR"@,
        _Signalstopper::SIGSYS => "SIGSYS"@,
        _Signalstopper::SIGUNUSED => "SIGUNUSED"@,
    }
}

/// Names that Linux gives to a number that already has another name:
/// `SIGIOT` is `SIGABRT`, `SIGPOLL` is `SIGIO`, `SIGUNUSED` is `SIGSYS`.
pub open spec fn is_alias(s: _Signalstopper) -> bool {
    s == _Signalstopper::SIGIOT || s == _Signalstopper::SIGPOLL || s == _Signalstopper::SIGUNUSED
}

impl _Signalstopper {
    /// The name of the signal (see [`signal_name`]).
    pub fn name(self) -> (r: &'static str)
        ensures
            r@ == signal_name(self),
    {
        proof {
            reveal_strlit("SIGHUP");
            reveal_strlit("SIGINT");
            reveal_strlit("SIGQUIT");
            reveal_strlit("SIGILL");
            reveal_strlit("SIGTRAP");
            reveal_strlit("SIGABRT");
            reveal_strlit("SIGIOT");
            reveal_strlit("SIGBUS");
            reveal_strlit("SIGFPE");
            reveal_strlit("SIGKILL");
            reveal_strlit("SIGUSR1");
            reveal_strlit("SIGSEGV");
            reveal_strlit("SIGUSR2");
            reveal_strlit("SIGPIPE");
            reveal_strlit("SIGALRM");
            reveal_strlit("SIGTERM");
            reveal_strlit("SIGSTKFLT");
            reveal_strlit("SIGCHLD");
            reveal_strlit("SIGCONT");
            reveal_strlit("SIGSTOP");
            reveal_strlit("SIGTSTP");
            reveal_strlit("SIGTTIN");
            reveal_strlit("SIGTTOU");
            reveal_strlit("SIGURG");
            reveal_strlit("SIGXCPU");
            reveal_strlit("SIGXFSZ");
            reveal_strlit("SIGVTALRM");
            reveal_strlit("SIGPROF");
            reveal_strlit("SIGWINCH");
            reveal_strlit("SIGIO");
            reveal_strlit("SIGPOLL");
            reveal_strlit("SIGPWR");
            reveal_strlit("SIGSYS");
            reveal_strlit("SIGUNUSED");
        }
        match self {
            _Signalstopper::SIGHUP => "SIGHUP",
            _Signalstopper::SIGINT => "SIGINT",
            _Signalstopper::SIGQUIT => "SIGQUIT",
            _Signalstopper::SIGILL => "SIGILL",
            _Signalstopper::SIGTRAP => "SIGTRAP",
            _Signalstopper::SIGABRT => "SIGABRT",
            _Signalstopper::SIGIOT => "SIGIOT",
            _Signalstopper::SIGBUS => "SIGBUS",
            _Signalstopper::SIGFPE => "SIGFPE",
            _Signalstopper::SIGKILL => "SIGKILL",
            _Signalstopper::SIGUSR1 => "SIGUSR1",
            _Signalstopper::SIGSEGV => "SIGSEGV",
            _Signalstopper::SIGUSR2 => "SIGUSR2",
            _Signalstopper::SIGPIPE => "SIGPIPE",
            _Signalstopper::SIGALRM => "SIGALRM",
            _Signalstopper::SIGTERM => "SIGTERM",
            _Signalstopper::SIGSTKFLT => "SIGSTKFLT",
            _Signalstopper::SIGCHLD => "SIGCHLD",
            _Signalstopper::SIGCONT => "SIGCONT",
            _Signalstopper::SIGSTOP => "SIGSTOP",
            _Signalstopper::SIGTSTP => "SIGTSTP",
            _Signalstopper::SIGTTIN => "SIGTTIN",
            _Signalstopper::SIGTTOU => "SIGTTOU",
            _Signalstopper::SIGURG => "SIGURG",
            _Signalstopper::SIGXCPU => "SIGXCPU",
            _Signalstopper::SIGXFSZ => "SIGXFSZ",
            _Signalstopper::SIGVTALRM => "SIGVTALRM",
            _Signalstopper::SIGPROF => "SIGPROF",
            _Signalstopper::SIGWINCH => "SIGWINCH",
            _Signalstopper::SIGIO => "SIGIO",
            _Signalstopper::SIGPOLL => "SIGPOLL",
            _Signalstopper::SIGPWR => "SIGPWR",
            _Signalstopper::SIGSYS => "SIGSYS",
            _Signalstopper::SIGUNUSED => "SIGUNUSED",
        }
    }

    /// The Linux number of the signal.
    pub fn number(self) -> (r: i32)
        ensures
            r == signal_number(self),
    {
        match self {
            _Signalstopper::SIGHUP => 1,
            _Signalstopper::SIGINT => 2,
            _Signalstopper::SIGQUIT => 3,
            _Signalstopper::SIGILL => 4,
            _Signalstopper::SIGTRAP => 5,
            _Signalstopper::SIGABRT => 6,
            _Signalstopper::SIGIOT => 6,
            _Signalstopper::SIGBUS => 7,
            _Signalstopper::SIGFPE => 8,
            _Signalstopper::SIGKILL => 9,
            _Signalstopper::SIGUSR1 => 10,
            _Signalstopper::SIGSEGV => 11,
            _Signalstopper::SIGUSR2 => 12,
            _Signalstopper::SIGPIPE => 13,
            _Signalstopper::SIGALRM => 14,
            _Signalstopper::SIGTERM => 15,
            _Signalstopper::SIGSTKFLT => 16,
            _Signalstopper::SIGCHLD => 17,
            _Signalstopper::SIGCONT => 18,
            _Signalstopper::SIGSTOP => 19,
            _Signalstopper::SIGTSTP => 20,
            _Signalstopper::SIGTTIN => 21,
            _Signalstopper::SIGTTOU => 22,
            _Signalstopper::SIGURG => 23,
            _Signalstopper::SIGXCPU => 24,
            _Signalstopper::SIGXFSZ => 25,
            _Signalstopper::SIGVTALRM => 26,
            _Signalstopper::SIGPROF => 27,
            _Signalstopper::SIGWINCH => 28,
            _Signalstopper::SIGIO => 29,
            _Signalstopper::SIGPOLL => 29,
            _Signalstopper::SIGPWR => 30,
            _Signalstopper::SIGSYS => 31,
            _Signalstopper::SIGUNUSED => 31,
        }
    }

    /// The signal with Linux number `sig`, under its primary name; `None` when
    /// no signal has that number.
    pub fn from_i32(sig: i32) -> (r: Option<_Signalstopper>)
        ensures
            r is None <==> !(1 <= sig <= 31),
            r matches Some(s) ==> signal_number(s) == sig && !is_alias(s),
    {
        match sig {
            1 => Some(_Signalstopper::SIGHUP),
            2 => Some(_Signalstopper::SIGINT),
            3 => Some(_Signalstopper::SIGQUIT),
            4 => Some(_Signalstopper::SIGILL),
            5 => Some(_Signalstopper::SIGTRAP),
            6 => Some(_Signalstopper::SIGABRT),
            7 => Some(_Signalstopper::SIGBUS),
            8 => Some(_Signalstopper::SIGFPE),
            9 => Some(_Signalstopper::SIGKILL),
            10 => Some(_Signalstopper::SIGUSR1),
            11 => Some(_Signalstopper::SIGSEGV),
            12 => Some(_Signalstopper::SIGUSR2),
            13 => Some(_Signalstopper::SIGPIPE),
            14 => Some(_Signalstopper::SIGALRM),
            15 => Some(_Signalstopper::SIGTERM),
            16 => Some(_Signalstopper::SIGSTKFLT),
            17 => Some(_Signalstopper::SIGCHLD),
            18 => Some(_Signalstopper::SIGCONT),
            19 => Some(_Signalstopper::SIGSTOP),
            20 => Some(_Signalstopper::SIGTSTP),
            21 => Some(_Signalstopper::SIGTTIN),
            22 => Some(_Signalstopper::SIGTTOU),
            23 => Some(_Signalstopper::SIGURG),
            24 => Some(_Signalstopper::SIGXCPU),
            25 => Some(_Signalstopper::SIGXFSZ),
            26 => Some(_Signalstopper::SIGVTALRM),
            27 => Some(_Signalstopper::SIGPROF),
            28 => Some(_Signalstopper::SIGWINCH),
            29 => Some(_Signalstopper::SIGIO),
            30 => Some(_Signalstopper::SIGPWR),
            31 => Some(_Signalstopper::SIGSYS),
            _ => None,
        }
    }
}

} // verus!

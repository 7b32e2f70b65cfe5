use vstd::prelude::*;
use vstd::string::*;

use crate::engine::{Notice, NoticeView};
use crate::logger::{decimal, push_decimal, Level};
use crate::signals::signal_name;

verus! {

/// Process ids separated by `, `.
pub open spec fn joined_pids(pids: Seq<u32>) -> Seq<char>
    decreases pids.len(),
{
    if pids.len() == 0 {
        Seq::empty()
    } else if pids.len() == 1 {
        decimal(pids[0] as nat)
    } else {
        joined_pids(pids.drop_last()) + ", "@ + decimal(pids.last() as nat)
    }
}

/// Process ids in square brackets, such as `[12, 13]`.
pub open spec fn pid_list(pids: Seq<u32>) -> Seq<char> {
    "["@ + joined_pids(pids) + "]"@
}

/// The level at which a notice is logged: a missing program is an error, the
/// killing of a child a debug message, the rest information.
pub open spec fn notice_level(n: NoticeView) -> Level {
    match n {
        NoticeView::NotFound(_) => Level::Error,
        NoticeView::Killing(_, _) => Level::Debug,
        _ => Level::Info,
    }
}

/// The text of a notice.
pub open spec fn notice_text(n: NoticeView) -> Seq<char> {
    match n {
        NoticeView::AlreadyRunning(name) => "Program : '"@ + name + "' already running."@,
        NoticeView::NotFound(name) => "Program '"@ + name + "' not found."@,
        NoticeView::AlreadyOff(name) => "Program : '"@ + name + "' already off."@,
        NoticeView::StoppingOnSignal(sig, name) => "Signal "@ + signal_name(sig)
            + " corresponding to '"@ + name + "''s config. Stoping it properly..."@,
        NoticeView::Exiting => "exiting..."@,
        NoticeView::Killing(name, pid) => "Killing "@ + name + " with pid "@ + decimal(pid as nat),
        NoticeView::WillBeRemoved(name) => name + " will be removed."@,
        NoticeView::Updated(name) => name + " updated."@,
        NoticeView::NewProgram(name) => "New program in config "@ + name,
        NoticeView::Status(name, pids) => if pids.len() == 0 {
            "[STATUS] "@ + name + " is off"@
        } else {
            "[STATUS] "@ + name + " is alive (PIDs: "@ + pid_list(pids) + ")"@
        },
    }
}

proof fn lemma_joined_step(pids: Seq<u32>, i: int)
    requires
        0 <= i < pids.len(),
    ensures
        joined_pids(pids.subrange(0, i + 1)) == if i == 0 {
            decimal(pids[0] as nat)
        } else {
            joined_pids(pids.subrange(0, i)) + ", "@ + decimal(pids[i] as nat)
        },
{
    assert(pids.subrange(0, i + 1).drop_last() =~= pids.subrange(0, i));
}

/// Appends the list of process ids (see [`pid_list`]).
fn push_pid_list(line: String, pids: &Vec<u32>) -> (r: String)
    ensures
        r@ == line@ + pid_list(pids@),
{
    proof {
        reveal_strlit("[");
        reveal_strlit(", ");
        reveal_strlit("]");
    }
    let ghost start = line@;
    let mut out = line.concat("[");
    let mut i: usize = 0;
    assert(pids@.subrange(0, 0) =~= Seq::<u32>::empty());
    while i < pids.len()
        invariant
            i <= pids.len(),
            out@ == start + "["@ + joined_pids(pids@.subrange(0, i as int)),
        decreases pids.len() - i,
    {
        proof { lemma_joined_step(pids@, i as int); }
        if i > 0 {
            out = out.concat(", ");
        }
        out = push_decimal(out, pids[i] as u64);
        assert(out@ =~= start + "["@ + joined_pids(pids@.subrange(0, i + 1)));
        i = i + 1;
    }
    assert(pids@.subrange(0, pids.len() as int) =~= pids@);
    let r = out.concat("]");
    assert(r@ =~= line@ + pid_list(pids@));
    r
}

impl Notice {
    /// The level at which the notice is logged (see [`notice_level`]).
    pub fn level(&self) -> (r: Level)
        ensures
            r == notice_level(self@),
    {
        match self {
            Notice::NotFound(_) => Level::Error,
            Notice::Killing(_, _) => Level::Debug,
            _ => Level::Info,
        }
    }

    /// The text of the notice (see [`notice_text`]).
    pub fn text(&self) -> (r: String)
        ensures
            r@ == notice_text(self@),
    {
        proof {
            reveal_strlit("Program : '");
            reveal_strlit("' already running.");
            reveal_strlit("Program '");
            reveal_strlit("' not found.");
            reveal_strlit("' already off.");
            reveal_strlit("Signal ");
            reveal_strlit(" corresponding to '");
            reveal_strlit("''s config. Stoping it properly...");
            reveal_strlit("exiting...");
            reveal_strlit("Killing ");
            reveal_strlit(" with pid ");
            reveal_strlit(" will be removed.");
            reveal_strlit(" updated.");
            reveal_strlit("New program in config ");
            reveal_strlit("[STATUS] ");
            reveal_strlit(" is off");
            reveal_strlit(" is alive (PIDs: ");
            reveal_strlit(")");
        }
        match self {
            Notice::AlreadyRunning(name) => String::from_str("Program : '").concat(
                name.as_str(),
            ).concat("' already running."),
            Notice::NotFound(name) => String::from_str("Program '").concat(name.as_str()).concat(
                "' not found.",
            ),
            Notice::AlreadyOff(name) => String::from_str("Program : '").concat(
                name.as_str(),
            ).concat("' already off."),
            Notice::StoppingOnSignal(sig, name) => String::from_str("Signal ").concat(
                sig.name(),
            ).concat(" corresponding to '").concat(name.as_str()).concat(
                "''s config. Stoping it properly...",
            ),
            Notice::Exiting => String::from_str("exiting..."),
            Notice::Killing(name, pid) => {
                let head = String::from_str("Killing ").concat(name.as_str()).concat(" with pid ");
                push_decimal(head, *pid as u64)
            },
            Notice::WillBeRemoved(name) => name.clone().concat(" will be removed."),
            Notice::Updated(name) => name.clone().concat(" updated."),
            Notice::NewProgram(name) => String::from_str("New program in config ").concat(
                name.as_str(),
            ),
            Notice::Status(name, pids) => {
                let head = String::from_str("[STATUS] ").concat(name.as_str());
                if pids.len() == 0 {
                    head.concat(" is off")
                } else {
                    let with_list = push_pid_list(head.concat(" is alive (PIDs: "), pids);
                    with_list.concat(")")
                }
            },
        }
    }
}

} // verus!

//! `--priority`: run benchmarked processes with a different scheduling
//! priority, to reduce preemption by other processes (`realtime`, `high`) or to
//! benchmark background workloads (`idle`).
use vstd::prelude::*;
use crate::text::{chars_of, chars_eq, push_str};
use crate::util::platform::Os;

verus! {

#[derive(Debug, Clone, Copy, PartialEq, Eq, Structural)]
pub enum Priority {
    /// Inherit the current priority (default)
    Normal,
    /// Linux/macOS: nice -20. Windows: HIGH_PRIORITY_CLASS
    High,
    /// Linux: SCHED_IDLE. macOS: nice 19. Windows: IDLE_PRIORITY_CLASS
    Idle,
    /// Linux: SCHED_FIFO at the maximum priority. Windows:
    /// REALTIME_PRIORITY_CLASS. Not available on macOS.
    Realtime,
}

impl Default for Priority {
    fn default() -> (p: Priority)
        ensures
            p == Priority::Normal,
    {
        Priority::Normal
    }
}

/// The name of a priority.
pub open spec fn priority_name(p: Priority) -> Seq<char> {
    match p {
        Priority::Normal => "normal"@,
        Priority::High => "high"@,
        Priority::Idle => "idle"@,
        Priority::Realtime => "realtime"@,
    }
}

/// The priority with this name.
pub open spec fn priority_of(s: Seq<char>) -> Option<Priority> {
    if s == "normal"@ {
        Some(Priority::Normal)
    } else if s == "high"@ {
        Some(Priority::High)
    } else if s == "idle"@ {
        Some(Priority::Idle)
    } else if s == "realtime"@ {
        Some(Priority::Realtime)
    } else {
        None
    }
}

fn is_text(s: &str, lit: &str) -> (r: bool)
    ensures
        r == (s@ == lit@),
{
    let a = chars_of(s);
    let b = chars_of(lit);
    chars_eq(a.as_slice(), b.as_slice())
}

impl Priority {
    /// The priority named `value`; `realtime` only on Linux and Windows.
    pub fn parse(value: &str, os: Os) -> (r: Result<Priority, String>)
        ensures
            match priority_of(value@) {
                None => r matches Err(m) && m@ == "invalid priority '"@ + value@ + "' (normal, high, idle, realtime)"@,
                Some(p) => if p == Priority::Realtime && !(os == Os::Linux || os == Os::Windows) {
                    r matches Err(m) && m@ == "'--priority realtime' is only supported on Linux and Windows (use 'high' for the highest nice value)"@
                } else {
                    r == Ok::<Priority, String>(p)
                },
            },
    {
        let priority = if is_text(value, "normal") {
            Priority::Normal
        } else if is_text(value, "high") {
            Priority::High
        } else if is_text(value, "idle") {
            Priority::Idle
        } else if is_text(value, "realtime") {
            Priority::Realtime
        } else {
            let mut m = String::new();
            push_str(&mut m, "invalid priority '");
            push_str(&mut m, value);
            push_str(&mut m, "' (normal, high, idle, realtime)");
            return Err(m);
        };
        if priority == Priority::Realtime && !(os == Os::Linux || os == Os::Windows) {
            let mut m = String::new();
            push_str(&mut m, "'--priority realtime' is only supported on Linux and Windows (use 'high' for the highest nice value)");
            return Err(m);
        }
        Ok(priority)
    }

    pub fn as_str(self) -> (r: &'static str)
        ensures
            r@ == priority_name(self),
    {
        match self {
            Priority::Normal => "normal",
            Priority::High => "high",
            Priority::Idle => "idle",
            Priority::Realtime => "realtime",
        }
    }
}

/// How to get the permission that `priority` needs, if it failed: only
/// raising the priority (`high`, `realtime`) needs one.
pub fn permission_hint(priority: Priority, os: Os) -> (r: Option<&'static str>)
    ensures
        r is Some <==> (priority == Priority::High || priority == Priority::Realtime),
        r matches Some(h) ==> h@ == match os {
            Os::Linux => "raising the priority requires the CAP_SYS_NICE capability: run joulex as root, or grant it with 'sudo setcap cap_sys_nice+ep \"$(command -v joulex)\"'"@,
            Os::Windows => "without administrator rights, Windows silently lowers 'realtime' to 'high'"@,
            _ => "raising the priority requires root: run joulex with sudo"@,
        },
{
    match priority {
        Priority::Normal | Priority::Idle => None,
        Priority::High | Priority::Realtime => Some(match os {
            Os::Linux => "raising the priority requires the CAP_SYS_NICE capability: run joulex as root, or grant it with 'sudo setcap cap_sys_nice+ep \"$(command -v joulex)\"'",
            Os::Windows => "without administrator rights, Windows silently lowers 'realtime' to 'high'",
            _ => "raising the priority requires root: run joulex with sudo",
        }),
    }
}

} // verus!

verus! {

/// A priority's name names that priority.
#[verifier::spinoff_prover]
pub proof fn lemma_priority_name_parses_back(p: Priority)
    ensures
        priority_of(priority_name(p)) == Some(p),
{
    reveal_strlit("normal");
    reveal_strlit("high");
    reveal_strlit("idle");
    reveal_strlit("realtime");
    match p {
        Priority::Normal => {
            assert(priority_name(p) == "normal"@);
        },
        Priority::High => {
            assert("high"@.len() != "normal"@.len());
        },
        Priority::Idle => {
            assert("idle"@.len() != "normal"@.len());
            assert("idle"@[0] != "high"@[0]);
        },
        Priority::Realtime => {
            assert("realtime"@.len() != "normal"@.len());
            assert("realtime"@.len() != "high"@.len());
            assert("realtime"@.len() != "idle"@.len());
        },
    }
}

} // verus!

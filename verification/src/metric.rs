//! The metric that benchmarks are compared and sorted by.
use vstd::prelude::*;
use crate::text::{chars_of, push_str, string_from_chars};

verus! {

/// Target metric used as the primary objective for benchmarking, comparison, and sorting.
#[derive(Debug, Clone, Copy, PartialEq, Eq, Structural)]
pub enum Metric {
    Wall,
    Cpu,
    User,
    System,
    Energy,
    Memory,
}

impl Default for Metric {
    fn default() -> (m: Metric)
        ensures
            m == Metric::Wall,
    {
        Metric::Wall
    }
}

/// The canonical lowercase name of a metric.
pub open spec fn metric_name(m: Metric) -> Seq<char> {
    match m {
        Metric::Wall => "wall"@,
        Metric::Cpu => "cpu"@,
        Metric::User => "user"@,
        Metric::System => "system"@,
        Metric::Energy => "energy"@,
        Metric::Memory => "memory"@,
    }
}

/// Whether a metric is a duration in time.
pub open spec fn metric_is_time(m: Metric) -> bool {
    m is Wall || m is Cpu || m is User || m is System
}

/// ASCII letters in lower case; other characters unchanged.
pub open spec fn ascii_lower(s: Seq<char>) -> Seq<char> {
    Seq::new(s.len(), |i: int| if 'A' <= s[i] <= 'Z' { ((s[i] as u32) + 32) as char } else { s[i] })
}

/// The metric named by `s` (lower case), with its aliases.
pub open spec fn metric_of(s: Seq<char>) -> Option<Metric> {
    if s == "wall"@ || s == "wall-clock"@ || s == "time"@ {
        Some(Metric::Wall)
    } else if s == "cpu"@ || s == "total-cpu"@ {
        Some(Metric::Cpu)
    } else if s == "user"@ {
        Some(Metric::User)
    } else if s == "system"@ {
        Some(Metric::System)
    } else if s == "energy"@ {
        Some(Metric::Energy)
    } else if s == "memory"@ || s == "rss"@ || s == "peak-memory"@ {
        Some(Metric::Memory)
    } else {
        None
    }
}

/// `s` with ASCII letters in lower case.
pub fn to_ascii_lower(s: &str) -> (r: String)
    ensures
        r@ == ascii_lower(s@),
{
    let cs = chars_of(s);
    let mut out: Vec<char> = Vec::new();
    for i in 0..cs.len()
        invariant
            cs@ == s@,
            out@ == ascii_lower(s@).take(i as int),
    {
        let c = cs[i];
        let l = if 'A' <= c && c <= 'Z' {
            let code: u32 = (c as u32) + 32;
            lower_ascii_char(code)
        } else {
            c
        };
        out.push(l);
        assert(out@ =~= ascii_lower(s@).take(i + 1));
    }
    assert(ascii_lower(s@).take(cs@.len() as int) =~= ascii_lower(s@));
    string_from_chars(out.as_slice())
}

/// The character with this code (a lower-case ASCII letter).
fn lower_ascii_char(code: u32) -> (c: char)
    requires
        97 <= code <= 122,
    ensures
        c == code as char,
{
    let mut c = 'a';
    let mut k: u32 = 97;
    while k < code
        invariant
            97 <= k <= code <= 122,
            c == k as char,
        decreases code - k,
    {
        c = next_lower(c);
        k += 1;
    }
    c
}

/// The next lower-case letter.
fn next_lower(c: char) -> (d: char)
    requires
        'a' <= c < 'z',
    ensures
        d as u32 == c as u32 + 1,
{
    match c {
        'a' => 'b', 'b' => 'c', 'c' => 'd', 'd' => 'e', 'e' => 'f', 'f' => 'g', 'g' => 'h', 'h' => 'i',
        'i' => 'j', 'j' => 'k', 'k' => 'l', 'l' => 'm', 'm' => 'n', 'n' => 'o', 'o' => 'p', 'p' => 'q',
        'q' => 'r', 'r' => 's', 's' => 't', 't' => 'u', 'u' => 'v', 'v' => 'w', 'w' => 'x', 'x' => 'y', _ => 'z',
    }
}

/// Whether two texts are equal.
fn str_eq(a: &str, b: &str) -> (r: bool)
    ensures
        r == (a@ == b@),
{
    let x = chars_of(a);
    let y = chars_of(b);
    crate::text::chars_eq(x.as_slice(), y.as_slice())
}

impl Metric {
    /// Canonical lowercase name of the metric
    pub fn name(&self) -> (r: &'static str)
        ensures
            r@ == metric_name(*self),
    {
        match self {
            Metric::Wall => "wall",
            Metric::Cpu => "cpu",
            Metric::User => "user",
            Metric::System => "system",
            Metric::Energy => "energy",
            Metric::Memory => "memory",
        }
    }

    /// Header name displayed in the terminal output
    pub fn display_header(&self) -> (r: &'static str)
        ensures
            r@ == match *self {
                Metric::Wall => "Time"@,
                Metric::Cpu => "CPU Time"@,
                Metric::User => "User Time"@,
                Metric::System => "System Time"@,
                Metric::Energy => "Energy"@,
                Metric::Memory => "Memory"@,
            },
    {
        match self {
            Metric::Wall => "Time",
            Metric::Cpu => "CPU Time",
            Metric::User => "User Time",
            Metric::System => "System Time",
            Metric::Energy => "Energy",
            Metric::Memory => "Memory",
        }
    }

    /// Verb used in summary sentences, e.g. "command ran" vs "command used"
    pub fn verb(&self) -> (r: &'static str)
        ensures
            r@ == if metric_is_time(*self) { "ran"@ } else { "used"@ },
    {
        match self {
            Metric::Wall | Metric::Cpu | Metric::User | Metric::System => "ran",
            Metric::Energy | Metric::Memory => "used",
        }
    }

    /// Comparison words: (better, worse), e.g. ("faster", "slower") or ("less energy", "more energy")
    pub fn comparison_words(&self) -> (r: (&'static str, &'static str))
        ensures
            (r.0@, r.1@) == match *self {
                Metric::Energy => ("less energy"@, "more energy"@),
                Metric::Memory => ("less memory"@, "more memory"@),
                _ => ("faster"@, "slower"@),
            },
    {
        match self {
            Metric::Wall | Metric::Cpu | Metric::User | Metric::System => ("faster", "slower"),
            Metric::Energy => ("less energy", "more energy"),
            Metric::Memory => ("less memory", "more memory"),
        }
    }

    /// Phrase used when two commands have equal measurements
    pub fn equal_word(&self) -> (r: &'static str)
        ensures
            r@ == match *self {
                Metric::Energy => "same energy as"@,
                Metric::Memory => "same memory as"@,
                _ => "as fast as"@,
            },
    {
        match self {
            Metric::Wall | Metric::Cpu | Metric::User | Metric::System => "as fast as",
            Metric::Energy => "same energy as",
            Metric::Memory => "same memory as",
        }
    }

    /// Whether this metric represents a duration in time
    pub fn is_time(&self) -> (r: bool)
        ensures
            r == metric_is_time(*self),
    {
        match self {
            Metric::Wall | Metric::Cpu | Metric::User | Metric::System => true,
            Metric::Energy | Metric::Memory => false,
        }
    }

    /// The metric named by `s` (in any case); the error names the valid
    /// values.
    pub fn parse(s: &str) -> (r: Result<Metric, String>)
        ensures
            match metric_of(ascii_lower(s@)) {
                Some(m) => r == Ok::<Metric, String>(m),
                None => r matches Err(msg) && msg@ == "invalid metric '"@ + ascii_lower(s@)
                    + "': possible values are wall, cpu, user, system, energy, memory"@,
            },
    {
        let l = to_ascii_lower(s);
        let t = l.as_str();
        if str_eq(t, "wall") || str_eq(t, "wall-clock") || str_eq(t, "time") {
            Ok(Metric::Wall)
        } else if str_eq(t, "cpu") || str_eq(t, "total-cpu") {
            Ok(Metric::Cpu)
        } else if str_eq(t, "user") {
            Ok(Metric::User)
        } else if str_eq(t, "system") {
            Ok(Metric::System)
        } else if str_eq(t, "energy") {
            Ok(Metric::Energy)
        } else if str_eq(t, "memory") || str_eq(t, "rss") || str_eq(t, "peak-memory") {
            Ok(Metric::Memory)
        } else {
            let mut msg = String::new();
            push_str(&mut msg, "invalid metric '");
            push_str(&mut msg, t);
            push_str(&mut msg, "': possible values are wall, cpu, user, system, energy, memory");
            Err(msg)
        }
    }

    /// The name of the metric (`Display`).
    pub fn to_string(&self) -> (r: String)
        ensures
            r@ == metric_name(*self),
    {
        let mut r = String::new();
        push_str(&mut r, self.name());
        r
    }
}

impl std::str::FromStr for Metric {
    type Err = String;

    fn from_str(s: &str) -> (r: Result<Metric, String>)
        ensures
            match metric_of(ascii_lower(s@)) {
                Some(m) => r == Ok::<Metric, String>(m),
                None => r matches Err(msg) && msg@ == "invalid metric '"@ + ascii_lower(s@)
                    + "': possible values are wall, cpu, user, system, energy, memory"@,
            },
    {
        Metric::parse(s)
    }
}

} // verus!

verus! {

/// Lower case text is its own lower case.
proof fn lemma_lower_fixed(s: Seq<char>)
    requires
        forall|i: int| 0 <= i < s.len() ==> !('A' <= #[trigger] s[i] <= 'Z'),
    ensures
        ascii_lower(s) == s,
{
    assert(ascii_lower(s) =~= s);
}

/// A metric's name parses back to the metric, in any case it is written:
/// by the contracts of `parse` and `from_str`, both give `Ok(m)` for
/// `m.name()` (which is also what `to_string` gives).
pub proof fn lemma_metric_name_parses_back(m: Metric)
    ensures
        metric_of(ascii_lower(metric_name(m))) == Some(m),
{
    reveal_strlit("wall");
    reveal_strlit("wall-clock");
    reveal_strlit("time");
    reveal_strlit("cpu");
    reveal_strlit("total-cpu");
    reveal_strlit("user");
    reveal_strlit("system");
    reveal_strlit("energy");
    reveal_strlit("memory");
    reveal_strlit("rss");
    reveal_strlit("peak-memory");
    lemma_lower_fixed(metric_name(m));
    match m {
        Metric::Wall => {},
        Metric::Cpu => {},
        Metric::User => {
            assert("user"@[0] != "wall"@[0]);
            assert("user"@[0] != "time"@[0]);
        },
        Metric::System => {},
        Metric::Energy => {
            assert("energy"@[0] != "system"@[0]);
        },
        Metric::Memory => {
            assert("memory"@[0] != "system"@[0]);
            assert("memory"@[0] != "energy"@[0]);
        },
    }
}

} // verus!

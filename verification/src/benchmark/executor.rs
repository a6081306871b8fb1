//! Which run of a benchmark is being executed, and what a failed run showed.
use vstd::prelude::*;
use crate::text::{chars_of, decimal, decimal_string, is_ws, is_ws_exec, join, lines, lines_exec, push_char, push_decimal, push_str, string_from_chars, trim, trim_chars};
use crate::util::sanitize::{escape_control_chars, escaped};
use crate::options::CmdFailureAction;

verus! {

/// The kind and number of a run.
#[derive(Debug, Clone, Copy, PartialEq, Eq)]
pub enum BenchmarkIteration {
    NonBenchmarkRun,
    Warmup(u64),
    Benchmark(u64),
}

/// The value of `JOULEX_ITERATION` (and `{iteration}`) for a run.
pub open spec fn env_var_value(it: BenchmarkIteration) -> Option<Seq<char>> {
    match it {
        BenchmarkIteration::NonBenchmarkRun => None,
        BenchmarkIteration::Warmup(i) => Some(seq!['w', 'a', 'r', 'm', 'u', 'p', '-'] + decimal(i as nat)),
        BenchmarkIteration::Benchmark(i) => Some(decimal(i as nat)),
    }
}

impl BenchmarkIteration {
    /// `warmup-<i>` for warmup runs, `<i>` for benchmark runs, none for
    /// setup, cleanup and other non-benchmark runs.
    pub fn to_env_var_value(&self) -> (r: Option<String>)
        ensures
            r is Some <==> env_var_value(*self) is Some,
            r matches Some(s) ==> s@ == env_var_value(*self).unwrap(),
    {
        match self {
            BenchmarkIteration::NonBenchmarkRun => None,
            BenchmarkIteration::Warmup(i) => {
                let mut s = String::new();
                push_str(&mut s, "warmup-");
                proof { reveal_strlit("warmup-"); }
                push_decimal(&mut s, *i);
                Some(s)
            },
            BenchmarkIteration::Benchmark(i) => Some(decimal_string(*i)),
        }
    }
}

/// With `--show-output-on-failure`, this many last lines of each stream are shown
pub const CAPTURED_LINES: usize = 20;
/// and of each line at most this many last characters
pub const CAPTURED_LINE_CHARS: usize = 300;

/// `String::from_utf8_lossy`: the text of the bytes, with each invalid
/// sequence replaced by `U+FFFD`.
pub uninterp spec fn utf8_lossy(bytes: Seq<u8>) -> Seq<char>;

/// Calls `String::from_utf8_lossy`. Claimed: the text is `utf8_lossy` of
/// the bytes (a function of the bytes alone), which for valid UTF-8 is the
/// text the bytes encode (nothing is replaced).
#[verifier::external_body]
fn decode_lossy(bytes: &[u8]) -> (s: String)
    ensures
        s@ == utf8_lossy(bytes@),
        vstd::utf8::valid_utf8(bytes@) ==> s@ == vstd::utf8::decode_utf8(bytes@),
{
    String::from_utf8_lossy(bytes).into_owned()
}

/// A shown line: its last 300 characters, with control characters escaped,
/// after a note on how many characters were cut.
pub open spec fn shown_line(l: Seq<char>) -> Seq<char> {
    let cut: nat = if l.len() > CAPTURED_LINE_CHARS { (l.len() - CAPTURED_LINE_CHARS) as nat } else { 0 };
    let e = escaped(l.skip(cut as int));
    if cut > 0 { "("@ + decimal(cut) + " earlier characters) … "@ + e } else { e }
}

/// The shown lines, joined by newlines.
pub open spec fn shown_lines(ls: Seq<Seq<char>>) -> Seq<char>
    decreases ls.len(),
{
    if ls.len() == 0 {
        Seq::empty()
    } else if ls.len() == 1 {
        shown_line(ls[0])
    } else {
        shown_lines(ls.drop_last()) + "\n"@ + shown_line(ls.last())
    }
}

/// The last 20 lines of a text, shown (see `shown_line`), with their number;
/// `None` if every line is blank.
pub open spec fn tail_spec(text: Seq<char>) -> Option<(nat, Seq<char>)> {
    let ls = lines(text);
    if forall|i: int| 0 <= i < ls.len() ==> trim(#[trigger] ls[i]).len() == 0 {
        None
    } else {
        let tail = if ls.len() > CAPTURED_LINES { ls.skip(ls.len() - CAPTURED_LINES) } else { ls };
        Some((tail.len(), shown_lines(tail)))
    }
}

/// Appends a shown line.
fn push_shown_line(out: &mut String, l: &Vec<char>)
    ensures
        final(out)@ == old(out)@ + shown_line(l@),
{
    let n = l.len();
    let cut: usize = if n > CAPTURED_LINE_CHARS { n - CAPTURED_LINE_CHARS } else { 0 };
    let kept = crate::text::chars_range(l.as_slice(), cut, n);
    assert(kept@ =~= l@.skip(cut as int));
    let text = string_from_chars(kept.as_slice());
    let e = escape_control_chars(text.as_str());
    if cut > 0 {
        push_str(out, "(");
        push_decimal(out, cut as u64);
        push_str(out, " earlier characters) … ");
    }
    let es: &str = match &e {
        std::borrow::Cow::Borrowed(b) => b,
        std::borrow::Cow::Owned(o) => o.as_str(),
    };
    push_str(out, es);
}

/// The last lines of a captured text, with control characters escaped (the
/// output is untrusted and must not control the terminal), and their number.
pub fn tail_of_text(text: &str) -> (r: Option<(usize, String)>)
    ensures
        match tail_spec(text@) {
            None => r is None,
            Some((n, t)) => r matches Some((k, s)) && k == n && s@ == t,
        },
{
    let ls = lines_exec(chars_of(text).as_slice());
    let ghost lv = crate::text::char_views(ls@);
    let mut blank = true;
    for i in 0..ls.len()
        invariant
            lv == crate::text::char_views(ls@),
            blank == forall|k: int| 0 <= k < i ==> trim(#[trigger] lv[k]).len() == 0,
    {
        assert(lv[i as int] == ls@[i as int]@);
        if trim_chars(ls[i].as_slice()).len() > 0 {
            blank = false;
        }
    }
    if blank {
        return None;
    }
    let start: usize = if ls.len() > CAPTURED_LINES { ls.len() - CAPTURED_LINES } else { 0 };
    let ghost tail = lv.skip(start as int);
    let mut out = String::new();
    assert(tail.take(0) =~= Seq::<Seq<char>>::empty());
    for k in start..ls.len()
        invariant
            lv == crate::text::char_views(ls@),
            tail == lv.skip(start as int),
            start <= ls@.len(),
            out@ == shown_lines(tail.take(k - start)),
    {
        let ghost t = tail.take(k - start + 1);
        assert(t.drop_last() =~= tail.take(k - start));
        assert(t.last() == ls@[k as int]@);
        if k > start {
            push_str(&mut out, "\n");
        }
        push_shown_line(&mut out, &ls[k]);
    }
    assert(tail.take(ls@.len() - start) =~= tail);
    proof {
        if ls@.len() <= CAPTURED_LINES {
            assert(lv.skip(0) =~= lv);
        }
    }
    Some((ls.len() - start, out))
}

/// The last lines of a captured stream (see `tail_of_text`).
pub fn tail_lines(bytes: &[u8]) -> (r: Option<(usize, String)>)
    ensures
        match tail_spec(utf8_lossy(bytes@)) {
            None => r is None,
            Some((n, t)) => r matches Some((k, s)) && k == n && s@ == t,
        },
        vstd::utf8::valid_utf8(bytes@) ==> match tail_spec(vstd::utf8::decode_utf8(bytes@)) {
            None => r is None,
            Some((n, t)) => r matches Some((k, s)) && k == n && s@ == t,
        },
{
    let text = decode_lossy(bytes);
    tail_of_text(text.as_str())
}

/// The section of one stream in the report of a failed run.
pub open spec fn section(name: Seq<char>, text: Seq<char>) -> Seq<char> {
    match tail_spec(text) {
        Some((n, t)) => "──── "@ + name + " (last "@ + decimal(n) + " lines) ────\n"@ + t + "\n"@,
        None => Seq::empty(),
    }
}

/// The captured stderr and stdout of a failed run (as text), for an error
/// or warning.
pub open spec fn captured_text(stderr: Seq<char>, stdout: Seq<char>) -> Seq<char> {
    let s = section("stderr"@, stderr) + section("stdout"@, stdout);
    if s.len() == 0 { "(the command produced no output)\n"@ } else { s }
}

fn push_section(out: &mut String, name: &str, text: &str)
    ensures
        final(out)@ == old(out)@ + section(name@, text@),
{
    match tail_of_text(text) {
        Some((count, lines)) => {
            push_str(out, "──── ");
            push_str(out, name);
            push_str(out, " (last ");
            push_decimal(out, count as u64);
            push_str(out, " lines) ────\n");
            push_str(out, lines.as_str());
            push_str(out, "\n");
        },
        None => {},
    }
}

/// The report of the captured stderr and stdout texts of a failed run.
pub fn format_captured_text(stderr: &str, stdout: &str) -> (s: String)
    ensures
        s@ == captured_text(stderr@, stdout@),
{
    let mut out = String::new();
    push_section(&mut out, "stderr", stderr);
    push_section(&mut out, "stdout", stdout);
    if chars_of(out.as_str()).len() == 0 {
        push_str(&mut out, "(the command produced no output)\n");
    }
    out
}

/// The captured stderr and stdout of a failed run, for an error or warning.
pub fn format_captured_output(captured: &crate::timer::CapturedOutput) -> (s: String)
    ensures
        s@ == captured_text(utf8_lossy(captured.stderr@), utf8_lossy(captured.stdout@)),
        vstd::utf8::valid_utf8(captured.stderr@) && vstd::utf8::valid_utf8(captured.stdout@) ==> s@
            == captured_text(
            vstd::utf8::decode_utf8(captured.stderr@),
            vstd::utf8::decode_utf8(captured.stdout@),
        ),
{
    let err = decode_lossy(captured.stderr.as_slice());
    let out = decode_lossy(captured.stdout.as_slice());
    format_captured_text(err.as_str(), out.as_str())
}

/// The position of the first white space in `s`, or its length.
pub open spec fn first_ws(s: Seq<char>) -> nat
    decreases s.len(),
{
    if s.len() == 0 || is_ws(s[0]) { 0 } else { 1 + first_ws(s.skip(1)) }
}

/// `cmd.exe /C ./app.exe` fails: cmd only understands backslashes in the
/// program path. The forward slashes of a relative program path (`./…`,
/// `../…`) become backslashes; the arguments are left untouched.
pub open spec fn normalized_for_cmd(s: Seq<char>) -> Seq<char> {
    if crate::text::starts_with(s, "./"@) || crate::text::starts_with(s, "../"@) {
        let end = first_ws(s);
        crate::export::markup::replace_char(s.take(end as int), '/', "\\"@) + s.skip(end as int)
    } else {
        s
    }
}

/// Rewrite the forward slashes of a relative program path for `cmd.exe`.
pub fn normalize_relative_command_path_for_cmd(command_line: &str) -> (r: String)
    ensures
        r@ == normalized_for_cmd(command_line@),
{
    let cs = chars_of(command_line);
    let relative = crate::text::occurs_at_exec(cs.as_slice(), 0, chars_of("./").as_slice())
        || crate::text::occurs_at_exec(cs.as_slice(), 0, chars_of("../").as_slice());
    if !relative {
        return string_from_chars(cs.as_slice());
    }
    let mut end: usize = 0;
    assert(cs@.skip(0) =~= cs@);
    while end < cs.len() && !is_ws_exec(cs[end])
        invariant
            end <= cs@.len(),
            first_ws(cs@) == end + first_ws(cs@.skip(end as int)),
        decreases cs.len() - end,
    {
        assert(cs@.skip(end as int).skip(1) =~= cs@.skip(end + 1));
        end += 1;
    }
    let head = string_from_chars(crate::text::chars_range(cs.as_slice(), 0, end).as_slice());
    let rest = crate::text::chars_range(cs.as_slice(), end, cs.len());
    let mut r = String::new();
    crate::export::markup::push_replaced(&mut r, head.as_str(), '/', "\\");
    push_str(&mut r, string_from_chars(rest.as_slice()).as_str());
    assert(head@ =~= cs@.take(end as int));
    assert(rest@ =~= cs@.skip(end as int));
    r
}

/// The executor of `--debug-mode`, which simulates `sleep <seconds>`
/// commands instead of running them.
#[derive(Debug, Clone)]
pub struct MockExecutor {
    pub shell: Option<String>,
    pub timeout: Option<std::time::Duration>,
}

impl MockExecutor {
    pub fn new(shell: Option<String>, timeout: Option<std::time::Duration>) -> (m: Self)
        ensures
            m.shell == shell,
            m.timeout == timeout,
    {
        MockExecutor { shell, timeout }
    }

    /// `--debug-mode` runs nothing: it only understands commands of the form
    /// `sleep <seconds>`. The text of the seconds (trimmed; the caller parses
    /// the number), or none for another command.
    pub fn sleep_seconds_text(command_line: &str) -> (r: Option<String>)
        ensures
            crate::text::starts_with(command_line@, seq!['s', 'l', 'e', 'e', 'p', ' ']) ==> (r matches Some(t)
                && t@ == trim(command_line@.skip(6))),
            !crate::text::starts_with(command_line@, seq!['s', 'l', 'e', 'e', 'p', ' ']) ==> r is None,
    {
        let cs = chars_of(command_line);
        let prefix: Vec<char> = vec!['s', 'l', 'e', 'e', 'p', ' '];
        assert(prefix@ =~= seq!['s', 'l', 'e', 'e', 'p', ' ']);
        if !crate::text::occurs_at_exec(cs.as_slice(), 0, prefix.as_slice()) {
            return None;
        }
        let rest = crate::text::chars_range(cs.as_slice(), 6, cs.len());
        assert(rest@ =~= command_line@.skip(6));
        let t = trim_chars(rest.as_slice());
        Some(string_from_chars(t.as_slice()))
    }

    /// The error for a command that `--debug-mode` cannot simulate.
    pub fn unsupported_command_message(command_line: &str) -> (s: String)
        ensures
            s@ == "'--debug-mode' only simulates commands of the form 'sleep <seconds>', got '"@ + command_line@ + "'"@,
    {
        let mut s = String::new();
        push_str(&mut s, "'--debug-mode' only simulates commands of the form 'sleep <seconds>', got '");
        push_str(&mut s, command_line);
        push_str(&mut s, "'");
        s
    }
}

} // verus!

verus! {

// ------------------------------------------------------------------------
// Output of failed runs (`--show-output-on-failure`)

/// How many failed runs have their output shown.
pub const MAX_FAILED_RUN_OUTPUTS: usize = 3;

/// How a run is named in the warning about its failure.
pub open spec fn run_description(it: BenchmarkIteration) -> Seq<char> {
    match it {
        BenchmarkIteration::Benchmark(i) => "benchmark iteration "@ + crate::text::decimal(i as nat),
        BenchmarkIteration::Warmup(i) => "warmup iteration "@ + crate::text::decimal(i as nat),
        BenchmarkIteration::NonBenchmarkRun => "a non-benchmark run"@,
    }
}

/// The warning about a failed run whose failure is ignored, given how many
/// such warnings were shown before: the command and its output for the
/// first few, one note that no more are shown, and nothing after that.
pub open spec fn failed_run_warning_text(shown: nat, name: Seq<char>, it: BenchmarkIteration, output: Seq<char>) -> Option<Seq<char>> {
    if shown < MAX_FAILED_RUN_OUTPUTS {
        Some("'"@ + name + "' failed in "@ + run_description(it) + " (ignored):\n"@ + output)
    } else if shown == MAX_FAILED_RUN_OUTPUTS {
        Some("the output of further failed runs is not shown."@)
    } else {
        None
    }
}

/// The warning about a failed run (after `Warning:`), given how many were
/// shown before; the command's name is escaped, and its captured output
/// formatted.
pub fn failed_run_warning(shown: usize, command_name: &str, iteration: BenchmarkIteration, captured: &crate::timer::CapturedOutput) -> (r: Option<String>)
    ensures
        r is Some <==> shown <= MAX_FAILED_RUN_OUTPUTS,
        shown < MAX_FAILED_RUN_OUTPUTS ==> (r matches Some(s) && s@ == failed_run_warning_text(shown as nat,
            crate::util::sanitize::escaped(command_name@), iteration, captured_text(utf8_lossy(captured.stderr@), utf8_lossy(captured.stdout@))).unwrap()),
        shown == MAX_FAILED_RUN_OUTPUTS ==> (r matches Some(s) && s@ == "the output of further failed runs is not shown."@),
{
    if shown < MAX_FAILED_RUN_OUTPUTS {
        let mut s = String::new();
        push_str(&mut s, "'");
        let name = crate::util::sanitize::escape_control_chars(command_name);
        match name {
            std::borrow::Cow::Borrowed(b) => push_str(&mut s, b),
            std::borrow::Cow::Owned(o) => push_str(&mut s, o.as_str()),
        }
        push_str(&mut s, "' failed in ");
        match iteration {
            BenchmarkIteration::Benchmark(i) => {
                push_str(&mut s, "benchmark iteration ");
                crate::text::push_decimal(&mut s, i);
            },
            BenchmarkIteration::Warmup(i) => {
                push_str(&mut s, "warmup iteration ");
                crate::text::push_decimal(&mut s, i);
            },
            BenchmarkIteration::NonBenchmarkRun => {
                push_str(&mut s, "a non-benchmark run");
            },
        }
        push_str(&mut s, " (ignored):\n");
        let out = format_captured_output(captured);
        push_str(&mut s, out.as_str());
        Some(s)
    } else if shown == MAX_FAILED_RUN_OUTPUTS {
        let mut s = String::new();
        push_str(&mut s, "the output of further failed runs is not shown.");
        Some(s)
    } else {
        None
    }
}

} // verus!

verus! {

// ------------------------------------------------------------------------
// Runs that did not succeed

/// Whether a run that did not succeed, with the exit code `code` (`None`
/// where a signal ended it), stops the benchmark: always by default, never
/// with `-i`, and with `-i CODES` unless its code is one of them.
pub open spec fn failure_is_fatal_spec(action: CmdFailureAction, code: Option<i32>) -> bool {
    match action {
        CmdFailureAction::RaiseError => true,
        CmdFailureAction::IgnoreAllFailures => false,
        CmdFailureAction::IgnoreSpecificFailures(codes) => match code {
            Some(c) => !codes@.contains(c),
            None => true,
        },
    }
}

/// Whether a run that did not succeed stops the benchmark.
pub fn failure_is_fatal(action: &CmdFailureAction, code: Option<i32>) -> (r: bool)
    ensures
        r == failure_is_fatal_spec(*action, code),
{
    match action {
        CmdFailureAction::RaiseError => true,
        CmdFailureAction::IgnoreAllFailures => false,
        CmdFailureAction::IgnoreSpecificFailures(codes) => match code {
            None => true,
            Some(c) => {
                let ghost v = codes@;
                assert(failure_is_fatal_spec(*action, code) == !v.contains(c));
                let mut i: usize = 0;
                while i < codes.len()
                    invariant
                        i <= codes.len(),
                        v == codes@,
                        failure_is_fatal_spec(*action, code) == !v.contains(c),
                        forall|j: int| 0 <= j < i ==> codes@[j] != c,
                    decreases codes.len() - i,
                {
                    if codes[i] == c {
                        assert(codes@[i as int] == c);
                        return false;
                    }
                    i += 1;
                }
                true
            },
        },
    }
}

/// Whether a metric that could not be read from a run's output stops the
/// benchmark: every failure action but ignoring all failures says so.
pub fn metric_failure_is_fatal(action: &CmdFailureAction) -> (r: bool)
    ensures
        r == !(*action is IgnoreAllFailures),
{
    match action {
        CmdFailureAction::IgnoreAllFailures => false,
        _ => true,
    }
}

/// How a run is named in the error that stops the benchmark.
pub open spec fn failure_moment(it: BenchmarkIteration) -> Seq<char> {
    match it {
        BenchmarkIteration::NonBenchmarkRun => "a non-benchmark run"@,
        BenchmarkIteration::Warmup(i) => if i == 0 {
            "the first warmup run"@
        } else {
            "warmup iteration "@ + decimal(i as nat)
        },
        BenchmarkIteration::Benchmark(i) => if i == 0 {
            "the first benchmark run"@
        } else {
            "benchmark iteration "@ + decimal(i as nat)
        },
    }
}

/// Why a run failed: its output did not match `--until`, a signal ended
/// it, or it exited with a code other than zero.
pub open spec fn failure_cause(until_matched: Option<bool>, code: Option<i32>) -> Seq<char> {
    if until_matched == Some(false) {
        "Command exited without matching '--until' pattern"@
    } else {
        match code {
            None => "The process has been terminated by a signal"@,
            Some(c) => "Command terminated with non-zero exit code "@ + crate::text::signed_decimal(c as int),
        }
    }
}

/// The error that stops the benchmark after a failed run; with the run's
/// captured output where there is one, else with a hint to show it.
pub open spec fn failure_message_text(cause: Seq<char>, it: BenchmarkIteration, captured: Option<Seq<char>>) -> Seq<char> {
    let head = cause + " in "@ + failure_moment(it)
        + ". Use the '-i'/'--ignore-exit-code' option if you want to ignore this."@;
    match captured {
        Some(out) => head + "\n"@ + out,
        None => head
            + " Alternatively, use the '--show-output-on-failure' (or '--show-output') option to debug what went wrong."@,
    }
}

fn push_failure_moment(s: &mut String, it: BenchmarkIteration)
    ensures
        final(s)@ == old(s)@ + failure_moment(it),
{
    match it {
        BenchmarkIteration::NonBenchmarkRun => push_str(s, "a non-benchmark run"),
        BenchmarkIteration::Warmup(i) => if i == 0 {
            push_str(s, "the first warmup run");
        } else {
            push_str(s, "warmup iteration ");
            push_decimal(s, i);
        },
        BenchmarkIteration::Benchmark(i) => if i == 0 {
            push_str(s, "the first benchmark run");
        } else {
            push_str(s, "benchmark iteration ");
            push_decimal(s, i);
        },
    }
}

/// The error that stops the benchmark after a run that did not succeed.
pub fn failure_message(
    until_matched: Option<bool>,
    code: Option<i32>,
    iteration: BenchmarkIteration,
    captured: Option<&crate::timer::CapturedOutput>,
) -> (s: String)
    ensures
        s@ == failure_message_text(failure_cause(until_matched, code), iteration, match captured {
            Some(c) => Some(captured_text(utf8_lossy(c.stderr@), utf8_lossy(c.stdout@))),
            None => None,
        }),
{
    let mut s = String::new();
    if until_matched == Some(false) {
        push_str(&mut s, "Command exited without matching '--until' pattern");
    } else {
        match code {
            None => push_str(&mut s, "The process has been terminated by a signal"),
            Some(c) => {
                push_str(&mut s, "Command terminated with non-zero exit code ");
                crate::parameter::push_signed_decimal(&mut s, c);
            },
        }
    }
    push_str(&mut s, " in ");
    push_failure_moment(&mut s, iteration);
    push_str(&mut s, ". Use the '-i'/'--ignore-exit-code' option if you want to ignore this.");
    match captured {
        Some(c) => {
            push_str(&mut s, "\n");
            let out = format_captured_output(c);
            push_str(&mut s, out.as_str());
        },
        None => {
            push_str(&mut s, " Alternatively, use the '--show-output-on-failure' (or '--show-output') option to debug what went wrong.");
        },
    }
    s
}

/// The error (or, where failures are ignored, the warning after
/// `Warning:`) about a metric that could not be read from a run's output.
pub open spec fn metric_failure_text(name: Seq<char>, it: BenchmarkIteration, fatal: bool) -> Seq<char> {
    if fatal {
        "Metric '"@ + name + "' could not be extracted from output in "@ + failure_moment(it)
            + ". Use the '-i'/'--ignore-failure' option if you want to ignore this."@
    } else {
        "metric '"@ + name + "' could not be extracted from output in "@ + failure_moment(it) + " (ignored)."@
    }
}

/// The error or warning about a metric that could not be read from a run's
/// output, and whether it stops the benchmark.
pub fn metric_failure(action: &CmdFailureAction, name: &str, iteration: BenchmarkIteration) -> (r: (bool, String))
    ensures
        r.0 == !(*action is IgnoreAllFailures),
        r.1@ == metric_failure_text(name@, iteration, r.0),
{
    let fatal = metric_failure_is_fatal(action);
    let mut s = String::new();
    if fatal {
        push_str(&mut s, "Metric '");
    } else {
        push_str(&mut s, "metric '");
    }
    push_str(&mut s, name);
    push_str(&mut s, "' could not be extracted from output in ");
    push_failure_moment(&mut s, iteration);
    if fatal {
        push_str(&mut s, ". Use the '-i'/'--ignore-failure' option if you want to ignore this.");
    } else {
        push_str(&mut s, " (ignored).");
    }
    (fatal, s)
}

} // verus!

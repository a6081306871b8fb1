//! The settings of a benchmark session that the command line decides.
use vstd::prelude::*;
use crate::command::{shell_join, shell_join_spec, shell_split, shell_split_spec};
use crate::text::{chars_of, chars_eq, parse_i32, parse_i32_spec, parse_u64, push_decimal, push_str, split_char, split_chars, string_from_chars, trim, trim_chars, views};
use crate::util::platform::Os;

verus! {

/// Why the options are invalid.
#[derive(Debug, Clone, PartialEq, Eq)]
pub enum OptionsError {
    /// `--shell` has an unterminated quote
    ShellParseError,
    /// `--shell` names no program
    EmptyShell,
    /// `--runs 0` or `--max-runs 0` (the option's name)
    ZeroRuns(String),
    /// `--min-runs` above `--max-runs`
    EmptyRunsRange,
    /// An option (its name) is not an integer
    IntParsingError(String),
    /// `--output` is neither `null`, `pipe`, `inherit` nor a path with a
    /// directory part
    UnknownOutputPolicy(String),
    /// The file given with `--input` does not exist (its path)
    StdinDataFileDoesNotExist(String),
    /// `--omit-failed-runs` without `--ignore-failure`: a failed run would
    /// stop the benchmark before it could be omitted
    OmitFailedRunsRequiresIgnoreFailure,
}

/// The message of an options error.
pub open spec fn options_error_text(e: OptionsError) -> Seq<char> {
    match e {
        OptionsError::ShellParseError => "Could not parse the '--shell' argument: missing closing quote"@,
        OptionsError::EmptyShell => "Empty command at '--shell' option"@,
        OptionsError::ZeroRuns(name) => "'--"@ + name@ + "' needs to be at least one"@,
        OptionsError::EmptyRunsRange => "Minimum number of runs is larger than maximum number of runs"@,
        OptionsError::IntParsingError(name) => "Could not parse the '--"@ + name@ + "' argument as an integer"@,
        OptionsError::UnknownOutputPolicy(v) => "Unknown output policy '"@ + v@ + "'. Use './"@ + v@
            + "' to output to a file named '"@ + v@ + "'."@,
        OptionsError::StdinDataFileDoesNotExist(p) => "The file '"@ + p@ + "' specified as '--input' does not exist"@,
        OptionsError::OmitFailedRunsRequiresIgnoreFailure => "The '--omit-failed-runs' option requires '--ignore-failure'"@,
    }
}

impl OptionsError {
    /// The message shown to the user.
    pub fn message(&self) -> (s: String)
        ensures
            s@ == options_error_text(*self),
    {
        let mut s = String::new();
        match self {
            OptionsError::ShellParseError => push_str(&mut s, "Could not parse the '--shell' argument: missing closing quote"),
            OptionsError::EmptyShell => push_str(&mut s, "Empty command at '--shell' option"),
            OptionsError::ZeroRuns(name) => {
                push_str(&mut s, "'--");
                push_str(&mut s, name.as_str());
                push_str(&mut s, "' needs to be at least one");
            },
            OptionsError::EmptyRunsRange => push_str(&mut s, "Minimum number of runs is larger than maximum number of runs"),
            OptionsError::IntParsingError(name) => {
                push_str(&mut s, "Could not parse the '--");
                push_str(&mut s, name.as_str());
                push_str(&mut s, "' argument as an integer");
            },
            OptionsError::UnknownOutputPolicy(value) => {
                push_str(&mut s, "Unknown output policy '");
                push_str(&mut s, value.as_str());
                push_str(&mut s, "'. Use './");
                push_str(&mut s, value.as_str());
                push_str(&mut s, "' to output to a file named '");
                push_str(&mut s, value.as_str());
                push_str(&mut s, "'.");
            },
            OptionsError::StdinDataFileDoesNotExist(path) => {
                push_str(&mut s, "The file '");
                push_str(&mut s, path.as_str());
                push_str(&mut s, "' specified as '--input' does not exist");
            },
            OptionsError::OmitFailedRunsRequiresIgnoreFailure => {
                push_str(&mut s, "The '--omit-failed-runs' option requires '--ignore-failure'");
            },
        }
        s
    }
}

/// The shell that runs commands by default on an operating system.
pub open spec fn default_shell_name(os: Os) -> Seq<char> {
    if os == Os::Windows { "cmd.exe"@ } else { "sh"@ }
}

/// Shell to use for executing benchmarked commands
#[derive(Debug, PartialEq, Eq)]
pub enum Shell {
    /// Default shell command
    Default(&'static str),
    /// Custom shell command specified via --shell
    Custom(Vec<String>),
}

impl Shell {
    /// The default shell of the operating system.
    pub fn default_for(os: Os) -> (s: Shell)
        ensures
            s matches Shell::Default(name) && name@ == default_shell_name(os),
    {
        if os == Os::Windows {
            Shell::Default("cmd.exe")
        } else {
            Shell::Default("sh")
        }
    }

    /// Parse given string as shell command line
    pub fn parse_from_str(s: &str) -> (r: Result<Shell, OptionsError>)
        ensures
            match shell_split_spec(s@) {
                None => r == Err::<Shell, OptionsError>(OptionsError::ShellParseError),
                Some(words) => if words.len() == 0 || words[0].len() == 0 {
                    r == Err::<Shell, OptionsError>(OptionsError::EmptyShell)
                } else {
                    r matches Ok(Shell::Custom(v)) && views(v@) == words
                },
            },
    {
        let v = match shell_split(s) {
            Some(v) => v,
            None => return Err(OptionsError::ShellParseError),
        };
        if v.len() == 0 || chars_of(v[0].as_str()).len() == 0 {
            proof {
                if v@.len() > 0 {
                    assert(views(v@)[0] == v@[0]@);
                }
            }
            return Err(OptionsError::EmptyShell);
        }
        assert(views(v@)[0] == v@[0]@);
        Ok(Shell::Custom(v))
    }

    /// The shell as it is shown (`Display`): its name, or the shell-quoted
    /// command line.
    pub fn to_text(&self) -> (r: String)
        ensures
            r@ == match *self {
                Shell::Default(name) => name@,
                Shell::Custom(words) => shell_join_spec(views(words@)),
            },
            self matches Shell::Custom(words) ==> shell_split_spec(r@) == Some(views(words@)),
    {
        match self {
            Shell::Default(name) => {
                let mut r = String::new();
                push_str(&mut r, name);
                r
            },
            Shell::Custom(words) => shell_join(words),
        }
    }
}

/// Action to take when an executed command fails.
#[derive(Debug, Clone, PartialEq, Eq)]
pub enum CmdFailureAction {
    /// Exit with an error message
    RaiseError,
    /// Ignore all non-zero exit codes
    IgnoreAllFailures,
    /// Ignore specific exit codes
    IgnoreSpecificFailures(Vec<i32>),
}

/// The exit codes of `--ignore-failure=CODES`, or `None` where one is not
/// an integer.
pub open spec fn exit_codes(parts: Seq<Seq<char>>) -> Option<Seq<i32>>
    decreases parts.len(),
{
    if parts.len() == 0 {
        Some(Seq::empty())
    } else {
        match (exit_codes(parts.drop_last()), parse_i32_spec(trim(parts.last()))) {
            (Some(cs), Some(c)) => Some(cs.push(c)),
            _ => None,
        }
    }
}

/// `--ignore-failure[=MODE]`: `all-non-zero` (or nothing) ignores every
/// failure; otherwise a comma-separated list of exit codes.
pub fn parse_ignore_failure(mode: &str) -> (r: Result<CmdFailureAction, OptionsError>)
    ensures
        (mode@ == "all-non-zero"@ || mode@.len() == 0) ==> r == Ok::<CmdFailureAction, OptionsError>(CmdFailureAction::IgnoreAllFailures),
        !(mode@ == "all-non-zero"@ || mode@.len() == 0) ==> match exit_codes(split_char(mode@, ',')) {
            Some(codes) => r matches Ok(CmdFailureAction::IgnoreSpecificFailures(v)) && v@ == codes,
            None => r matches Err(OptionsError::IntParsingError(name)) && name@ == "ignore-failure"@,
        },
{
    let cs = chars_of(mode);
    let all = chars_of("all-non-zero");
    if cs.len() == 0 || chars_eq(cs.as_slice(), all.as_slice()) {
        return Ok(CmdFailureAction::IgnoreAllFailures);
    }
    let parts = split_chars(cs.as_slice(), ',');
    let ghost pv = crate::text::char_views(parts@);
    let mut codes: Vec<i32> = Vec::new();
    for i in 0..parts.len()
        invariant
            !(mode@ == "all-non-zero"@ || mode@.len() == 0),
            pv == crate::text::char_views(parts@),
            pv == split_char(mode@, ','),
            exit_codes(pv.take(i as int)) == Some(codes@),
    {
        let ghost t = pv.take(i + 1);
        assert(t.drop_last() =~= pv.take(i as int));
        assert(t.last() == parts@[i as int]@);
        let item = trim_chars(parts[i].as_slice());
        let text = string_from_chars(item.as_slice());
        match parse_i32(text.as_str()) {
            Some(c) => codes.push(c),
            None => {
                proof { lemma_exit_codes_none(pv, i + 1); }
                let mut name = String::new();
                push_str(&mut name, "ignore-failure");
                return Err(OptionsError::IntParsingError(name));
            },
        }
    }
    assert(pv.take(parts@.len() as int) =~= pv);
    Ok(CmdFailureAction::IgnoreSpecificFailures(codes))
}

proof fn lemma_exit_codes_none(pv: Seq<Seq<char>>, i: int)
    requires
        0 <= i <= pv.len(),
        exit_codes(pv.take(i)) is None,
    ensures
        exit_codes(pv) is None,
    decreases pv.len() - i,
{
    if i < pv.len() {
        let t = pv.take(i + 1);
        assert(t.drop_last() =~= pv.take(i));
        lemma_exit_codes_none(pv, i + 1);
    } else {
        assert(pv.take(i) =~= pv);
    }
}

/// Output style type option
#[derive(Debug, Clone, Copy, PartialEq, Eq, Structural)]
pub enum OutputStyleOption {
    /// Do not output with colors or any special formatting
    Basic,
    /// Output with full color and formatting
    Full,
    /// Keep elements such as progress bar, but use no coloring
    NoColor,
    /// Keep coloring, but use no progress bar
    Color,
    /// Disable all the output
    Disabled,
}

/// What the terminal says about colors.
pub open spec fn style_of(style: Option<Seq<char>>, inherit_output: bool, stdout_is_terminal: bool,
    term: Option<Seq<char>>, no_color: Option<Seq<char>>, os: Os) -> OutputStyleOption {
    match style {
        Some(s) => if s == "full"@ {
            OutputStyleOption::Full
        } else if s == "basic"@ {
            OutputStyleOption::Basic
        } else if s == "nocolor"@ {
            OutputStyleOption::NoColor
        } else if s == "color"@ {
            OutputStyleOption::Color
        } else if s == "none"@ {
            OutputStyleOption::Disabled
        } else {
            auto_style(inherit_output, stdout_is_terminal, term, no_color, os)
        },
        None => auto_style(inherit_output, stdout_is_terminal, term, no_color, os),
    }
}

/// The style when `--style` does not choose one: basic when the output of
/// commands is shown or stdout is no terminal, no colors for a dumb terminal
/// (or none, except on Windows) or with `NO_COLOR`, full otherwise.
pub open spec fn auto_style(inherit_output: bool, stdout_is_terminal: bool, term: Option<Seq<char>>,
    no_color: Option<Seq<char>>, os: Os) -> OutputStyleOption {
    if inherit_output || !stdout_is_terminal {
        OutputStyleOption::Basic
    } else if (match term { Some(t) => t == "unknown"@ || t == "dumb"@, None => os != Os::Windows })
        || (match no_color { Some(n) => n.len() > 0, None => false }) {
        OutputStyleOption::NoColor
    } else {
        OutputStyleOption::Full
    }
}

fn text_eq(a: &str, b: &str) -> (r: bool)
    ensures
        r == (a@ == b@),
{
    let x = chars_of(a);
    let y = chars_of(b);
    chars_eq(x.as_slice(), y.as_slice())
}

fn opt_is(o: &Option<String>, lit: &str) -> (r: bool)
    ensures
        r == (o matches Some(s) && s@ == lit@),
{
    match o {
        Some(s) => {
            let a = chars_of(s.as_str());
            let b = chars_of(lit);
            chars_eq(a.as_slice(), b.as_slice())
        },
        None => false,
    }
}

/// The output style from `--style`, or else from the terminal (`TERM`,
/// `NO_COLOR`).
pub fn output_style(style: &Option<String>, inherit_output: bool, stdout_is_terminal: bool,
    term: &Option<String>, no_color: &Option<String>, os: Os) -> (r: OutputStyleOption)
    ensures
        r == style_of(crate::command::opt_view(*style), inherit_output, stdout_is_terminal,
            crate::command::opt_view(*term), crate::command::opt_view(*no_color), os),
{
    if opt_is(style, "full") {
        OutputStyleOption::Full
    } else if opt_is(style, "basic") {
        OutputStyleOption::Basic
    } else if opt_is(style, "nocolor") {
        OutputStyleOption::NoColor
    } else if opt_is(style, "color") {
        OutputStyleOption::Color
    } else if opt_is(style, "none") {
        OutputStyleOption::Disabled
    } else if inherit_output || !stdout_is_terminal {
        OutputStyleOption::Basic
    } else {
        let dumb = match term {
            Some(_) => opt_is(term, "unknown") || opt_is(term, "dumb"),
            None => os != Os::Windows,
        };
        let no_color_set = match no_color {
            Some(n) => chars_of(n.as_str()).len() > 0,
            None => false,
        };
        if dumb || no_color_set {
            OutputStyleOption::NoColor
        } else {
            OutputStyleOption::Full
        }
    }
}

#[derive(Debug, Clone, Copy, PartialEq, Eq, Structural)]
pub enum SortOrder {
    Command,
    MeanTime,
}

/// The sort orders of the speed comparison and of the exports, from
/// `--sort` (`auto`, `command`, `mean-time`; `None` for another value).
pub fn sort_orders(sort: &Option<String>) -> (r: Option<(SortOrder, SortOrder)>)
    ensures
        r == match crate::command::opt_view(*sort) {
            None => Some((SortOrder::MeanTime, SortOrder::Command)),
            Some(s) => if s == "auto"@ {
                Some((SortOrder::MeanTime, SortOrder::Command))
            } else if s == "command"@ {
                Some((SortOrder::Command, SortOrder::Command))
            } else if s == "mean-time"@ {
                Some((SortOrder::MeanTime, SortOrder::MeanTime))
            } else {
                None
            },
        },
{
    if sort.is_none() || opt_is(sort, "auto") {
        Some((SortOrder::MeanTime, SortOrder::Command))
    } else if opt_is(sort, "command") {
        Some((SortOrder::Command, SortOrder::Command))
    } else if opt_is(sort, "mean-time") {
        Some((SortOrder::MeanTime, SortOrder::MeanTime))
    } else {
        None
    }
}

/// Bounds for the number of benchmark runs
#[derive(Debug, Clone, Copy, PartialEq, Eq, Structural)]
pub struct RunBounds {
    /// Minimum number of benchmark runs
    pub min: u64,
    /// Maximum number of benchmark runs
    pub max: Option<u64>,
}

impl Default for RunBounds {
    fn default() -> (b: RunBounds)
        ensures
            b == (RunBounds { min: 10, max: None }),
    {
        RunBounds { min: 10, max: None }
    }
}

/// The run bounds from `--min-runs` and `--max-runs` (without `--runs`):
/// a maximum below the default minimum lowers the minimum.
pub open spec fn bounds_of(min_runs: Option<u64>, max_runs: Option<u64>) -> Result<RunBounds, OptionsError> {
    match (min_runs, max_runs) {
        (Some(a), None) => Ok(RunBounds { min: a, max: None }),
        (None, Some(b)) => Ok(RunBounds { min: if b < 10 { b } else { 10 }, max: Some(b) }),
        (Some(a), Some(b)) => if a > b { Err(OptionsError::EmptyRunsRange) } else { Ok(RunBounds { min: a, max: Some(b) }) },
        (None, None) => Ok(RunBounds { min: 10, max: None }),
    }
}

/// What `--min-runs` and `--max-runs` mean: an explicit minimum is the lower
/// bound, an explicit maximum is the upper bound (and lowers the default
/// minimum of 10 where it is below it), no maximum leaves the runs
/// unbounded, and the two are refused together exactly when the minimum
/// exceeds the maximum.
pub proof fn lemma_run_bounds_follow_the_options(min_runs: Option<u64>, max_runs: Option<u64>)
    ensures
        bounds_of(min_runs, max_runs) is Err <==> (min_runs matches Some(a) && max_runs matches Some(b) && a > b),
        bounds_of(min_runs, max_runs) matches Ok(r) ==> {
            &&& r.max == max_runs
            &&& min_runs matches Some(a) ==> r.min == a
            &&& min_runs is None && max_runs is None ==> r.min == 10
            &&& min_runs is None && max_runs is Some ==> r.min == (if max_runs->0 < 10 { max_runs->0 } else { 10 })
            &&& r.max matches Some(m) ==> r.min <= m
        },
{
}

/// The run bounds from `--min-runs`, `--max-runs` and `--runs`.
pub fn resolve_run_bounds(min_runs: Option<u64>, max_runs: Option<u64>, runs: Option<u64>) -> (r: Result<RunBounds, OptionsError>)
    ensures
        runs == Some(0u64) ==> (r matches Err(OptionsError::ZeroRuns(n)) && n@ == "runs"@),
        (runs matches Some(k) && k > 0) ==> r == Ok::<RunBounds, OptionsError>(RunBounds { min: runs->0, max: runs }),
        runs is None && max_runs == Some(0u64) ==> (r matches Err(OptionsError::ZeroRuns(n)) && n@ == "max-runs"@),
        runs is None && max_runs != Some(0u64) ==> r == bounds_of(min_runs, max_runs),
{
    proof {
        reveal_strlit("runs");
        reveal_strlit("max-runs");
    }
    match runs {
        Some(k) => {
            if k == 0 {
                let mut n = String::new();
                push_str(&mut n, "runs");
                return Err(OptionsError::ZeroRuns(n));
            }
            return Ok(RunBounds { min: k, max: Some(k) });
        },
        None => {},
    }
    if max_runs == Some(0u64) {
        let mut n = String::new();
        push_str(&mut n, "max-runs");
        return Err(OptionsError::ZeroRuns(n));
    }
    match (min_runs, max_runs) {
        (Some(a), None) => Ok(RunBounds { min: a, max: None }),
        (None, Some(b)) => Ok(RunBounds { min: if b < 10 { b } else { 10 }, max: Some(b) }),
        (Some(a), Some(b)) => if a > b {
            Err(OptionsError::EmptyRunsRange)
        } else {
            Ok(RunBounds { min: a, max: Some(b) })
        },
        (None, None) => Ok(RunBounds { min: 10, max: None }),
    }
}

/// Benchmark execution schedule mode
#[derive(Debug, Clone, Copy, PartialEq, Eq, Structural)]
pub enum ScheduleMode {
    /// Execute all iterations for one command before proceeding to the next
    Grouped,
    /// Interleave iterations across all commands in round-robin fashion
    RoundRobin,
}

impl Default for ScheduleMode {
    fn default() -> (m: ScheduleMode)
        ensures
            m == ScheduleMode::Grouped,
    {
        ScheduleMode::Grouped
    }
}

/// `--round-robin`, or `--schedule round-robin` (or `interleaved`).
pub fn schedule_mode(round_robin: bool, schedule: &Option<String>) -> (m: ScheduleMode)
    ensures
        m == if round_robin || (crate::command::opt_view(*schedule) matches Some(s) && (s == "round-robin"@ || s == "interleaved"@)) {
            ScheduleMode::RoundRobin
        } else {
            ScheduleMode::Grouped
        },
{
    if round_robin || opt_is(schedule, "round-robin") || opt_is(schedule, "interleaved") {
        ScheduleMode::RoundRobin
    } else {
        ScheduleMode::Grouped
    }
}

/// Where the input of benchmarked commands comes from.
#[derive(Debug, Clone, PartialEq, Eq)]
pub enum CommandInputPolicy {
    /// Read from the null device
    Null,
    /// Read input from a file (its path)
    File(String),
}

/// How to handle the output of benchmarked commands
#[derive(Debug, Clone, PartialEq, Eq)]
pub enum CommandOutputPolicy {
    /// Redirect output to the null device
    Null,
    /// Feed output through a pipe before discarding it
    Pipe,
    /// Redirect output to a file (its path)
    File(String),
    /// Show command output on the terminal
    Inherit,
}

/// `--input VALUE`: `null` (or no option) reads from the null device, any
/// other value is the path of a file, which must exist; `exists` tells
/// whether it does.
pub fn input_policy(input: &Option<String>, exists: bool) -> (r: Result<CommandInputPolicy, OptionsError>)
    ensures
        match input {
            None => r == Ok::<CommandInputPolicy, OptionsError>(CommandInputPolicy::Null),
            Some(v) => if v@ == "null"@ {
                r == Ok::<CommandInputPolicy, OptionsError>(CommandInputPolicy::Null)
            } else if exists {
                r matches Ok(CommandInputPolicy::File(p)) && p@ == v@
            } else {
                r matches Err(OptionsError::StdinDataFileDoesNotExist(p)) && p@ == v@
            },
        },
{
    match input {
        None => Ok(CommandInputPolicy::Null),
        Some(v) => {
            let null = string_from_chars(chars_of("null").as_slice());
            if *v == null {
                Ok(CommandInputPolicy::Null)
            } else if exists {
                Ok(CommandInputPolicy::File(v.clone()))
            } else {
                Err(OptionsError::StdinDataFileDoesNotExist(v.clone()))
            }
        },
    }
}

/// `--omit-failed-runs` needs failures to be ignored.
pub fn check_omit_failed_runs(omit_failed_runs: bool, action: &CmdFailureAction) -> (r: Result<(), OptionsError>)
    ensures
        r is Err <==> (omit_failed_runs && *action is RaiseError),
        r matches Err(e) ==> e == OptionsError::OmitFailedRunsRequiresIgnoreFailure,
{
    match action {
        CmdFailureAction::RaiseError => if omit_failed_runs {
            Err(OptionsError::OmitFailedRunsRequiresIgnoreFailure)
        } else {
            Ok(())
        },
        _ => Ok(()),
    }
}

/// `--time-unit VALUE`: `microsecond`, `millisecond` or `second`; any other
/// value (or none) leaves the unit to be chosen from the results.
pub open spec fn time_unit_of(value: Option<Seq<char>>) -> Option<crate::util::units::Unit> {
    match value {
        Some(v) => if v == "microsecond"@ {
            Some(crate::util::units::Unit::MicroSecond)
        } else if v == "millisecond"@ {
            Some(crate::util::units::Unit::MilliSecond)
        } else if v == "second"@ {
            Some(crate::util::units::Unit::Second)
        } else {
            None
        },
        None => None,
    }
}

/// The time unit that `--time-unit` asks for.
pub fn time_unit_option(value: &Option<String>) -> (u: Option<crate::util::units::Unit>)
    ensures
        u == time_unit_of(crate::command::opt_view(*value)),
{
    match value {
        None => None,
        Some(v) => {
            let cs = chars_of(v.as_str());
            if chars_eq(cs.as_slice(), chars_of("microsecond").as_slice()) {
                Some(crate::util::units::Unit::MicroSecond)
            } else if chars_eq(cs.as_slice(), chars_of("millisecond").as_slice()) {
                Some(crate::util::units::Unit::MilliSecond)
            } else if chars_eq(cs.as_slice(), chars_of("second").as_slice()) {
                Some(crate::util::units::Unit::Second)
            } else {
                None
            }
        },
    }
}

/// How benchmarked commands are run.
#[derive(Debug, PartialEq, Eq)]
pub enum ExecutorKind {
    Raw,
    Shell(Shell),
    Mock(Option<String>),
}

/// `--output VALUE`: `null`, `pipe`, `inherit`, or a file path, which must
/// have more than one component (`./name` for a file in the current
/// directory); `components` is the number of components of `value`.
pub fn parse_output_policy(value: &str, components: usize) -> (r: Result<CommandOutputPolicy, OptionsError>)
    ensures
        value@ == "null"@ ==> r == Ok::<CommandOutputPolicy, OptionsError>(CommandOutputPolicy::Null),
        value@ == "pipe"@ ==> r == Ok::<CommandOutputPolicy, OptionsError>(CommandOutputPolicy::Pipe),
        value@ == "inherit"@ ==> r == Ok::<CommandOutputPolicy, OptionsError>(CommandOutputPolicy::Inherit),
        value@ != "null"@ && value@ != "pipe"@ && value@ != "inherit"@ && components <= 1
            ==> (r matches Err(OptionsError::UnknownOutputPolicy(v)) && v@ == value@),
        value@ != "null"@ && value@ != "pipe"@ && value@ != "inherit"@ && components > 1
            ==> (r matches Ok(CommandOutputPolicy::File(p)) && p@ == value@),
{
    proof {
        reveal_strlit("null");
        reveal_strlit("pipe");
        reveal_strlit("inherit");
        assert("pipe"@[0] != "null"@[0]);
        assert("inherit"@.len() != "null"@.len());
        assert("inherit"@.len() != "pipe"@.len());
    }
    if text_eq(value, "null") {
        Ok(CommandOutputPolicy::Null)
    } else if text_eq(value, "pipe") {
        Ok(CommandOutputPolicy::Pipe)
    } else if text_eq(value, "inherit") {
        Ok(CommandOutputPolicy::Inherit)
    } else if components <= 1 {
        Err(OptionsError::UnknownOutputPolicy(value.to_string()))
    } else {
        Ok(CommandOutputPolicy::File(value.to_string()))
    }
}

/// How commands are run: without a shell (`-N`, `--shell=none`), by a mock
/// (`--debug-mode`, with the shell's text), or by the default or given shell.
pub fn executor_kind(no_shell: bool, debug_mode: bool, shell: &Option<String>, os: Os) -> (r: Result<ExecutorKind, OptionsError>)
    ensures
        no_shell ==> r == Ok::<ExecutorKind, OptionsError>(ExecutorKind::Raw),
        !no_shell && debug_mode ==> (r matches Ok(ExecutorKind::Mock(m)) && crate::command::opt_view(m) == crate::command::opt_view(*shell)),
        !no_shell && !debug_mode ==> match crate::command::opt_view(*shell) {
            None => r matches Ok(ExecutorKind::Shell(Shell::Default(n))) && n@ == default_shell_name(os),
            Some(s) => if s == "default"@ {
                r matches Ok(ExecutorKind::Shell(Shell::Default(n))) && n@ == default_shell_name(os)
            } else if s == "none"@ {
                r == Ok::<ExecutorKind, OptionsError>(ExecutorKind::Raw)
            } else {
                match shell_split_spec(s) {
                    None => r == Err::<ExecutorKind, OptionsError>(OptionsError::ShellParseError),
                    Some(words) => if words.len() == 0 || words[0].len() == 0 {
                        r == Err::<ExecutorKind, OptionsError>(OptionsError::EmptyShell)
                    } else {
                        r matches Ok(ExecutorKind::Shell(Shell::Custom(v))) && views(v@) == words
                    },
                }
            },
        },
{
    if no_shell {
        return Ok(ExecutorKind::Raw);
    }
    if debug_mode {
        let m = match shell {
            Some(s) => Some(s.clone()),
            None => None,
        };
        return Ok(ExecutorKind::Mock(m));
    }
    match shell {
        None => Ok(ExecutorKind::Shell(Shell::default_for(os))),
        Some(s) => {
            if opt_is(shell, "default") {
                Ok(ExecutorKind::Shell(Shell::default_for(os)))
            } else if opt_is(shell, "none") {
                Ok(ExecutorKind::Raw)
            } else {
                match Shell::parse_from_str(s.as_str()) {
                    Ok(sh) => Ok(ExecutorKind::Shell(sh)),
                    Err(e) => Err(e),
                }
            }
        },
    }
}

/// `n` options given once (or not) or once per benchmark.
pub open spec fn count_fits(len: nat, n: nat) -> bool {
    len <= 1 || len == n
}

/// `--setup` or `--cleanup` uses a parameter of one of the commands.
pub open spec fn uses_parameter(template: Option<Seq<char>>, cs: Seq<crate::command::Command>) -> bool {
    template matches Some(t) && exists|i: int, j: int| 0 <= i < cs.len() && 0 <= j < cs[i].parameters_v().len()
        && crate::text::contains_seq(t, crate::command::key_of(#[trigger] cs[i].parameters_v()[j].0@))
}

/// Whether `template` uses a parameter of the commands.
fn template_uses_parameter(template: &Option<String>, cs: &Vec<crate::command::Command>) -> (r: bool)
    ensures
        r == uses_parameter(crate::command::opt_view(*template), cs@),
{
    match template {
        None => false,
        Some(t) => {
            let tc = chars_of(t.as_str());
            for i in 0..cs.len()
                invariant
                    tc@ == t@,
                    crate::command::opt_view(*template) == Some(t@),
                    forall|a: int, b: int| 0 <= a < i && 0 <= b < cs@[a].parameters_v().len()
                        ==> !crate::text::contains_seq(t@, crate::command::key_of(#[trigger] cs@[a].parameters_v()[b].0@)),
            {
                let ps = cs[i].get_parameters();
                for j in 0..ps.len()
                    invariant
                        tc@ == t@,
                        crate::command::opt_view(*template) == Some(t@),
                        i < cs@.len(),
                        ps@ == cs@[i as int].parameters_v(),
                        forall|a: int, b: int| 0 <= a < i && 0 <= b < cs@[a].parameters_v().len()
                            ==> !crate::text::contains_seq(t@, crate::command::key_of(#[trigger] cs@[a].parameters_v()[b].0@)),
                        forall|b: int| 0 <= b < j ==> !crate::text::contains_seq(t@, crate::command::key_of(#[trigger] ps@[b].0@)),
                {
                    let mut key: Vec<char> = Vec::new();
                    key.push('{');
                    let name = chars_of(ps[j].0.as_str());
                    for k in 0..name.len()
                        invariant
                            key@ == seq!['{'] + name@.take(k as int),
                    {
                        key.push(name[k]);
                        assert(key@ =~= seq!['{'] + name@.take(k + 1));
                    }
                    assert(name@.take(name@.len() as int) =~= name@);
                    key.push('}');
                    assert(key@ =~= crate::command::key_of(ps@[j as int].0@));
                    if crate::text::contains_exec(tc.as_slice(), key.as_slice()) {
                        assert(cs@[i as int].parameters_v()[j as int] == ps@[j as int]);
                        assert(crate::text::contains_seq(t@, crate::command::key_of(cs@[i as int].parameters_v()[j as int].0@)));
                        assert(exists|a: int, b: int| 0 <= a < cs@.len() && 0 <= b < cs@[a].parameters_v().len()
                            && crate::text::contains_seq(t@, crate::command::key_of(#[trigger] cs@[a].parameters_v()[b].0@)));
                        assert(crate::command::opt_view(*template) == Some(t@));
                        assert(uses_parameter(crate::command::opt_view(*template), cs@));
                        return true;
                    }
                }
            }
            false
        },
    }
}

/// The message for a count of an option that does not fit.
pub open spec fn count_text(option: Seq<char>, n: nat) -> Seq<char> {
    "The '--"@ + option + "' option has to be provided just once or N times, where N="@
        + crate::text::decimal(n) + " is the number of benchmark commands (including a potential reference)."@
}

/// The message for a count of `--prepare`, `--conclude` or `--output` that
/// does not fit.
fn count_message(option: &str, n: usize) -> (m: String)
    ensures
        m@ == count_text(option@, n as nat),
{
    let mut m = String::new();
    push_str(&mut m, "The '--");
    push_str(&mut m, option);
    push_str(&mut m, "' option has to be provided just once or N times, where N=");
    push_decimal(&mut m, n as u64);
    push_str(&mut m, " is the number of benchmark commands (including a potential reference).");
    m
}

/// Checks the options that depend on the commands (`n` benchmarks, counting
/// the reference): `--setup`/`--cleanup` with parameters cannot be combined
/// with round-robin scheduling, `--prepare`, `--conclude` and `--output`
/// are given once or once per benchmark. Returns the output policy of each
/// benchmark.
pub fn validate_against_command_list(
    n: usize,
    commands: &Vec<crate::command::Command>,
    schedule: ScheduleMode,
    allow_setup_with_round_robin: bool,
    setup: &Option<String>,
    cleanup: &Option<String>,
    prepare: &Option<Vec<String>>,
    conclude: &Option<Vec<String>>,
    outputs: Vec<CommandOutputPolicy>,
) -> (r: Result<Vec<CommandOutputPolicy>, String>)
    ensures
        n == 0 ==> r == Ok::<Vec<CommandOutputPolicy>, String>(outputs),
        n > 0 && schedule == ScheduleMode::RoundRobin && !allow_setup_with_round_robin
            && (uses_parameter(crate::command::opt_view(*setup), commands@)
                || uses_parameter(crate::command::opt_view(*cleanup), commands@)) ==> r is Err,
        r is Ok && n > 0 ==> (prepare matches Some(p) ==> count_fits(p@.len(), n as nat))
            && (conclude matches Some(c) ==> count_fits(c@.len(), n as nat)),
        n > 0 && !(schedule == ScheduleMode::RoundRobin && !allow_setup_with_round_robin
            && (uses_parameter(crate::command::opt_view(*setup), commands@)
                || uses_parameter(crate::command::opt_view(*cleanup), commands@)))
            && (prepare matches Some(p) ==> count_fits(p@.len(), n as nat))
            && (conclude matches Some(c) ==> count_fits(c@.len(), n as nat)) ==> {
            if outputs@.len() == 1 {
                r matches Ok(v) && v@.len() == n && forall|i: int| 0 <= i < n ==> v@[i] == outputs@[0]
            } else if outputs@.len() == n {
                r == Ok::<Vec<CommandOutputPolicy>, String>(outputs)
            } else {
                r matches Err(m) && m@ == count_text("output"@, n as nat)
            }
        },
{
    if n == 0 {
        return Ok(outputs);
    }
    if schedule == ScheduleMode::RoundRobin && !allow_setup_with_round_robin {
        if template_uses_parameter(setup, commands) || template_uses_parameter(cleanup, commands) {
            let mut m = String::new();
            push_str(&mut m, "The '--setup' and/or '--cleanup' options differ between benchmarks (due to parameter substitution) and cannot be combined with '--schedule round-robin'. Setup runs once per benchmark batch, but round-robin interleaves runs across benchmarks. Use '--prepare' for per-run state, or use the default grouped schedule.");
            return Err(m);
        }
    }
    match prepare {
        Some(p) => {
            if !(p.len() <= 1 || p.len() == n) {
                return Err(count_message("prepare", n));
            }
        },
        None => {},
    }
    match conclude {
        Some(c) => {
            if !(c.len() <= 1 || c.len() == n) {
                return Err(count_message("conclude", n));
            }
        },
        None => {},
    }
    if outputs.len() == 1 {
        let mut v: Vec<CommandOutputPolicy> = Vec::new();
        for i in 0..n
            invariant
                outputs@.len() == 1,
                v@.len() == i,
                forall|k: int| 0 <= k < i ==> v@[k] == outputs@[0],
        {
            let p = match &outputs[0] {
                CommandOutputPolicy::Null => CommandOutputPolicy::Null,
                CommandOutputPolicy::Pipe => CommandOutputPolicy::Pipe,
                CommandOutputPolicy::File(f) => CommandOutputPolicy::File(f.clone()),
                CommandOutputPolicy::Inherit => CommandOutputPolicy::Inherit,
            };
            v.push(p);
        }
        Ok(v)
    } else if outputs.len() == n {
        Ok(outputs)
    } else {
        Err(count_message("output", n))
    }
}

} // verus!

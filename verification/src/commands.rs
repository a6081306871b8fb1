//! The set of benchmarks: every command template crossed with every
//! combination of parameter values, in a fixed order.
use vstd::prelude::*;
use crate::command::{
    Command, PerRunMode, PerRunParameters, combos, copy_strings, key_of, names_of, opt_view,
    params_view, per_run_names_spec, shell_join, shell_join_spec, substitute, vars_view, vars_wf,
};
use crate::parameter::{
    ParameterScanError, ParameterValue, int_scan_bounds, int_scan_fits, int_values, is_int_scan, parse_parameter_scan,
    tokenize, tokens, decimal_parse, decimal_parses, decimal_range_spec, decimal_values,
};
use crate::text::{
    char_views, chars_of, contains_exec, contains_seq, find_duplicates, lines, lines_exec, occurs_twice, push_decimal,
    push_str, strictly_sorted, string_from_chars, views,
};

verus! {

/// Why the benchmarks cannot be built from the command line.
#[derive(Debug, Clone, PartialEq, Eq)]
pub enum CommandsError {
    /// `--aggregate-parameter-runs` without `-L`, `-P` or `--parameter-file`
    AggregateWithoutParameters,
    /// `-D` together with several `-P`
    StepSizeWithMultipleScans,
    /// A `-P` scan is invalid
    Scan(crate::parameter::ParameterScanError),
    /// A parameter file (its path) could not be read
    UnreadableParameterFile(String),
    /// A parameter file (its path) has no non-empty line
    EmptyParameterFile(String),
    /// A parameter is named `iteration`
    ReservedParameterName,
    /// A parameter is named `iteration` while `--parameter-sample` is used
    ReservedSampleName,
    /// Parameter names given more than once (sorted)
    DuplicateParameterNames(Vec<String>),
    /// More benchmarks than allowed; the limit and the size of each
    /// dimension (the commands first)
    TooManyBenchmarks { max: usize, dimensions: Vec<(String, usize)> },
    /// More runs per aggregated command than allowed (the limit)
    TooManyAggregatedRuns(usize),
    /// `--command-name` was given this many times, for this many benchmarks
    UnexpectedCommandNameCount(usize, usize),
    /// More `--command-name` than commands (the number of commands)
    TooManyCommandNames(usize),
    /// `--setup` or `--cleanup` (the option) uses a per-run parameter
    PerRunParameterInOnceCommand { option: String, name: String },
    /// The `--parameter-sample` values have more combinations than `usize`
    /// can count
    TooManySampleCombinations,
}

// ------------------------------------------------------------------------
// The cross product

/// The numbers of values of the parameters.
pub open spec fn lens_of(params: Seq<(String, Seq<ParameterValue>)>) -> Seq<nat> {
    Seq::new(params.len(), |j: int| params[j].1.len())
}

/// The dimensions of the benchmark space: the commands, then each parameter.
pub open spec fn dims_of(n: nat, params: Seq<(String, Seq<ParameterValue>)>) -> Seq<nat> {
    seq![n] + lens_of(params)
}

/// Product of the numbers.
pub open spec fn prod(lens: Seq<nat>) -> nat
    decreases lens.len(),
{
    if lens.len() == 0 {
        1
    } else {
        lens[0] * prod(lens.skip(1))
    }
}

/// The product computed from the left with `usize` arithmetic: `None` as
/// soon as a partial product overflows.
pub open spec fn checked_prod(dims: Seq<nat>) -> Option<nat>
    decreases dims.len(),
{
    if dims.len() == 0 {
        Some(1)
    } else {
        match checked_prod(dims.drop_last()) {
            Some(p) => if p * dims.last() <= usize::MAX { Some(p * dims.last()) } else { None },
            None => None,
        }
    }
}

/// The number of benchmarks, if it can be computed and is at most `max`.
pub open spec fn space_size(dims: Seq<nat>, max: nat) -> Option<nat> {
    match checked_prod(dims) {
        Some(t) => if t <= max { Some(t) } else { None },
        None => None,
    }
}

/// The digits of `q` in the mixed radix `lens` (least significant first).
pub open spec fn mixed_digits(q: nat, lens: Seq<nat>) -> Seq<nat>
    decreases lens.len(),
{
    if lens.len() == 0 {
        Seq::empty()
    } else {
        seq![q % lens[0]] + mixed_digits(q / lens[0], lens.skip(1))
    }
}

/// The parameter values selected by `digits`.
pub open spec fn pick(params: Seq<(String, Seq<ParameterValue>)>, digits: Seq<nat>) -> Seq<(String, ParameterValue)> {
    Seq::new(params.len(), |j: int| (params[j].0, params[j].1[digits[j] as int]))
}

/// The `--command-name` of benchmark `k`: the `k`-th, or else the first.
pub open spec fn benchmark_name(names: Seq<Seq<char>>, k: int) -> Option<Seq<char>> {
    if 0 <= k < names.len() {
        Some(names[k])
    } else if names.len() > 0 {
        Some(names[0])
    } else {
        None
    }
}

/// The view of an optional argument vector.
pub open spec fn argv_view(argv: Option<Vec<String>>) -> Option<Seq<Seq<char>>> {
    match argv {
        Some(a) => Some(views(a@)),
        None => None,
    }
}

/// `c` is the command with this name, template (or argument vector) and
/// parameters.
pub open spec fn is_benchmark(
    c: Command,
    name: Option<Seq<char>>,
    template: Seq<char>,
    argv: Option<Seq<Seq<char>>>,
    parameters: Seq<(String, ParameterValue)>,
) -> bool {
    &&& c.name_v() == name
    &&& match argv {
        Some(a) => c.argv_v() == Some(a) && c.expression_v() == shell_join_spec(a),
        None => c.argv_v() is None && c.expression_v() == template,
    }
    &&& c.parameters_v() == parameters
    &&& c.per_run_v().len() == 0
}

/// `c` is benchmark number `k` of the cross product: the command index
/// varies fastest, then the first parameter, and so on.
pub open spec fn is_cross_benchmark(
    c: Command,
    k: nat,
    strings: Seq<Seq<char>>,
    argv: Option<Seq<Seq<char>>>,
    names: Seq<Seq<char>>,
    params: Seq<(String, Seq<ParameterValue>)>,
) -> bool {
    let n = strings.len();
    is_benchmark(c, benchmark_name(names, k as int), strings[(k % n) as int], argv,
        pick(params, mixed_digits(k / n, lens_of(params))))
}

/// The natural numbers of a sequence of `usize`.
pub open spec fn nat_seq(v: Seq<usize>) -> Seq<nat> {
    Seq::new(v.len(), |j: int| v[j] as nat)
}

proof fn lemma_checked_prod_none(dims: Seq<nat>, i: int)
    requires
        0 <= i <= dims.len(),
        checked_prod(dims.take(i)) is None,
    ensures
        checked_prod(dims) is None,
    decreases dims.len() - i,
{
    if i < dims.len() {
        let t = dims.take(i + 1);
        assert(t.drop_last() =~= dims.take(i));
        lemma_checked_prod_none(dims, i + 1);
    } else {
        assert(dims.take(i) =~= dims);
    }
}

proof fn lemma_checked_prod_positive(dims: Seq<nat>)
    requires
        checked_prod(dims) matches Some(t) && t > 0,
    ensures
        forall|j: int| 0 <= j < dims.len() ==> dims[j] > 0,
    decreases dims.len(),
{
    if dims.len() > 0 {
        let p = checked_prod(dims.drop_last())->0;
        let l = dims.last();
        assert(p > 0 && l > 0) by (nonlinear_arith)
            requires
                p * l > 0,
        ;
        lemma_checked_prod_positive(dims.drop_last());
        assert forall|j: int| 0 <= j < dims.len() implies dims[j] > 0 by {
            if j < dims.len() - 1 {
                assert(dims.drop_last()[j] == dims[j]);
            }
        }
    }
}

/// The digits of `q` in the mixed radix `lens`.
fn digits_of(q: usize, lens: &Vec<usize>) -> (d: Vec<usize>)
    requires
        forall|j: int| 0 <= j < lens@.len() ==> lens@[j] > 0,
    ensures
        nat_seq(d@) == mixed_digits(q as nat, nat_seq(lens@)),
        d@.len() == lens@.len(),
        forall|j: int| 0 <= j < d@.len() ==> d@[j] < lens@[j],
{
    let ghost all = nat_seq(lens@);
    let mut d: Vec<usize> = Vec::new();
    let mut cur = q;
    assert(all.skip(0) =~= all);
    assert(nat_seq(d@) =~= Seq::<nat>::empty());
    for j in 0..lens.len()
        invariant
            all == nat_seq(lens@),
            forall|i: int| 0 <= i < lens@.len() ==> lens@[i] > 0,
            d@.len() == j,
            forall|i: int| 0 <= i < j ==> d@[i] < lens@[i],
            nat_seq(d@) + mixed_digits(cur as nat, all.skip(j as int)) == mixed_digits(q as nat, all),
    {
        let ghost rest = all.skip(j as int);
        assert(rest[0] == lens@[j as int]);
        assert(rest.skip(1) =~= all.skip(j + 1));
        let digit = cur % lens[j];
        let ghost before = nat_seq(d@);
        d.push(digit);
        assert(nat_seq(d@) =~= before.push(digit as nat));
        assert(nat_seq(d@) + mixed_digits((cur / lens@[j as int]) as nat, all.skip(j + 1))
            =~= before + (seq![(cur % lens@[j as int]) as nat] + mixed_digits((cur / lens@[j as int]) as nat, all.skip(j + 1))));
        cur = cur / lens[j];
    }
    assert(all.skip(lens@.len() as int) =~= Seq::<nat>::empty());
    assert(nat_seq(d@) + Seq::<nat>::empty() =~= nat_seq(d@));
    d
}

/// A command with this name, template (or argument vector) and parameters.
fn make_command(name: Option<String>, template: &String, argv: &Option<Vec<String>>, parameters: Vec<(String, ParameterValue)>) -> (r: Command)
    ensures
        is_benchmark(r, opt_view(name), template@, argv_view(*argv), parameters@),
{
    match argv {
        Some(a) => {
            let words = copy_strings(a);
            let expression = shell_join(&words);
            Command::assemble(name, expression, Some(words), parameters)
        },
        None => Command::assemble(name, template.clone(), None, parameters),
    }
}

/// The `TooManyBenchmarks` error for these dimensions.
pub open spec fn too_many_ok(e: CommandsError, max: usize, n: nat, params: Seq<(String, Seq<ParameterValue>)>) -> bool {
    &&& e matches CommandsError::TooManyBenchmarks { max: m, dimensions: d }
    &&& e->max == max
    &&& e->dimensions@.len() == params.len() + 1
    &&& e->dimensions@[0].0@ == "commands"@
    &&& e->dimensions@[0].1 == n
    &&& forall|j: int| 0 <= j < params.len() ==> (#[trigger] e->dimensions@[j + 1]).0@ == params[j].0@
        && e->dimensions@[j + 1].1 == params[j].1.len()
}

/// The error for more benchmarks than `max`.
fn too_many(max: usize, n: usize, params: &Vec<(String, Vec<ParameterValue>)>) -> (e: CommandsError)
    ensures
        too_many_ok(e, max, n as nat, vars_view(params@)),
{
    let mut dimensions: Vec<(String, usize)> = Vec::new();
    proof { reveal_strlit("commands"); }
    dimensions.push(("commands".to_string(), n));
    for j in 0..params.len()
        invariant
            dimensions@.len() == j + 1,
            dimensions@[0].0@ == "commands"@,
            dimensions@[0].1 == n,
            forall|i: int| 0 <= i < j ==> (#[trigger] dimensions@[i + 1]).0@ == params@[i].0@
                && dimensions@[i + 1].1 == params@[i].1@.len(),
    {
        dimensions.push((params[j].0.clone(), params[j].1.len()));
    }
    let e = CommandsError::TooManyBenchmarks { max, dimensions };
    assert forall|j: int| 0 <= j < vars_view(params@).len() implies (#[trigger] e->dimensions@[j + 1]).0@ == vars_view(params@)[j].0@
        && e->dimensions@[j + 1].1 == vars_view(params@)[j].1.len() by {
        assert(vars_view(params@)[j] == (params@[j].0, params@[j].1@));
    }
    e
}

/// What the cross product gives for these templates, names and
/// parameters, with at most `max` benchmarks.
pub open spec fn cross_ok(
    strings: Seq<Seq<char>>,
    argv: Option<Seq<Seq<char>>>,
    names: Seq<Seq<char>>,
    ps: Seq<(String, Seq<ParameterValue>)>,
    max: usize,
    r: Result<Vec<Command>, CommandsError>,
) -> bool {
    match space_size(dims_of(strings.len(), ps), max as nat) {
        None => r matches Err(e) && too_many_ok(e, max, strings.len(), ps),
        Some(t) => if t == 0 {
            r matches Ok(v) && v@.len() == 0
        } else if names.len() > 1 && names.len() != t {
            r == Err::<Vec<Command>, CommandsError>(CommandsError::UnexpectedCommandNameCount(names.len() as usize, t as usize))
        } else {
            r matches Ok(v) && v@.len() == t
                && forall|k: int| 0 <= k < t ==> is_cross_benchmark(#[trigger] v@[k], k as nat, strings, argv, names, ps)
        },
    }
}

/// Every command template (the command index varying fastest) with every
/// combination of parameter values, at most `max` benchmarks in all. With
/// more than one `--command-name`, there must be one per benchmark;
/// otherwise the only one names every benchmark.
pub fn cross_product(
    strings: &Vec<String>,
    argv: &Option<Vec<String>>,
    names: &Vec<String>,
    params: &Vec<(String, Vec<ParameterValue>)>,
    max: usize,
) -> (r: Result<Vec<Command>, CommandsError>)
    ensures
        cross_ok(views(strings@), argv_view(*argv), views(names@), vars_view(params@), max, r),
{
    let ghost ps = vars_view(params@);
    let n = strings.len();
    let mut lens: Vec<usize> = Vec::new();
    for j in 0..params.len()
        invariant
            lens@.len() == j,
            forall|i: int| 0 <= i < j ==> lens@[i] == params@[i].1@.len(),
    {
        lens.push(params[j].1.len());
    }
    let ghost dims = dims_of(n as nat, ps);
    assert(lens_of(ps) =~= nat_seq(lens@)) by {
        assert forall|j: int| 0 <= j < ps.len() implies ps[j].1.len() == lens@[j] by {
            assert(ps[j] == (params@[j].0, params@[j].1@));
        }
    }
    // The product of the dimensions, from the left, stopping at an overflow.
    let mut total: usize = n;
    let mut overflow = false;
    assert(dims.take(1).drop_last() =~= Seq::<nat>::empty());
    proof {
        let t = dims.take(1);
        assert(t.len() == 1);
        assert(t.drop_last() =~= Seq::<nat>::empty());
        assert(checked_prod(t.drop_last()) == Some(1nat));
        assert(t.last() == n as nat);
        assert(1nat * (n as nat) == n as nat);
        assert(checked_prod(t) == Some(n as nat));
    }
    let mut j: usize = 0;
    while j < lens.len() && !overflow
        invariant
            dims == dims_of(n as nat, ps),
            lens_of(ps) == nat_seq(lens@),
            j <= lens@.len(),
            !overflow ==> checked_prod(dims.take(j + 1)) == Some(total as nat),
            overflow ==> checked_prod(dims.take(j + 1)) is None,
        decreases lens.len() - j + (if overflow { 0int } else { 1int }),
    {
        proof {
            let t = dims.take(j as int + 2);
            assert(t.drop_last() =~= dims.take(j + 1));
            assert(t.last() == lens@[j as int]);
        }
        match total.checked_mul(lens[j]) {
            Some(x) => {
                total = x;
                j += 1;
            },
            None => {
                overflow = true;
                j += 1;
            },
        }
    }
    proof {
        if overflow {
            lemma_checked_prod_none(dims, j + 1);
        } else {
            assert(dims.take(j + 1) =~= dims);
        }
    }
    if overflow || total > max {
        return Err(too_many(max, n, params));
    }
    if total == 0 {
        return Ok(Vec::new());
    }
    if names.len() > 1 && names.len() != total {
        return Err(CommandsError::UnexpectedCommandNameCount(names.len(), total));
    }
    proof {
        lemma_checked_prod_positive(dims);
        assert forall|i: int| 0 <= i < lens@.len() implies lens@[i] > 0 by {
            assert(dims[i + 1] == lens@[i]);
        }
        assert(dims[0] == n);
    }
    let mut out: Vec<Command> = Vec::new();
    for k in 0..total
        invariant
            n == strings@.len(),
            n > 0,
            ps == vars_view(params@),
            lens_of(ps) == nat_seq(lens@),
            lens@.len() == params@.len(),
            forall|i: int| 0 <= i < lens@.len() ==> lens@[i] > 0,
            forall|i: int| 0 <= i < lens@.len() ==> lens@[i] == params@[i].1@.len(),
            out@.len() == k,
            forall|i: int| 0 <= i < k ==> is_cross_benchmark(#[trigger] out@[i], i as nat,
                views(strings@), argv_view(*argv), views(names@), ps),
    {
        let ci = k % n;
        let digits = digits_of(k / n, &lens);
        let mut parameters: Vec<(String, ParameterValue)> = Vec::new();
        let ghost want = pick(ps, mixed_digits((k / n) as nat, lens_of(ps)));
        for j in 0..params.len()
            invariant
                ps == vars_view(params@),
                lens_of(ps) == nat_seq(lens@),
                digits@.len() == lens@.len(),
                lens@.len() == params@.len(),
                forall|i: int| 0 <= i < digits@.len() ==> digits@[i] < lens@[i],
                forall|i: int| 0 <= i < lens@.len() ==> lens@[i] == params@[i].1@.len(),
                nat_seq(digits@) == mixed_digits((k / n) as nat, nat_seq(lens@)),
                want == pick(ps, mixed_digits((k / n) as nat, lens_of(ps))),
                parameters@ == want.take(j as int),
        {
            let value = params[j].1[digits[j]].copy_value();
            let name = params[j].0.clone();
            proof {
                assert(ps[j as int] == (params@[j as int].0, params@[j as int].1@));
                assert(nat_seq(digits@)[j as int] == digits@[j as int] as nat);
                assert(want[j as int] == (name, value));
            }
            parameters.push((name, value));
            assert(parameters@ =~= want.take(j + 1));
        }
        assert(want.take(params@.len() as int) =~= want);
        let name = if k < names.len() {
            Some(names[k].clone())
        } else if names.len() > 0 {
            Some(names[0].clone())
        } else {
            None
        };
        let c = make_command(name, &strings[ci], argv, parameters);
        proof {
            assert(views(strings@)[ci as int] == strings@[ci as int]@);
            if k < names@.len() {
                assert(views(names@)[k as int] == names@[k as int]@);
            } else if names@.len() > 0 {
                assert(views(names@)[0] == names@[0]@);
            }
        }
        out.push(c);
    }
    Ok(out)
}

// ------------------------------------------------------------------------
// The parameters

/// What the command line says about the benchmarks.
#[derive(Debug, Clone, Default)]
pub struct CommandArgs {
    /// The command templates (positional arguments)
    pub commands: Vec<String>,
    /// The exact argument vector given after `--`, if any
    pub argv: Option<Vec<String>>,
    /// `--command-name`
    pub command_names: Vec<String>,
    /// `-P NAME MIN MAX`
    pub parameter_scans: Vec<(String, String, String)>,
    /// `-D STEP`
    pub parameter_step_size: Option<String>,
    /// `-L NAME VALUES`
    pub parameter_lists: Vec<(String, String)>,
    /// `--parameter-file NAME PATH`, with the file's content, or `None`
    /// where it could not be read
    pub parameter_files: Vec<(String, String, Option<String>)>,
    /// `--parameter-sample NAME VALUES`
    pub parameter_samples: Vec<(String, String)>,
    /// `--seed`
    pub seed: Option<u64>,
    /// `--aggregate-parameter-runs`
    pub aggregate_parameter_runs: bool,
    /// `--expand-used-parameters`
    pub expand_used_parameters: bool,
    /// `--max-benchmarks` (100000 by default)
    pub max_benchmarks: Option<usize>,
    pub prepare: Vec<String>,
    pub conclude: Vec<String>,
    pub setup: Vec<String>,
    pub cleanup: Vec<String>,
}

/// The limit on the number of benchmarks (and on aggregated runs).
pub open spec fn max_of(args: CommandArgs) -> nat {
    match args.max_benchmarks {
        Some(m) => m as nat,
        None => 100_000,
    }
}

/// Whether any `-P`, `-L` or `--parameter-file` is given.
pub open spec fn has_parameters(args: CommandArgs) -> bool {
    args.parameter_scans@.len() > 0 || args.parameter_lists@.len() > 0 || args.parameter_files@.len() > 0
}

/// `-D` with more than one `-P`.
pub open spec fn step_conflict(args: CommandArgs) -> bool {
    args.parameter_step_size is Some && args.parameter_scans@.len() > 1
}

/// `s` without its trailing `\r` characters.
pub open spec fn strip_trailing_cr(s: Seq<char>) -> Seq<char>
    decreases s.len(),
{
    if s.len() > 0 && s.last() == '\r' {
        strip_trailing_cr(s.drop_last())
    } else {
        s
    }
}

/// The values of a parameter file with these lines: each line without its
/// trailing `\r`, empty lines left out.
pub open spec fn file_values(ls: Seq<Seq<char>>) -> Seq<Seq<char>>
    decreases ls.len(),
{
    if ls.len() == 0 {
        Seq::empty()
    } else {
        let rest = file_values(ls.drop_last());
        let l = strip_trailing_cr(ls.last());
        if l.len() == 0 { rest } else { rest.push(l) }
    }
}

/// `vals` are the texts `ts`.
pub open spec fn texts_ok(vals: Seq<ParameterValue>, ts: Seq<Seq<char>>) -> bool {
    &&& vals.len() == ts.len()
    &&& forall|i: int| 0 <= i < ts.len() ==> (#[trigger] vals[i]) is Text && vals[i]->Text_0@ == ts[i]
}

/// The decimal scan of `-P NAME MIN MAX -D STEP` where all three are
/// decimal numbers: its values' texts, or why there are none.
pub open spec fn decimal_scan_of(min: Seq<char>, max: Seq<char>, step: Seq<char>) -> Result<Seq<Seq<char>>, ParameterScanError> {
    decimal_range_spec(decimal_parse(min)->0, decimal_parse(max)->0, decimal_parse(step)->0)
}

/// `min`, `max` and the step are decimal numbers.
pub open spec fn decimal_bounds(min: Seq<char>, max: Seq<char>, step: Option<Seq<char>>) -> bool {
    step is Some && decimal_parses(min) && decimal_parses(max) && decimal_parses(step->0)
}

/// `vals` are the values of the scan from `min` to `max`: those of the
/// integer scan, or of the decimal scan (which needs a step).
pub open spec fn scan_values_ok(min: Seq<char>, max: Seq<char>, step: Option<Seq<char>>, vals: Seq<ParameterValue>) -> bool {
    match int_scan_bounds(min, max, step) {
        Some((a, b, d)) => exists|ints: Seq<i32>| is_int_scan(ints, a as int, b as int, d as int) && vals == int_values(ints),
        None => {
            &&& decimal_bounds(min, max, step)
            &&& decimal_scan_of(min, max, step->0) matches Ok(texts) && decimal_values(vals, texts)
            &&& forall|k: int| 0 <= k < vals.len() ==> (#[trigger] vals[k]) is Numeric && vals[k]->Numeric_0 is Decimal
        },
    }
}

/// `e` is what the scan from `min` to `max` fails with; exact for an
/// integer scan.
pub open spec fn scan_error_ok(min: Seq<char>, max: Seq<char>, step: Option<Seq<char>>, e: ParameterScanError) -> bool {
    match int_scan_bounds(min, max, step) {
        Some((a, b, d)) => (e == ParameterScanError::EmptyRange && b < a)
            || (e == ParameterScanError::ZeroStep && a <= b && d == 0)
            || (e == ParameterScanError::TooLarge && a <= b && d != 0 && !int_scan_fits(a as int, b as int, d as int)),
        None => if !decimal_parses(min) || !decimal_parses(max) {
            e is InvalidNumber
        } else if step is None {
            e == ParameterScanError::StepRequired
        } else if !decimal_parses(step->0) {
            e is InvalidNumber
        } else {
            decimal_scan_of(min, max, step->0) == Err::<Seq<Seq<char>>, ParameterScanError>(e)
        },
    }
}

/// A scan that succeeds: an integer one, or a decimal one.
pub open spec fn scan_fits(min: Seq<char>, max: Seq<char>, step: Option<Seq<char>>) -> bool {
    match int_scan_bounds(min, max, step) {
        Some((a, b, d)) => a <= b && int_scan_fits(a as int, b as int, d as int),
        None => decimal_bounds(min, max, step) && decimal_scan_of(min, max, step->0) is Ok,
    }
}

/// The view of the step size.
pub open spec fn step_view(args: CommandArgs) -> Option<Seq<char>> {
    opt_view(args.parameter_step_size)
}

/// `ps` are the parameters of `-P`, then `-L`, then `--parameter-file`, in
/// the order given.
pub open spec fn params_ok(args: CommandArgs, ps: Seq<(String, Seq<ParameterValue>)>) -> bool {
    let sc = args.parameter_scans@;
    let li = args.parameter_lists@;
    let fi = args.parameter_files@;
    &&& ps.len() == sc.len() + li.len() + fi.len()
    &&& forall|i: int| 0 <= i < sc.len() ==> (#[trigger] ps[i]).0@ == sc[i].0@
        && scan_values_ok(sc[i].1@, sc[i].2@, step_view(args), ps[i].1)
    &&& forall|i: int| 0 <= i < li.len() ==> (#[trigger] ps[sc.len() + i]).0@ == li[i].0@
        && texts_ok(ps[sc.len() + i].1, tokens(li[i].1@))
    &&& forall|i: int| 0 <= i < fi.len() ==> (#[trigger] ps[sc.len() + li.len() + i]).0@ == fi[i].0@
        && fi[i].2 is Some && texts_ok(ps[sc.len() + li.len() + i].1, file_values(lines(fi[i].2->0@)))
}

/// Every scan succeeds and every file has values.
pub open spec fn params_fine(args: CommandArgs) -> bool {
    &&& forall|i: int| 0 <= i < args.parameter_scans@.len() ==> scan_fits(
        (#[trigger] args.parameter_scans@[i]).1@, args.parameter_scans@[i].2@, step_view(args))
    &&& forall|i: int| 0 <= i < args.parameter_files@.len() ==> (#[trigger] args.parameter_files@[i]).2 is Some
        && file_values(lines(args.parameter_files@[i].2->0@)).len() > 0
}

/// The values of a text list, as text parameter values.
fn text_values(ts: Vec<String>) -> (r: Vec<ParameterValue>)
    ensures
        texts_ok(r@, views(ts@)),
{
    let mut r: Vec<ParameterValue> = Vec::new();
    for i in 0..ts.len()
        invariant
            r@.len() == i,
            forall|k: int| 0 <= k < i ==> (#[trigger] r@[k]) is Text && r@[k]->Text_0@ == ts@[k]@,
    {
        r.push(ParameterValue::Text(ts[i].clone()));
    }
    r
}

/// The values of a parameter file.
fn file_lines(content: &str) -> (r: Vec<ParameterValue>)
    ensures
        texts_ok(r@, file_values(lines(content@))),
{
    let cs = chars_of(content);
    let ls = lines_exec(cs.as_slice());
    let ghost lv = char_views(ls@);
    let mut r: Vec<ParameterValue> = Vec::new();
    for i in 0..ls.len()
        invariant
            lv == char_views(ls@),
            lv == lines(content@),
            texts_ok(r@, file_values(lv.take(i as int))),
    {
        let line = &ls[i];
        let mut end = line.len();
        assert(line@.take(end as int) =~= line@);
        while end > 0 && line[end - 1] == '\r'
            invariant
                end <= line@.len(),
                strip_trailing_cr(line@.take(end as int)) == strip_trailing_cr(line@),
            decreases end,
        {
            assert(line@.take(end as int).drop_last() =~= line@.take(end - 1));
            end -= 1;
        }
        let ghost stripped = line@.take(end as int);
        assert(strip_trailing_cr(stripped) == stripped);
        let ghost t = lv.take(i + 1);
        assert(t.drop_last() =~= lv.take(i as int));
        assert(t.last() == line@);
        if end > 0 {
            let kept = crate::text::chars_range(line.as_slice(), 0, end);
            let text = string_from_chars(kept.as_slice());
            assert(kept@ =~= stripped);
            let ghost before = r@;
            r.push(ParameterValue::Text(text));
            assert forall|k: int| 0 <= k < file_values(t).len() implies (#[trigger] r@[k]) is Text
                && r@[k]->Text_0@ == file_values(t)[k] by {
                if k < before.len() {
                    assert(r@[k] == before[k]);
                }
            }
        }
    }
    assert(lv.take(ls@.len() as int) =~= lv);
    r
}

/// The parameters of `-P`, `-L` and `--parameter-file`, in this order.
/// Entry `k` of the values of the parameter files, at `base` among all
/// parameters, names the file's parameter and holds the lines of its content.
pub open spec fn file_entry_ok(pv: Seq<(String, Seq<ParameterValue>)>, base: int, fi: Seq<(String, String, Option<String>)>, k: int) -> bool {
    &&& pv[base + k].0@ == fi[k].0@
    &&& fi[k].2 is Some
    &&& texts_ok(pv[base + k].1, file_values(lines(fi[k].2->0@)))
}

#[verifier::spinoff_prover]
#[verifier::rlimit(40)]
pub fn collect_parameters(args: &CommandArgs) -> (r: Result<Vec<(String, Vec<ParameterValue>)>, CommandsError>)
    ensures
        step_conflict(*args) <==> r == Err::<Vec<(String, Vec<ParameterValue>)>, CommandsError>(CommandsError::StepSizeWithMultipleScans),
        r matches Ok(ps) ==> params_ok(*args, vars_view(ps@)),
        r matches Err(CommandsError::Scan(e)) ==> exists|i: int| 0 <= i < args.parameter_scans@.len()
            && scan_error_ok((#[trigger] args.parameter_scans@[i]).1@, args.parameter_scans@[i].2@, step_view(*args), e),
        r matches Err(CommandsError::UnreadableParameterFile(p)) ==> exists|i: int| 0 <= i < args.parameter_files@.len()
            && (#[trigger] args.parameter_files@[i]).2 is None && args.parameter_files@[i].1@ == p@,
        r matches Err(CommandsError::EmptyParameterFile(p)) ==> exists|i: int| 0 <= i < args.parameter_files@.len()
            && (#[trigger] args.parameter_files@[i]).2 is Some && args.parameter_files@[i].1@ == p@
            && file_values(lines(args.parameter_files@[i].2->0@)).len() == 0,
        r matches Err(e) ==> e is StepSizeWithMultipleScans || e is Scan || e is UnreadableParameterFile
            || e is EmptyParameterFile,
        !step_conflict(*args) && params_fine(*args) ==> r is Ok,
{
    let step: Option<&str> = match &args.parameter_step_size {
        Some(s) => Some(s.as_str()),
        None => None,
    };
    assert(crate::parameter::str_opt_view(step) == step_view(*args));
    if step.is_some() && args.parameter_scans.len() > 1 {
        return Err(CommandsError::StepSizeWithMultipleScans);
    }
    let ghost sc = args.parameter_scans@;
    let ghost li = args.parameter_lists@;
    let ghost fi = args.parameter_files@;
    let mut ps: Vec<(String, Vec<ParameterValue>)> = Vec::new();
    for i in 0..args.parameter_scans.len()
        invariant
            sc == args.parameter_scans@,
            !step_conflict(*args),
            crate::parameter::str_opt_view(step) == step_view(*args),
            ps@.len() == i,
            forall|k: int| 0 <= k < i ==> (#[trigger] vars_view(ps@)[k]).0@ == sc[k].0@
                && scan_values_ok(sc[k].1@, sc[k].2@, step_view(*args), vars_view(ps@)[k].1),
    {
        let scan = &args.parameter_scans[i];
        match parse_parameter_scan(scan.1.as_str(), scan.2.as_str(), step) {
            Ok(values) => {
                proof {
                    if int_scan_bounds(scan.1@, scan.2@, step_view(*args)) is Some {
                        let (a, b, d) = int_scan_bounds(scan.1@, scan.2@, step_view(*args))->0;
                        let ints = choose|ints: Seq<i32>| is_int_scan(ints, a as int, b as int, d as int) && values@ == int_values(ints);
                        assert(is_int_scan(ints, a as int, b as int, d as int) && values@ == int_values(ints));
                    }
                }
                let ghost before = vars_view(ps@);
                ps.push((scan.0.clone(), values));
                assert(vars_view(ps@) =~= before.push((scan.0, values@)));
            },
            Err(e) => {
                assert(scan_error_ok(sc[i as int].1@, sc[i as int].2@, step_view(*args), e));
                return Err(CommandsError::Scan(e));
            },
        }
    }
    for i in 0..args.parameter_lists.len()
        invariant
            sc == args.parameter_scans@,
            li == args.parameter_lists@,
            !step_conflict(*args),
            ps@.len() == sc.len() + i,
            forall|k: int| 0 <= k < sc.len() ==> (#[trigger] vars_view(ps@)[k]).0@ == sc[k].0@
                && scan_values_ok(sc[k].1@, sc[k].2@, step_view(*args), vars_view(ps@)[k].1),
            forall|k: int| 0 <= k < i ==> (#[trigger] vars_view(ps@)[sc.len() + k]).0@ == li[k].0@
                && texts_ok(vars_view(ps@)[sc.len() + k].1, tokens(li[k].1@)),
    {
        let list = &args.parameter_lists[i];
        let values = text_values(tokenize(list.1.as_str()));
        let ghost before = vars_view(ps@);
        ps.push((list.0.clone(), values));
        assert(vars_view(ps@) =~= before.push((list.0, values@)));
        assert(vars_view(ps@)[sc.len() + i] == (list.0, values@));
    }
    for i in 0..args.parameter_files.len()
        invariant
            sc == args.parameter_scans@,
            li == args.parameter_lists@,
            fi == args.parameter_files@,
            !step_conflict(*args),
            ps@.len() == sc.len() + li.len() + i,
            forall|k: int| 0 <= k < sc.len() ==> (#[trigger] vars_view(ps@)[k]).0@ == sc[k].0@
                && scan_values_ok(sc[k].1@, sc[k].2@, step_view(*args), vars_view(ps@)[k].1),
            forall|k: int| 0 <= k < li.len() ==> (#[trigger] vars_view(ps@)[sc.len() + k]).0@ == li[k].0@
                && texts_ok(vars_view(ps@)[sc.len() + k].1, tokens(li[k].1@)),
            forall|k: int| 0 <= k < i ==> #[trigger] file_entry_ok(vars_view(ps@), (sc.len() + li.len()) as int, fi, k),
    {
        let file = &args.parameter_files[i];
        match &file.2 {
            None => {
                return Err(CommandsError::UnreadableParameterFile(file.1.clone()));
            },
            Some(content) => {
                let values = file_lines(content.as_str());
                if values.len() == 0 {
                    return Err(CommandsError::EmptyParameterFile(file.1.clone()));
                }
                let ghost before = vars_view(ps@);
                ps.push((file.0.clone(), values));
                assert(vars_view(ps@) =~= before.push((file.0, values@)));
                assert(vars_view(ps@)[sc.len() + li.len() + i] == (file.0, values@));
                assert(fi[i as int] == *file);
                assert(file.2 == Some(*content));
                assert(texts_ok(vars_view(ps@)[sc.len() + li.len() + i].1, file_values(lines(fi[i as int].2->0@))));
                assert forall|k: int| 0 <= k < i + 1 implies #[trigger] file_entry_ok(vars_view(ps@), (sc.len() + li.len()) as int, fi, k) by {
                    if k < i {
                        assert(file_entry_ok(before, (sc.len() + li.len()) as int, fi, k));
                        assert(vars_view(ps@)[sc.len() + li.len() + k] == before[sc.len() + li.len() + k]);
                    }
                }
                assert forall|k: int| 0 <= k < sc.len() implies (#[trigger] vars_view(ps@)[k]).0@ == sc[k].0@
                    && scan_values_ok(sc[k].1@, sc[k].2@, step_view(*args), vars_view(ps@)[k].1) by {
                    assert(vars_view(ps@)[k] == before[k]);
                }
                assert forall|k: int| 0 <= k < li.len() implies (#[trigger] vars_view(ps@)[sc.len() + k]).0@ == li[k].0@
                    && texts_ok(vars_view(ps@)[sc.len() + k].1, tokens(li[k].1@)) by {
                    assert(vars_view(ps@)[sc.len() + k] == before[sc.len() + k]);
                }
            },
        }
    }
    proof {
        let pv = vars_view(ps@);
        assert(pv.len() == sc.len() + li.len() + fi.len());
        assert forall|i: int| 0 <= i < sc.len() implies (#[trigger] pv[i]).0@ == sc[i].0@
            && scan_values_ok(sc[i].1@, sc[i].2@, step_view(*args), pv[i].1) by {}
        assert forall|i: int| 0 <= i < li.len() implies (#[trigger] pv[sc.len() + i]).0@ == li[i].0@
            && texts_ok(pv[sc.len() + i].1, tokens(li[i].1@)) by {}
        assert forall|i: int| 0 <= i < fi.len() implies (#[trigger] pv[sc.len() + li.len() + i]).0@ == fi[i].0@
            && fi[i].2 is Some && texts_ok(pv[sc.len() + li.len() + i].1, file_values(lines(fi[i].2->0@))) by {
            assert(file_entry_ok(pv, (sc.len() + li.len()) as int, fi, i));
        }
        assert(params_ok(*args, pv));
    }
    Ok(ps)
}

/// No parameter is named `iteration`, and no name is given twice.
pub open spec fn names_fine(names: Seq<Seq<char>>) -> bool {
    &&& !names.contains("iteration"@)
    &&& forall|x: Seq<char>| !occurs_twice(names, x)
}

/// Whether `name` is `iteration`, the name of the built-in placeholder.
fn is_reserved(name: &String) -> (r: bool)
    ensures
        r == (name@ == "iteration"@),
{
    proof { reveal_strlit("iteration"); }
    let cs = chars_of(name.as_str());
    let it = chars_of("iteration");
    crate::text::chars_eq(cs.as_slice(), it.as_slice())
}

/// Refuses the name `iteration` (with `reserved`) and names given twice.
fn check_names(names: &Vec<String>, reserved: CommandsError) -> (r: Result<(), CommandsError>)
    ensures
        views(names@).contains("iteration"@) ==> r == Err::<(), CommandsError>(reserved),
        !views(names@).contains("iteration"@) ==> match r {
            Ok(()) => forall|x: Seq<char>| !occurs_twice(views(names@), x),
            Err(e) => e matches CommandsError::DuplicateParameterNames(d) && strictly_sorted(views(d@))
                && d@.len() > 0
                && forall|x: Seq<char>| #[trigger] views(d@).contains(x) <==> occurs_twice(views(names@), x),
        },
{
    for i in 0..names.len()
        invariant
            forall|k: int| 0 <= k < i ==> views(names@)[k] != "iteration"@,
    {
        if is_reserved(&names[i]) {
            assert(views(names@)[i as int] == names@[i as int]@);
            return Err(reserved);
        }
    }
    assert(!views(names@).contains("iteration"@));
    let duplicates = find_duplicates(names);
    if duplicates.len() > 0 {
        assert(views(duplicates@).contains(views(duplicates@)[0]));
        return Err(CommandsError::DuplicateParameterNames(duplicates));
    }
    assert forall|x: Seq<char>| !occurs_twice(views(names@), x) by {
        if occurs_twice(views(names@), x) {
            assert(views(duplicates@).contains(x));
        }
    }
    Ok(())
}

/// The names of parameters, as a vector.
fn param_names(ps: &Vec<(String, Vec<ParameterValue>)>) -> (r: Vec<String>)
    ensures
        views(r@) == names_of(vars_view(ps@)),
{
    let mut r: Vec<String> = Vec::new();
    for i in 0..ps.len()
        invariant
            views(r@) == names_of(vars_view(ps@)).take(i as int),
    {
        let ghost rv = views(r@);
        let name = ps[i].0.clone();
        r.push(name);
        assert(vars_view(ps@)[i as int] == (ps@[i as int].0, ps@[i as int].1@));
        assert(views(r@) =~= rv.push(name@));
        assert(views(r@) =~= names_of(vars_view(ps@)).take(i + 1));
    }
    assert(names_of(vars_view(ps@)).take(ps@.len() as int) =~= names_of(vars_view(ps@)));
    r
}

// ------------------------------------------------------------------------
// Aggregated runs

/// `c` is the command for one template whose runs cycle through all
/// combinations of `ps`.
pub open spec fn is_aggregated(
    c: Command,
    name: Option<Seq<char>>,
    template: Seq<char>,
    argv: Option<Seq<Seq<char>>>,
    ps: Seq<(String, Seq<ParameterValue>)>,
) -> bool {
    &&& c.name_v() == name
    &&& match argv {
        Some(a) => c.argv_v() == Some(a) && c.expression_v() == shell_join_spec(a),
        None => c.argv_v() is None && c.expression_v() == template,
    }
    &&& c.parameters_v().len() == 0
    &&& c.per_run_v() == seq![(ps, PerRunMode::Cycle)]
}

proof fn lemma_checked_prod_combos(ps: Seq<(String, Seq<ParameterValue>)>)
    requires
        checked_prod(lens_of(ps)) is Some,
    ensures
        checked_prod(lens_of(ps)) == Some(combos(ps)),
    decreases ps.len(),
{
    if ps.len() > 0 {
        assert(lens_of(ps).drop_last() =~= lens_of(ps.drop_last()));
        lemma_checked_prod_combos(ps.drop_last());
    }
}

/// What `--aggregate-parameter-runs` gives for these templates, names and
/// parameters, with at most `max` runs per command.
pub open spec fn aggregated_ok(
    strings: Seq<Seq<char>>,
    argv: Option<Seq<Seq<char>>>,
    names: Seq<Seq<char>>,
    ps: Seq<(String, Seq<ParameterValue>)>,
    max: usize,
    r: Result<Vec<Command>, CommandsError>,
) -> bool {
    match space_size(lens_of(ps), max as nat) {
        None => r == Err::<Vec<Command>, CommandsError>(CommandsError::TooManyAggregatedRuns(max)),
        Some(t) => if t == 0 {
            r matches Ok(v) && v@.len() == 0
        } else if names.len() > 1 && names.len() != strings.len() {
            r == Err::<Vec<Command>, CommandsError>(
                CommandsError::UnexpectedCommandNameCount(names.len() as usize, strings.len() as usize))
        } else {
            r matches Ok(v) && v@.len() == strings.len()
                && forall|i: int| 0 <= i < strings.len() ==> is_aggregated(#[trigger] v@[i],
                    benchmark_name(names, i), strings[i], argv, ps)
        },
    }
}

/// `--aggregate-parameter-runs`: one command per template, whose runs go
/// through all parameter combinations in turn (at most `max` of them).
pub fn aggregated(
    strings: &Vec<String>,
    argv: &Option<Vec<String>>,
    names: &Vec<String>,
    params: Vec<(String, Vec<ParameterValue>)>,
    max: usize,
) -> (r: Result<Vec<Command>, CommandsError>)
    ensures
        aggregated_ok(views(strings@), argv_view(*argv), views(names@), vars_view(params@), max, r),
{
    let ghost ps = vars_view(params@);
    let mut total: usize = 1;
    let mut overflow = false;
    let mut j: usize = 0;
    assert(lens_of(ps).take(0) =~= Seq::<nat>::empty());
    while j < params.len() && !overflow
        invariant
            ps == vars_view(params@),
            j <= params@.len(),
            !overflow ==> checked_prod(lens_of(ps).take(j as int)) == Some(total as nat),
            overflow ==> checked_prod(lens_of(ps).take(j as int)) is None,
        decreases params.len() - j + (if overflow { 0int } else { 1int }),
    {
        proof {
            let t = lens_of(ps).take(j + 1);
            assert(t.drop_last() =~= lens_of(ps).take(j as int));
            assert(t.last() == params@[j as int].1@.len());
        }
        match total.checked_mul(params[j].1.len()) {
            Some(x) => {
                total = x;
            },
            None => {
                overflow = true;
            },
        }
        j += 1;
    }
    proof {
        if overflow {
            lemma_checked_prod_none(lens_of(ps), j as int);
        } else {
            assert(lens_of(ps).take(j as int) =~= lens_of(ps));
        }
    }
    if overflow || total > max {
        return Err(CommandsError::TooManyAggregatedRuns(max));
    }
    if total == 0 {
        return Ok(Vec::new());
    }
    if names.len() > 1 && names.len() != strings.len() {
        return Err(CommandsError::UnexpectedCommandNameCount(names.len(), strings.len()));
    }
    proof {
        lemma_checked_prod_combos(ps);
        lemma_checked_prod_positive(lens_of(ps));
        assert forall|i: int| 0 <= i < ps.len() implies #[trigger] ps[i].1.len() >= 1 by {
            assert(lens_of(ps)[i] == ps[i].1.len());
        }
    }
    let per_run = PerRunParameters::new(params, PerRunMode::Cycle);
    let mut out: Vec<Command> = Vec::new();
    for i in 0..strings.len()
        invariant
            per_run.vars_v() == ps,
            per_run.mode_v() == PerRunMode::Cycle,
            out@.len() == i,
            forall|k: int| 0 <= k < i ==> is_aggregated(#[trigger] out@[k],
                benchmark_name(views(names@), k), views(strings@)[k], argv_view(*argv), ps),
    {
        let name = if i < names.len() {
            Some(names[i].clone())
        } else if names.len() > 0 {
            Some(names[0].clone())
        } else {
            None
        };
        let mut c = make_command(name, &strings[i], argv, Vec::new());
        c.add_per_run(per_run.clone());
        proof {
            assert(c.per_run_v() =~= seq![(ps, PerRunMode::Cycle)]);
            assert(views(strings@)[i as int] == strings@[i as int]@);
            if i < names@.len() {
                assert(views(names@)[i as int] == names@[i as int]@);
            } else if names@.len() > 0 {
                assert(views(names@)[0] == names@[0]@);
            }
        }
        out.push(c);
    }
    Ok(out)
}

// ------------------------------------------------------------------------
// Used parameters

/// `{p}` occurs in the template, in the name, or in one of the other
/// templates (`--prepare`, `--conclude`, `--setup`, `--cleanup`).
pub open spec fn param_used(p: Seq<char>, expr: Seq<char>, name: Option<Seq<char>>, ts: Seq<Seq<char>>) -> bool {
    let k = key_of(p);
    ||| contains_seq(expr, k)
    ||| (name matches Some(n) && contains_seq(n, k))
    ||| exists|t: int| 0 <= t < ts.len() && #[trigger] contains_seq(ts[t], k)
}

/// The parameters of `ps` that are used, in order.
pub open spec fn used_params(
    ps: Seq<(String, ParameterValue)>,
    expr: Seq<char>,
    name: Option<Seq<char>>,
    ts: Seq<Seq<char>>,
) -> Seq<(String, ParameterValue)>
    decreases ps.len(),
{
    if ps.len() == 0 {
        Seq::empty()
    } else {
        let rest = used_params(ps.drop_last(), expr, name, ts);
        if param_used(ps.last().0@, expr, name, ts) { rest.push(ps.last()) } else { rest }
    }
}

/// The parameters of `c` that it uses.
pub open spec fn trimmed_params(c: Command, ts: Seq<Seq<char>>) -> Seq<(String, ParameterValue)> {
    used_params(c.parameters_v(), c.expression_v(), c.name_v(), ts)
}

/// The command line of `c` with the parameters `pv`.
pub open spec fn line_with(c: Command, pv: Seq<(Seq<char>, Seq<char>)>) -> Seq<char> {
    match c.argv_v() {
        Some(a) => shell_join_spec(Seq::new(a.len(), |i: int| substitute(a[i], pv))),
        None => substitute(c.expression_v(), pv),
    }
}

/// The name of `c` with the parameters `pv`.
pub open spec fn name_with(c: Command, pv: Seq<(Seq<char>, Seq<char>)>) -> Seq<char> {
    match c.name_v() {
        Some(n) => substitute(n, pv),
        None => line_with(c, pv),
    }
}

/// What tells two benchmarks apart once unused parameters are dropped: the
/// template, the name, and the used parameters with their values.
pub open spec fn bench_key(c: Command, ts: Seq<Seq<char>>) -> (Seq<char>, Seq<char>, Seq<(Seq<char>, Seq<char>)>) {
    let pv = params_view(trimmed_params(c, ts));
    (c.expression_v(), name_with(c, pv), pv)
}

/// No benchmark before `i` has the key of benchmark `i`.
pub open spec fn first_of_key(cs: Seq<Command>, ts: Seq<Seq<char>>, i: int) -> bool {
    forall|j: int| 0 <= j < i ==> bench_key(cs[j], ts) != bench_key(cs[i], ts)
}

/// `c` is `orig` without the parameters it does not use.
pub open spec fn is_trimmed(c: Command, orig: Command, ts: Seq<Seq<char>>) -> bool {
    &&& c.name_v() == orig.name_v()
    &&& c.expression_v() == orig.expression_v()
    &&& c.argv_v() == orig.argv_v()
    &&& c.per_run_v() == orig.per_run_v()
    &&& c.parameters_v() == trimmed_params(orig, ts)
}

/// `out` holds, in order, the trimmed benchmarks `cs[idx[k]]`, which are
/// exactly the first benchmark of each key.
pub open spec fn kept_ok(cs: Seq<Command>, ts: Seq<Seq<char>>, out: Seq<Command>, idx: Seq<int>) -> bool {
    &&& idx.len() == out.len()
    &&& forall|k: int| 0 <= k < idx.len() ==> 0 <= #[trigger] idx[k] < cs.len()
    &&& forall|a: int, b: int| 0 <= a < b < idx.len() ==> #[trigger] idx[a] < #[trigger] idx[b]
    &&& forall|i: int| 0 <= i < cs.len() ==> (first_of_key(cs, ts, i) <==> idx.contains(i))
    &&& forall|k: int| 0 <= k < out.len() ==> is_trimmed(#[trigger] out[k], cs[idx[k]], ts)
}

/// `{name}` as characters.
fn key_chars(name: &String) -> (r: Vec<char>)
    ensures
        r@ == key_of(name@),
{
    let mut r: Vec<char> = Vec::new();
    r.push('{');
    let cs = chars_of(name.as_str());
    for i in 0..cs.len()
        invariant
            r@ == seq!['{'] + cs@.take(i as int),
    {
        r.push(cs[i]);
        assert(r@ =~= seq!['{'] + cs@.take(i + 1));
    }
    assert(cs@.take(cs@.len() as int) =~= cs@);
    r.push('}');
    assert(r@ =~= key_of(name@));
    r
}

/// Whether a parameter is used (see `param_used`).
fn is_used(p: &String, expr: &String, name: &Option<String>, ts: &Vec<String>) -> (r: bool)
    ensures
        r == param_used(p@, expr@, opt_view(*name), views(ts@)),
{
    let k = key_chars(p);
    let e = chars_of(expr.as_str());
    if contains_exec(e.as_slice(), k.as_slice()) {
        return true;
    }
    match name {
        Some(n) => {
            let nc = chars_of(n.as_str());
            if contains_exec(nc.as_slice(), k.as_slice()) {
                return true;
            }
        },
        None => {},
    }
    for t in 0..ts.len()
        invariant
            k@ == key_of(p@),
            forall|u: int| 0 <= u < t ==> !contains_seq(#[trigger] views(ts@)[u], key_of(p@)),
    {
        let tc = chars_of(ts[t].as_str());
        assert(views(ts@)[t as int] == ts@[t as int]@);
        if contains_exec(tc.as_slice(), k.as_slice()) {
            return true;
        }
    }
    false
}

/// A key as values: (template, name, used parameters as texts).
pub type BenchKey = (String, String, Vec<(String, String)>);

pub open spec fn texts_view(v: Seq<(String, String)>) -> Seq<(Seq<char>, Seq<char>)> {
    v.map_values(|p: (String, String)| (p.0@, p.1@))
}

pub open spec fn key_view(k: BenchKey) -> (Seq<char>, Seq<char>, Seq<(Seq<char>, Seq<char>)>) {
    (k.0@, k.1@, texts_view(k.2@))
}

/// `key` is the view of one of `keys`.
pub open spec fn key_seen(keys: Seq<BenchKey>, key: (Seq<char>, Seq<char>, Seq<(Seq<char>, Seq<char>)>)) -> bool {
    exists|m: int| 0 <= m < keys.len() && key_view(#[trigger] keys[m]) == key
}

/// Whether two keys are equal.
fn key_eq(a: &BenchKey, b: &BenchKey) -> (r: bool)
    ensures
        r == (key_view(*a) == key_view(*b)),
{
    if a.0 != b.0 || a.1 != b.1 || a.2.len() != b.2.len() {
        proof {
            if key_view(*a) == key_view(*b) {
                assert(key_view(*a).2.len() == a.2@.len());
            }
        }
        return false;
    }
    let ghost av = key_view(*a).2;
    let ghost bv = key_view(*b).2;
    for i in 0..a.2.len()
        invariant
            a.2@.len() == b.2@.len(),
            av == key_view(*a).2,
            bv == key_view(*b).2,
            forall|k: int| 0 <= k < i ==> av[k] == bv[k],
    {
        if a.2[i].0 != b.2[i].0 || a.2[i].1 != b.2[i].1 {
            assert(av[i as int] != bv[i as int]);
            return false;
        }
    }
    assert(av =~= bv);
    true
}

/// `--expand-used-parameters`: drop the parameters a command does not use
/// (see `param_used`) and keep only the first of benchmarks that are then
/// the same.
pub fn keep_used_parameters(commands: Vec<Command>, ts: &Vec<String>) -> (r: Vec<Command>)
    ensures
        exists|idx: Seq<int>| kept_ok(commands@, views(ts@), r@, idx),
{
    let ghost cs = commands@;
    let ghost tv = views(ts@);
    let mut out: Vec<Command> = Vec::new();
    let mut keys: Vec<BenchKey> = Vec::new();
    let ghost mut idx: Seq<int> = Seq::empty();
    for i in 0..commands.len()
        invariant
            cs == commands@,
            tv == views(ts@),
            idx.len() == out@.len(),
            keys@.len() == out@.len(),
            forall|k: int| 0 <= k < idx.len() ==> 0 <= #[trigger] idx[k] < i,
            forall|a: int, b: int| 0 <= a < b < idx.len() ==> #[trigger] idx[a] < #[trigger] idx[b],
            forall|j: int| 0 <= j < i ==> (first_of_key(cs, tv, j) <==> idx.contains(j)),
            forall|k: int| 0 <= k < out@.len() ==> is_trimmed(#[trigger] out@[k], cs[idx[k]], tv),
            forall|k: int| 0 <= k < keys@.len() ==> key_view(#[trigger] keys@[k]) == bench_key(cs[idx[k]], tv),
            forall|j: int| 0 <= j < i ==> #[trigger] key_seen(keys@, bench_key(cs[j], tv)),
    {
        let orig = &commands[i];
        let ps = orig.get_parameters();
        let expr = orig.expression_ref();
        let name = orig.name_ref();
        let mut kept: Vec<(String, crate::parameter::ParameterValue)> = Vec::new();
        for j in 0..ps.len()
            invariant
                ps@ == orig.parameters_v(),
                expr@ == orig.expression_v(),
                opt_view(*name) == orig.name_v(),
                tv == views(ts@),
                kept@ == used_params(ps@.take(j as int), expr@, opt_view(*name), tv),
        {
            let ghost t = ps@.take(j + 1);
            assert(t.drop_last() =~= ps@.take(j as int));
            if is_used(&ps[j].0, expr, name, ts) {
                kept.push((ps[j].0.clone(), ps[j].1.copy_value()));
            }
        }
        assert(ps@.take(ps@.len() as int) =~= ps@);
        let mut c = orig.duplicate();
        c.set_parameters(kept);
        let ghost pv = params_view(trimmed_params(*orig, tv));
        let mut texts: Vec<(String, String)> = Vec::new();
        let cps = c.get_parameters();
        for j in 0..cps.len()
            invariant
                cps@ == trimmed_params(*orig, tv),
                pv == params_view(trimmed_params(*orig, tv)),
                texts_view(texts@) == pv.take(j as int),
        {
            let p = &cps[j];
            let ghost before = texts_view(texts@);
            let name = p.0.clone();
            let text = p.1.to_text();
            texts.push((name, text));
            assert(texts_view(texts@) =~= before.push((name@, text@)));
            assert(pv[j as int] == (p.0@, crate::parameter::value_text(p.1)));
            assert(texts_view(texts@) =~= pv.take(j + 1));
        }
        assert(pv.take(pv.len() as int) =~= pv);
        let display = c.get_name();
        proof {
            assert(c.replaced(c.expression_v()) == substitute(orig.expression_v(), pv));
            match c.argv_v() {
                Some(a) => {
                    assert(a.map_values(|w: Seq<char>| c.replaced(w))
                        =~= Seq::new(a.len(), |k: int| substitute(a[k], pv)));
                },
                None => {},
            }
            assert(display@ == name_with(*orig, pv));
        }
        let key: BenchKey = (expr.clone(), display, texts);
        assert(key_view(key) == bench_key(cs[i as int], tv));
        let mut seen = false;
        let mut k: usize = 0;
        while k < keys.len() && !seen
            invariant
                k <= keys@.len(),
                !seen ==> forall|m: int| 0 <= m < k ==> key_view(#[trigger] keys@[m]) != key_view(key),
                seen ==> exists|m: int| 0 <= m < keys@.len() && key_view(#[trigger] keys@[m]) == key_view(key),
            decreases keys.len() - k + (if seen { 0int } else { 1int }),
        {
            if key_eq(&keys[k as usize], &key) {
                seen = true;
            }
            k += 1;
        }
        proof {
            if seen {
                let m = choose|m: int| 0 <= m < keys@.len() && key_view(#[trigger] keys@[m]) == key_view(key);
                assert(idx[m] < i && bench_key(cs[idx[m]], tv) == bench_key(cs[i as int], tv));
                assert(!first_of_key(cs, tv, i as int));
                if idx.contains(i as int) {
                    let q = choose|q: int| 0 <= q < idx.len() && idx[q] == i;
                    assert(idx[q] < i);
                }
            } else {
                assert forall|j: int| 0 <= j < i implies bench_key(cs[j], tv) != bench_key(cs[i as int], tv) by {
                    assert(key_seen(keys@, bench_key(cs[j], tv)));
                    let m = choose|m: int| 0 <= m < keys@.len() && key_view(#[trigger] keys@[m]) == bench_key(cs[j], tv);
                    assert(key_view(keys@[m]) != key_view(key));
                }
            }
        }
        if !seen {
            let ghost old_idx = idx;
            let ghost old_keys = keys@;
            out.push(c);
            keys.push(key);
            proof {
                idx = idx.push(i as int);
                assert forall|j: int| 0 <= j < i + 1 implies (first_of_key(cs, tv, j) <==> idx.contains(j)) by {
                    if j < i {
                        if old_idx.contains(j) {
                            let q = choose|q: int| 0 <= q < old_idx.len() && old_idx[q] == j;
                            assert(idx[q] == j);
                        }
                        if idx.contains(j) {
                            let q = choose|q: int| 0 <= q < idx.len() && idx[q] == j;
                            if q < old_idx.len() {
                                assert(old_idx[q] == j);
                            }
                        }
                    } else {
                        assert(idx[idx.len() - 1] == i);
                    }
                }
                assert forall|j: int| 0 <= j < i + 1 implies #[trigger] key_seen(keys@, bench_key(cs[j], tv)) by {
                    if j < i {
                        assert(key_seen(old_keys, bench_key(cs[j], tv)));
                        let m = choose|m: int| 0 <= m < old_keys.len() && key_view(#[trigger] old_keys[m]) == bench_key(cs[j], tv);
                        assert(keys@[m] == old_keys[m]);
                    } else {
                        assert(keys@[keys@.len() - 1] == key);
                    }
                }
            }
        } else {
            proof {
                assert forall|j: int| 0 <= j < i + 1 implies (first_of_key(cs, tv, j) <==> idx.contains(j)) by {
                    if j == i {
                        if idx.contains(j) {
                            let q = choose|q: int| 0 <= q < idx.len() && idx[q] == j;
                            assert(idx[q] < i);
                        }
                    }
                }
                assert forall|j: int| 0 <= j < i + 1 implies #[trigger] key_seen(keys@, bench_key(cs[j], tv)) by {
                    if j == i {
                        let m = choose|m: int| 0 <= m < keys@.len() && key_view(#[trigger] keys@[m]) == key_view(key);
                        assert(key_view(keys@[m]) == bench_key(cs[j], tv));
                    }
                }
            }
        }
    }
    assert(kept_ok(commands@, views(ts@), out@, idx));
    out
}

// ------------------------------------------------------------------------
// Per-run samples and the commands that run once

/// `vars` are the `--parameter-sample` variables: each name with its list
/// of values.
pub open spec fn sample_vars_ok(args: CommandArgs, vars: Seq<(String, Seq<ParameterValue>)>) -> bool {
    let sa = args.parameter_samples@;
    &&& vars.len() == sa.len()
    &&& forall|i: int| 0 <= i < sa.len() ==> (#[trigger] vars[i]).0@ == sa[i].0@ && texts_ok(vars[i].1, tokens(sa[i].1@))
}

/// The number of combinations of the `--parameter-sample` values.
pub open spec fn sample_combos(sa: Seq<(String, String)>) -> nat
    decreases sa.len(),
{
    if sa.len() == 0 {
        1
    } else {
        sample_combos(sa.drop_last()) * tokens(sa.last().1@).len()
    }
}

/// All parameter names: `--parameter-sample`, `-P`, `-L`, `--parameter-file`.
pub open spec fn all_param_names(args: CommandArgs) -> Seq<Seq<char>> {
    let sa = args.parameter_samples@;
    let sc = args.parameter_scans@;
    let li = args.parameter_lists@;
    let fi = args.parameter_files@;
    Seq::new(sa.len(), |i: int| sa[i].0@) + Seq::new(sc.len(), |i: int| sc[i].0@)
        + Seq::new(li.len(), |i: int| li[i].0@) + Seq::new(fi.len(), |i: int| fi[i].0@)
}

/// The seed of `--parameter-sample` (0 by default).
pub open spec fn seed_of(args: CommandArgs) -> u64 {
    match args.seed {
        Some(s) => s,
        None => 0,
    }
}

/// What `--parameter-sample` gives: nothing, the per-run parameters, or
/// the reason why not.
pub open spec fn samples_ok(args: CommandArgs, r: Result<Option<PerRunParameters>, CommandsError>) -> bool {
    let names = all_param_names(args);
    if args.parameter_samples@.len() == 0 {
        r matches Ok(None)
    } else if names.contains("iteration"@) {
        r == Err::<Option<PerRunParameters>, CommandsError>(CommandsError::ReservedSampleName)
    } else if exists|x: Seq<char>| occurs_twice(names, x) {
        r matches Err(CommandsError::DuplicateParameterNames(d)) && strictly_sorted(views(d@))
            && forall|x: Seq<char>| #[trigger] views(d@).contains(x) <==> occurs_twice(names, x)
    } else if sample_combos(args.parameter_samples@) > usize::MAX {
        r == Err::<Option<PerRunParameters>, CommandsError>(CommandsError::TooManySampleCombinations)
    } else {
        r matches Ok(Some(p)) && sample_vars_ok(args, p.vars_v())
            && p.mode_v() == PerRunMode::Random { seed: seed_of(args) }
    }
}

/// Appends the names in `from` to `to`.
fn append_names(to: &mut Vec<String>, from: &Vec<String>)
    ensures
        views(final(to)@) == views(old(to)@) + views(from@),
{
    let ghost start = views(to@);
    for i in 0..from.len()
        invariant
            views(to@) == start + views(from@).take(i as int),
    {
        let ghost before = views(to@);
        let name = from[i].clone();
        to.push(name);
        assert(views(to@) =~= before.push(name@));
        assert(views(from@)[i as int] == name@);
        assert(views(to@) =~= start + views(from@).take(i + 1));
    }
    assert(views(from@).take(from@.len() as int) =~= views(from@));
}

/// The `--parameter-sample` per-run parameters.
pub fn sample_parameters(args: &CommandArgs) -> (r: Result<Option<PerRunParameters>, CommandsError>)
    ensures
        samples_ok(*args, r),
{
    if args.parameter_samples.len() == 0 {
        return Ok(None);
    }
    let sa = &args.parameter_samples;
    let mut vars: Vec<(String, Vec<ParameterValue>)> = Vec::new();
    let mut names: Vec<String> = Vec::new();
    let mut count: usize = 1;
    let mut overflow = false;
    for i in 0..sa.len()
        invariant
            sa@ == args.parameter_samples@,
            vars@.len() == i,
            views(names@) == Seq::new(i as nat, |k: int| sa@[k].0@),
            forall|k: int| 0 <= k < i ==> (#[trigger] vars_view(vars@)[k]).0@ == sa@[k].0@
                && texts_ok(vars_view(vars@)[k].1, tokens(sa@[k].1@)),
            !overflow ==> count == sample_combos(sa@.take(i as int)),
            overflow ==> sample_combos(sa@.take(i as int)) > usize::MAX,
    {
        let ts = tokenize(sa[i].1.as_str());
        let n = ts.len();
        let values = text_values(ts);
        proof {
            let t = sa@.take(i + 1);
            assert(t.drop_last() =~= sa@.take(i as int));
            assert(t.last() == sa@[i as int]);
            if overflow {
                let c = sample_combos(sa@.take(i as int));
                assert(c * n >= c) by (nonlinear_arith)
                    requires
                        n >= 1,
                ;
            }
        }
        if !overflow {
            match count.checked_mul(n) {
                Some(c) => count = c,
                None => overflow = true,
            }
        }
        let ghost before = vars_view(vars@);
        let ghost nb = views(names@);
        let name = sa[i].0.clone();
        names.push(sa[i].0.clone());
        vars.push((name, values));
        assert(vars_view(vars@) =~= before.push((name, values@)));
        assert(views(names@) =~= nb.push(sa@[i as int].0@));
        assert(views(names@) =~= Seq::new((i + 1) as nat, |k: int| sa@[k].0@));
    }
    assert(sa@.take(sa@.len() as int) =~= sa@);
    let mut other: Vec<String> = Vec::new();
    for i in 0..args.parameter_scans.len()
        invariant
            views(other@) == Seq::new(i as nat, |k: int| args.parameter_scans@[k].0@),
    {
        let ghost before = views(other@);
        let name = args.parameter_scans[i].0.clone();
        other.push(name);
        assert(views(other@) =~= before.push(name@));
        assert(views(other@) =~= Seq::new((i + 1) as nat, |k: int| args.parameter_scans@[k].0@));
    }
    append_names(&mut names, &other);
    let mut other: Vec<String> = Vec::new();
    for i in 0..args.parameter_lists.len()
        invariant
            views(other@) == Seq::new(i as nat, |k: int| args.parameter_lists@[k].0@),
    {
        let ghost before = views(other@);
        let name = args.parameter_lists[i].0.clone();
        other.push(name);
        assert(views(other@) =~= before.push(name@));
        assert(views(other@) =~= Seq::new((i + 1) as nat, |k: int| args.parameter_lists@[k].0@));
    }
    append_names(&mut names, &other);
    let mut other: Vec<String> = Vec::new();
    for i in 0..args.parameter_files.len()
        invariant
            views(other@) == Seq::new(i as nat, |k: int| args.parameter_files@[k].0@),
    {
        let ghost before = views(other@);
        let name = args.parameter_files[i].0.clone();
        other.push(name);
        assert(views(other@) =~= before.push(name@));
        assert(views(other@) =~= Seq::new((i + 1) as nat, |k: int| args.parameter_files@[k].0@));
    }
    append_names(&mut names, &other);
    assert(views(names@) =~= all_param_names(*args));
    match check_names(&names, CommandsError::ReservedSampleName) {
        Ok(()) => {},
        Err(e) => {
            proof {
                if !views(names@).contains("iteration"@) {
                    let d = e->DuplicateParameterNames_0;
                    assert(views(d@).contains(views(d@)[0]));
                    assert(occurs_twice(views(names@), views(d@)[0]));
                }
            }
            return Err(e);
        },
    }
    if overflow {
        return Err(CommandsError::TooManySampleCombinations);
    }
    proof {
        lemma_sample_combos(*args, vars_view(vars@));
        assert forall|i: int| 0 <= i < vars_view(vars@).len() implies #[trigger] vars_view(vars@)[i].1.len() >= 1 by {
            crate::parameter::lemma_tokens_nonempty(sa@[i].1@, Seq::empty());
        }
    }
    let seed = match args.seed {
        Some(s) => s,
        None => 0,
    };
    Ok(Some(PerRunParameters::new(vars, PerRunMode::Random { seed })))
}

proof fn lemma_sample_combos(args: CommandArgs, vars: Seq<(String, Seq<ParameterValue>)>)
    requires
        sample_vars_ok(args, vars),
    ensures
        combos(vars) == sample_combos(args.parameter_samples@),
{
    lemma_sample_combos_seq(args.parameter_samples@, vars);
}

proof fn lemma_sample_combos_seq(sa: Seq<(String, String)>, vars: Seq<(String, Seq<ParameterValue>)>)
    requires
        vars.len() == sa.len(),
        forall|i: int| 0 <= i < sa.len() ==> (#[trigger] vars[i]).1.len() == tokens(sa[i].1@).len(),
    ensures
        combos(vars) == sample_combos(sa),
    decreases vars.len(),
{
    if vars.len() > 0 {
        lemma_sample_combos_seq(sa.drop_last(), vars.drop_last());
        assert(vars.last().1.len() == tokens(sa.last().1@).len());
    }
}

/// The names of the per-run variables of all commands, in order.
pub open spec fn all_per_run_names(cs: Seq<Command>) -> Seq<Seq<char>>
    decreases cs.len(),
{
    if cs.len() == 0 {
        Seq::empty()
    } else {
        all_per_run_names(cs.drop_last()) + per_run_names_spec(cs.last().per_run_v())
    }
}

/// The first of `names` whose `{name}` occurs in `t`.
pub open spec fn first_used(t: Seq<char>, names: Seq<Seq<char>>) -> Option<Seq<char>>
    decreases names.len(),
{
    if names.len() == 0 {
        None
    } else if contains_seq(t, key_of(names[0])) {
        Some(names[0])
    } else {
        first_used(t, names.skip(1))
    }
}

/// For the first template that uses one of `names`, the first name it uses.
pub open spec fn first_conflict(ts: Seq<Seq<char>>, names: Seq<Seq<char>>) -> Option<Seq<char>>
    decreases ts.len(),
{
    if ts.len() == 0 {
        None
    } else {
        match first_used(ts[0], names) {
            Some(n) => Some(n),
            None => first_conflict(ts.skip(1), names),
        }
    }
}

/// The outcome of checking that `--setup` and `--cleanup` use no per-run
/// parameter of the commands `cs`.
pub open spec fn once_ok(cs: Seq<Command>, setup: Seq<Seq<char>>, cleanup: Seq<Seq<char>>, r: Result<(), CommandsError>) -> bool {
    let names = all_per_run_names(cs);
    match first_conflict(setup, names) {
        Some(n) => r matches Err(CommandsError::PerRunParameterInOnceCommand { option, name })
            && option@ == "setup"@ && name@ == n,
        None => match first_conflict(cleanup, names) {
            Some(n) => r matches Err(CommandsError::PerRunParameterInOnceCommand { option, name })
                && option@ == "cleanup"@ && name@ == n,
            None => r is Ok,
        },
    }
}

/// The first name used by `t` (see `first_used`).
fn find_used(t: &String, names: &Vec<String>) -> (r: Option<String>)
    ensures
        opt_view(r) == first_used(t@, views(names@)),
{
    let tc = chars_of(t.as_str());
    let ghost nv = views(names@);
    assert(nv.skip(0) =~= nv);
    for i in 0..names.len()
        invariant
            tc@ == t@,
            nv == views(names@),
            first_used(t@, nv) == first_used(t@, nv.skip(i as int)),
    {
        let k = key_chars(&names[i]);
        assert(nv.skip(i as int)[0] == names@[i as int]@);
        assert(nv.skip(i as int).skip(1) =~= nv.skip(i + 1));
        if contains_exec(tc.as_slice(), k.as_slice()) {
            return Some(names[i].clone());
        }
    }
    assert(nv.skip(names@.len() as int) =~= Seq::<Seq<char>>::empty());
    None
}

/// The first conflict of `ts` (see `first_conflict`).
fn find_conflict(ts: &Vec<String>, names: &Vec<String>) -> (r: Option<String>)
    ensures
        opt_view(r) == first_conflict(views(ts@), views(names@)),
{
    let ghost tv = views(ts@);
    assert(tv.skip(0) =~= tv);
    for i in 0..ts.len()
        invariant
            tv == views(ts@),
            first_conflict(tv, views(names@)) == first_conflict(tv.skip(i as int), views(names@)),
    {
        assert(tv.skip(i as int)[0] == ts@[i as int]@);
        assert(tv.skip(i as int).skip(1) =~= tv.skip(i + 1));
        match find_used(&ts[i], names) {
            Some(n) => return Some(n),
            None => {},
        }
    }
    assert(tv.skip(ts@.len() as int) =~= Seq::<Seq<char>>::empty());
    None
}

/// `--setup` and `--cleanup` run once per benchmark, so they cannot use a
/// per-run parameter (it would be passed on literally as `{name}`).
pub fn check_once_commands(cs: &Vec<Command>, setup: &Vec<String>, cleanup: &Vec<String>) -> (r: Result<(), CommandsError>)
    ensures
        once_ok(cs@, views(setup@), views(cleanup@), r),
{
    let mut names: Vec<String> = Vec::new();
    for i in 0..cs.len()
        invariant
            views(names@) == all_per_run_names(cs@.take(i as int)),
    {
        let more = cs[i].per_run_names();
        append_names(&mut names, &more);
        let ghost t = cs@.take(i + 1);
        assert(t.drop_last() =~= cs@.take(i as int));
    }
    assert(cs@.take(cs@.len() as int) =~= cs@);
    proof {
        reveal_strlit("setup");
        reveal_strlit("cleanup");
    }
    match find_conflict(setup, &names) {
        Some(name) => {
            return Err(CommandsError::PerRunParameterInOnceCommand { option: "setup".to_string(), name });
        },
        None => {},
    }
    match find_conflict(cleanup, &names) {
        Some(name) => {
            return Err(CommandsError::PerRunParameterInOnceCommand { option: "cleanup".to_string(), name });
        },
        None => {},
    }
    Ok(())
}

// ------------------------------------------------------------------------
// From the command line to the benchmarks

/// The templates: the positional commands, or one empty template for a
/// command given after `--`.
pub open spec fn templates_of(args: CommandArgs) -> Seq<Seq<char>> {
    match args.argv {
        Some(_) => seq![Seq::<char>::empty()],
        None => views(args.commands@),
    }
}

/// The templates of `--prepare`, `--conclude`, `--setup` and `--cleanup`.
pub open spec fn intermediate_templates(args: CommandArgs) -> Seq<Seq<char>> {
    views(args.prepare@) + views(args.conclude@) + views(args.setup@) + views(args.cleanup@)
}

/// The limit as a `usize`.
pub open spec fn max_usize(args: CommandArgs) -> usize {
    match args.max_benchmarks {
        Some(m) => m,
        None => 100_000,
    }
}

/// Without parameters: one command per template, the `i`-th named by the
/// `i`-th `--command-name`, if any.
pub open spec fn plain_ok(args: CommandArgs, r: Result<Vec<Command>, CommandsError>) -> bool {
    let strings = templates_of(args);
    let names = views(args.command_names@);
    if names.len() > strings.len() {
        r == Err::<Vec<Command>, CommandsError>(CommandsError::TooManyCommandNames(strings.len() as usize))
    } else {
        r matches Ok(v) && v@.len() == strings.len()
            && forall|i: int| 0 <= i < strings.len() ==> is_benchmark(#[trigger] v@[i],
                if i < names.len() { Some(names[i]) } else { None }, strings[i], argv_view(args.argv), Seq::empty())
    }
}

/// The benchmarks for the parameters `ps`: aggregated, crossed, or crossed
/// and then trimmed to the used parameters.
pub open spec fn product_ok(args: CommandArgs, ps: Seq<(String, Seq<ParameterValue>)>, r: Result<Vec<Command>, CommandsError>) -> bool {
    let strings = templates_of(args);
    let names = views(args.command_names@);
    let argv = argv_view(args.argv);
    if args.aggregate_parameter_runs {
        aggregated_ok(strings, argv, names, ps, max_usize(args), r)
    } else if !args.expand_used_parameters {
        cross_ok(strings, argv, names, ps, max_usize(args), r)
    } else {
        exists|cr: Result<Vec<Command>, CommandsError>| #[trigger] cross_ok(strings, argv, names, ps, max_usize(args), cr)
            && match cr {
                Err(e) => r == Err::<Vec<Command>, CommandsError>(e),
                Ok(full) => r matches Ok(out) && exists|idx: Seq<int>| kept_ok(full@, intermediate_templates(args), out@, idx),
            }
    }
}

/// The parameter names are checked, then the benchmarks built.
pub open spec fn named_ok(args: CommandArgs, ps: Seq<(String, Seq<ParameterValue>)>, r: Result<Vec<Command>, CommandsError>) -> bool {
    let ns = names_of(ps);
    if ns.contains("iteration"@) {
        r == Err::<Vec<Command>, CommandsError>(CommandsError::ReservedParameterName)
    } else if exists|x: Seq<char>| occurs_twice(ns, x) {
        r matches Err(CommandsError::DuplicateParameterNames(d)) && strictly_sorted(views(d@))
            && forall|x: Seq<char>| #[trigger] views(d@).contains(x) <==> occurs_twice(ns, x)
    } else {
        product_ok(args, ps, r)
    }
}

/// An error of `collect_parameters` with its reason.
pub open spec fn collect_error_ok(args: CommandArgs, e: CommandsError) -> bool {
    ||| e matches CommandsError::Scan(se) && exists|i: int| 0 <= i < args.parameter_scans@.len()
            && scan_error_ok((#[trigger] args.parameter_scans@[i]).1@, args.parameter_scans@[i].2@, step_view(args), se)
    ||| e matches CommandsError::UnreadableParameterFile(p) && exists|i: int| 0 <= i < args.parameter_files@.len()
            && (#[trigger] args.parameter_files@[i]).2 is None && args.parameter_files@[i].1@ == p@
    ||| e matches CommandsError::EmptyParameterFile(p) && exists|i: int| 0 <= i < args.parameter_files@.len()
            && (#[trigger] args.parameter_files@[i]).2 is Some && args.parameter_files@[i].1@ == p@
            && file_values(lines(args.parameter_files@[i].2->0@)).len() == 0
}

/// What the command templates and parameters give, before per-run samples.
pub open spec fn expand_ok(args: CommandArgs, r: Result<Vec<Command>, CommandsError>) -> bool {
    if !has_parameters(args) {
        plain_ok(args, r)
    } else if step_conflict(args) {
        r == Err::<Vec<Command>, CommandsError>(CommandsError::StepSizeWithMultipleScans)
    } else if params_fine(args) {
        exists|ps: Seq<(String, Seq<ParameterValue>)>| #[trigger] params_ok(args, ps) && named_ok(args, ps, r)
    } else {
        (r matches Err(e) && collect_error_ok(args, e))
            || exists|ps: Seq<(String, Seq<ParameterValue>)>| #[trigger] params_ok(args, ps) && named_ok(args, ps, r)
    }
}

proof fn lemma_trimmed_product(args: CommandArgs, ps: Seq<(String, Seq<ParameterValue>)>, full: Vec<Command>, out: Vec<Command>)
    requires
        !args.aggregate_parameter_runs,
        args.expand_used_parameters,
        cross_ok(templates_of(args), argv_view(args.argv), views(args.command_names@), ps, max_usize(args), Ok(full)),
        exists|idx: Seq<int>| kept_ok(full@, intermediate_templates(args), out@, idx),
    ensures
        product_ok(args, ps, Ok(out)),
{
    let cr = Ok::<Vec<Command>, CommandsError>(full);
    let r = Ok::<Vec<Command>, CommandsError>(out);
    assert(cross_ok(templates_of(args), argv_view(args.argv), views(args.command_names@), ps, max_usize(args), cr));
    let idx = choose|idx: Seq<int>| kept_ok(full@, intermediate_templates(args), out@, idx);
    assert(r matches Ok(o) && kept_ok(full@, intermediate_templates(args), o@, idx));
    assert(match cr {
        Err(e) => r == Err::<Vec<Command>, CommandsError>(e),
        Ok(f) => r matches Ok(o) && exists|idx: Seq<int>| kept_ok(f@, intermediate_templates(args), o@, idx),
    });
}

/// The benchmarks of the command templates and `-P`, `-L` and
/// `--parameter-file`, before per-run samples.
pub fn expand_parameters(args: &CommandArgs) -> (r: Result<Vec<Command>, CommandsError>)
    ensures
        expand_ok(*args, r),
{
    let strings: Vec<String> = match &args.argv {
        Some(_) => {
            let mut v: Vec<String> = Vec::new();
            v.push(String::new());
            v
        },
        None => copy_strings(&args.commands),
    };
    assert(views(strings@) =~= templates_of(*args));
    let max: usize = match args.max_benchmarks {
        Some(m) => m,
        None => 100_000,
    };
    let names = &args.command_names;
    let with_params = args.parameter_scans.len() > 0 || args.parameter_lists.len() > 0 || args.parameter_files.len() > 0;
    if !with_params {
        if names.len() > strings.len() {
            return Err(CommandsError::TooManyCommandNames(strings.len()));
        }
        let mut out: Vec<Command> = Vec::new();
        for i in 0..strings.len()
            invariant
                views(strings@) == templates_of(*args),
                names@.len() <= strings@.len(),
                names == &args.command_names,
                out@.len() == i,
                forall|k: int| 0 <= k < i ==> is_benchmark(#[trigger] out@[k],
                    if k < names@.len() { Some(views(names@)[k]) } else { None }, views(strings@)[k],
                    argv_view(args.argv), Seq::empty()),
        {
            let name = if i < names.len() { Some(names[i].clone()) } else { None };
            let none: Vec<(String, ParameterValue)> = Vec::new();
            assert(none@ =~= Seq::<(String, ParameterValue)>::empty());
            let c = make_command(name, &strings[i], &args.argv, none);
            proof {
                assert(views(strings@)[i as int] == strings@[i as int]@);
                if i < names@.len() {
                    assert(views(names@)[i as int] == names@[i as int]@);
                }
            }
            out.push(c);
        }
        return Ok(out);
    }
    let params = match collect_parameters(args) {
        Ok(p) => p,
        Err(e) => {
            assert(e is StepSizeWithMultipleScans || collect_error_ok(*args, e));
            return Err(e);
        },
    };
    let ghost ps = vars_view(params@);
    let pnames = param_names(&params);
    match check_names(&pnames, CommandsError::ReservedParameterName) {
        Ok(()) => {},
        Err(e) => {
            proof {
                if !views(pnames@).contains("iteration"@) {
                    let d = e->DuplicateParameterNames_0;
                    assert(views(d@).contains(views(d@)[0]));
                    assert(occurs_twice(views(pnames@), views(d@)[0]));
                }
                assert(named_ok(*args, ps, Err(e)));
            }
            return Err(e);
        },
    }
    assert(!names_of(ps).contains("iteration"@));
    assert(!exists|x: Seq<char>| occurs_twice(names_of(ps), x));
    if args.aggregate_parameter_runs {
        let r = aggregated(&strings, &args.argv, names, params, max);
        assert(named_ok(*args, ps, r));
        return r;
    }
    let cr = cross_product(&strings, &args.argv, names, &params, max);
    if !args.expand_used_parameters {
        assert(named_ok(*args, ps, cr));
        return cr;
    }
    let ghost crg = cr;
    let commands = match cr {
        Ok(c) => c,
        Err(e) => {
            assert(max == max_usize(*args));
            assert(cross_ok(templates_of(*args), argv_view(args.argv), views(args.command_names@), ps, max_usize(*args), crg));
            assert(product_ok(*args, ps, Err(e)));
            assert(named_ok(*args, ps, Err(e)));
            return Err(e);
        },
    };
    assert(crg == Ok::<Vec<Command>, CommandsError>(commands));
    let mut ts: Vec<String> = Vec::new();
    append_names(&mut ts, &args.prepare);
    append_names(&mut ts, &args.conclude);
    append_names(&mut ts, &args.setup);
    append_names(&mut ts, &args.cleanup);
    assert(views(ts@) =~= intermediate_templates(*args));
    let ghost full = commands;
    let out = keep_used_parameters(commands, &ts);
    assert(max == max_usize(*args));
    assert(cross_ok(templates_of(*args), argv_view(args.argv), views(args.command_names@), ps, max_usize(*args), crg));
    assert(exists|idx: Seq<int>| kept_ok(full@, intermediate_templates(*args), out@, idx));
    proof {
        lemma_trimmed_product(*args, ps, full, out);
    }
    assert(named_ok(*args, ps, Ok(out)));
    Ok(out)
}

/// A collection of commands that should be benchmarked.
pub struct Commands(Vec<Command>);

impl View for Commands {
    type V = Seq<Command>;

    closed spec fn view(&self) -> Seq<Command> {
        self.0@
    }
}

/// `c` is `orig` with the sample's per-run parameters added (if any).
pub open spec fn with_sample(c: Command, orig: Command, p: Option<PerRunParameters>) -> bool {
    &&& c.name_v() == orig.name_v()
    &&& c.expression_v() == orig.expression_v()
    &&& c.argv_v() == orig.argv_v()
    &&& c.parameters_v() == orig.parameters_v()
    &&& c.per_run_v() == match p {
        Some(p) => orig.per_run_v().push(crate::command::per_run_view(p)),
        None => orig.per_run_v(),
    }
}

/// What the benchmarks `v` become with `--parameter-sample`, and after the
/// check of `--setup` and `--cleanup`.
pub open spec fn finished_ok(args: CommandArgs, v: Seq<Command>, r: Result<Commands, CommandsError>) -> bool {
    exists|sr: Result<Option<PerRunParameters>, CommandsError>| #[trigger] samples_ok(args, sr) && match sr {
        Err(e) => r == Err::<Commands, CommandsError>(e),
        Ok(p) => exists|cs: Seq<Command>, once: Result<(), CommandsError>| #[trigger] once_ok(cs, views(args.setup@), views(args.cleanup@), once)
            && cs.len() == v.len()
            && (forall|k: int| 0 <= k < v.len() ==> with_sample(#[trigger] cs[k], v[k], p))
            && match once {
                Err(e) => r == Err::<Commands, CommandsError>(e),
                Ok(()) => r matches Ok(c) && c@ == cs,
            },
    }
}

impl Commands {
    /// The benchmarks of the command line: the command templates crossed
    /// with the parameters, with the per-run samples, once it is checked
    /// that `--setup` and `--cleanup` use no per-run parameter.
    pub fn from_args(args: &CommandArgs) -> (r: Result<Commands, CommandsError>)
        ensures
            args.aggregate_parameter_runs && !has_parameters(*args)
                ==> r == Err::<Commands, CommandsError>(CommandsError::AggregateWithoutParameters),
            !(args.aggregate_parameter_runs && !has_parameters(*args)) ==> exists|er: Result<Vec<Command>, CommandsError>|
                #[trigger] expand_ok(*args, er) && match er {
                    Err(e) => r == Err::<Commands, CommandsError>(e),
                    Ok(v) => finished_ok(*args, v@, r),
                },
    {
        let with_params = args.parameter_scans.len() > 0 || args.parameter_lists.len() > 0 || args.parameter_files.len() > 0;
        if args.aggregate_parameter_runs && !with_params {
            return Err(CommandsError::AggregateWithoutParameters);
        }
        let er = expand_parameters(args);
        let ghost erg = er;
        let commands = match er {
            Ok(c) => c,
            Err(e) => {
                assert(expand_ok(*args, erg));
                return Err(e);
            },
        };
        let sr = sample_parameters(args);
        let ghost srg = sr;
        let sample = match sr {
            Ok(p) => p,
            Err(e) => {
                assert(samples_ok(*args, srg));
                assert(finished_ok(*args, commands@, Err(e)));
                assert(expand_ok(*args, erg));
                return Err(e);
            },
        };
        let mut cs: Vec<Command> = Vec::new();
        for k in 0..commands.len()
            invariant
                cs@.len() == k,
                forall|i: int| 0 <= i < k ==> with_sample(#[trigger] cs@[i], commands@[i], sample),
        {
            let mut c = commands[k].duplicate();
            match &sample {
                Some(p) => c.add_per_run(p.clone()),
                None => {},
            }
            cs.push(c);
        }
        let once = check_once_commands(&cs, &args.setup, &args.cleanup);
        let ghost og = once;
        match once {
            Err(e) => {
                assert(once_ok(cs@, views(args.setup@), views(args.cleanup@), og));
                assert(finished_ok(*args, commands@, Err(e)));
                assert(expand_ok(*args, erg));
                Err(e)
            },
            Ok(()) => {
                let r = Commands(cs);
                assert(once_ok(r@, views(args.setup@), views(args.cleanup@), og));
                assert(finished_ok(*args, commands@, Ok(r)));
                assert(expand_ok(*args, erg));
                Ok(r)
            },
        }
    }

    /// The commands, in order.
    pub fn iter(&self) -> (r: std::slice::Iter<'_, Command>)
        ensures
            vstd::std_specs::slice::into_iter_elts(r) == self@,
    {
        let it = self.0.iter();
        proof {
            broadcast use vstd::std_specs::slice::axiom_spec_slice_iter;
            assert(self.0@.map_values(|c: Command| &c).unref() =~= self.0@);
        }
        it
    }

    /// The commands, in order.
    pub fn commands(&self) -> (r: &Vec<Command>)
        ensures
            r@ == self@,
    {
        &self.0
    }

    /// The number of benchmarks, counting the reference command if there is
    /// one.
    pub fn num_commands(&self, has_reference_command: bool) -> (n: usize)
        requires
            self@.len() < usize::MAX,
        ensures
            n == self@.len() + if has_reference_command { 1int } else { 0int },
    {
        self.0.len() + if has_reference_command { 1 } else { 0 }
    }
}

// ------------------------------------------------------------------------
// Messages

/// The dimensions of the benchmark space as `NAME: SIZE`, separated by ` × `.
pub open spec fn dimensions_text(d: Seq<(String, usize)>) -> Seq<char>
    decreases d.len(),
{
    if d.len() == 0 {
        Seq::empty()
    } else {
        let item = d.last().0@ + ": "@ + crate::text::decimal(d.last().1 as nat);
        if d.len() == 1 { item } else { dimensions_text(d.drop_last()) + " × "@ + item }
    }
}

/// The message of an error about the benchmarks.
pub open spec fn commands_error_text(e: CommandsError) -> Seq<char> {
    match e {
        CommandsError::AggregateWithoutParameters => "'--aggregate-parameter-runs' needs parameters to aggregate over ('-L', '-P' or '--parameter-file')"@,
        CommandsError::StepSizeWithMultipleScans => "The '--parameter-step-size' ('-D') option cannot be used when multiple '--parameter-scan' ('-P') options are specified"@,
        CommandsError::Scan(e) => crate::parameter::scan_error_text(e),
        CommandsError::UnreadableParameterFile(path) => "Could not read parameter file '"@ + path@ + "'"@,
        CommandsError::EmptyParameterFile(path) => "Parameter file '"@ + path@ + "' contains no values"@,
        CommandsError::ReservedParameterName => "The parameter name 'iteration' is reserved: '{iteration}' always expands to the current iteration (like $JOULEX_ITERATION)"@,
        CommandsError::ReservedSampleName => "The parameter name 'iteration' is reserved"@,
        CommandsError::DuplicateParameterNames(names) => "Duplicate parameter names: "@ + crate::text::join(views(names@), ", "@),
        CommandsError::TooManyBenchmarks { max, dimensions } => "The parameter combinations would create more than "@
            + crate::text::decimal(max as nat) + " benchmarks ("@ + dimensions_text(dimensions@)
            + "). Reduce the ranges, use --parameter-step-size, or override with --max-benchmarks."@,
        CommandsError::TooManyAggregatedRuns(max) => "'--aggregate-parameter-runs' would need more than "@
            + crate::text::decimal(max as nat)
            + " runs per command (one per parameter combination). Reduce the ranges, or override with --max-benchmarks."@,
        CommandsError::UnexpectedCommandNameCount(given, benchmarks) => "'--command-name' has been specified "@
            + crate::text::decimal(given as nat) + " times. It has to appear exactly once, or exactly "@
            + crate::text::decimal(benchmarks as nat) + " times (number of benchmarks)"@,
        CommandsError::TooManyCommandNames(n) => "Too many --command-name options: Expected "@ + crate::text::decimal(n as nat)
            + " at most"@,
        CommandsError::TooManySampleCombinations => "The '--parameter-sample' values have too many combinations"@,
        CommandsError::PerRunParameterInOnceCommand { option, name } => "'--"@ + option@
            + "' runs once per benchmark, so it cannot use the per-run parameter '{"@ + name@
            + "}' ('--parameter-sample' / '--aggregate-parameter-runs'). Use '--prepare' / '--conclude', which run before / after every run with its values."@,
    }
}

impl CommandsError {
    /// The message shown to the user.
    pub fn message(&self) -> (s: String)
        ensures
            s@ == commands_error_text(*self),
    {
        let mut s = String::new();
        match self {
            CommandsError::AggregateWithoutParameters => {
                push_str(&mut s, "'--aggregate-parameter-runs' needs parameters to aggregate over ('-L', '-P' or '--parameter-file')");
            },
            CommandsError::StepSizeWithMultipleScans => {
                push_str(&mut s, "The '--parameter-step-size' ('-D') option cannot be used when multiple '--parameter-scan' ('-P') options are specified");
            },
            CommandsError::Scan(e) => {
                let m = e.message();
                push_str(&mut s, m.as_str());
            },
            CommandsError::UnreadableParameterFile(path) => {
                push_str(&mut s, "Could not read parameter file '");
                push_str(&mut s, path.as_str());
                push_str(&mut s, "'");
            },
            CommandsError::EmptyParameterFile(path) => {
                push_str(&mut s, "Parameter file '");
                push_str(&mut s, path.as_str());
                push_str(&mut s, "' contains no values");
            },
            CommandsError::ReservedParameterName => {
                push_str(&mut s, "The parameter name 'iteration' is reserved: '{iteration}' always expands to the current iteration (like $JOULEX_ITERATION)");
            },
            CommandsError::ReservedSampleName => {
                push_str(&mut s, "The parameter name 'iteration' is reserved");
            },
            CommandsError::DuplicateParameterNames(names) => {
                push_str(&mut s, "Duplicate parameter names: ");
                let ghost start = s@;
                assert(views(names@).take(0) =~= Seq::<Seq<char>>::empty());
                for i in 0..names.len()
                    invariant
                        s@ == start + crate::text::join(views(names@).take(i as int), ", "@),
                {
                    proof {
                        let t = views(names@).take(i + 1);
                        assert(t.drop_last() =~= views(names@).take(i as int));
                        assert(t.last() == names@[i as int]@);
                    }
                    if i > 0 {
                        push_str(&mut s, ", ");
                    }
                    push_str(&mut s, names[i].as_str());
                    assert(s@ =~= start + crate::text::join(views(names@).take(i + 1), ", "@));
                }
                assert(views(names@).take(names@.len() as int) =~= views(names@));
            },
            CommandsError::TooManyBenchmarks { max, dimensions } => {
                push_str(&mut s, "The parameter combinations would create more than ");
                push_decimal(&mut s, *max as u64);
                push_str(&mut s, " benchmarks (");
                let ghost start = s@;
                assert(dimensions@.take(0) =~= Seq::<(String, usize)>::empty());
                for i in 0..dimensions.len()
                    invariant
                        s@ == start + dimensions_text(dimensions@.take(i as int)),
                {
                    proof {
                        let t = dimensions@.take(i + 1);
                        assert(t.drop_last() =~= dimensions@.take(i as int));
                        assert(t.last() == dimensions@[i as int]);
                    }
                    if i > 0 {
                        push_str(&mut s, " × ");
                    }
                    push_str(&mut s, dimensions[i].0.as_str());
                    push_str(&mut s, ": ");
                    push_decimal(&mut s, dimensions[i].1 as u64);
                    assert(s@ =~= start + dimensions_text(dimensions@.take(i + 1)));
                }
                assert(dimensions@.take(dimensions@.len() as int) =~= dimensions@);
                push_str(&mut s, "). Reduce the ranges, use --parameter-step-size, or override with --max-benchmarks.");
            },
            CommandsError::TooManyAggregatedRuns(max) => {
                push_str(&mut s, "'--aggregate-parameter-runs' would need more than ");
                push_decimal(&mut s, *max as u64);
                push_str(&mut s, " runs per command (one per parameter combination). Reduce the ranges, or override with --max-benchmarks.");
            },
            CommandsError::UnexpectedCommandNameCount(given, benchmarks) => {
                push_str(&mut s, "'--command-name' has been specified ");
                push_decimal(&mut s, *given as u64);
                push_str(&mut s, " times. It has to appear exactly once, or exactly ");
                push_decimal(&mut s, *benchmarks as u64);
                push_str(&mut s, " times (number of benchmarks)");
            },
            CommandsError::TooManyCommandNames(n) => {
                push_str(&mut s, "Too many --command-name options: Expected ");
                push_decimal(&mut s, *n as u64);
                push_str(&mut s, " at most");
            },
            CommandsError::TooManySampleCombinations => {
                push_str(&mut s, "The '--parameter-sample' values have too many combinations");
            },
            CommandsError::PerRunParameterInOnceCommand { option, name } => {
                push_str(&mut s, "'--");
                push_str(&mut s, option.as_str());
                push_str(&mut s, "' runs once per benchmark, so it cannot use the per-run parameter '{");
                push_str(&mut s, name.as_str());
                push_str(&mut s, "}' ('--parameter-sample' / '--aggregate-parameter-runs'). Use '--prepare' / '--conclude', which run before / after every run with its values.");
            },
        }
        s
    }
}

} // verus!

verus! {

// ------------------------------------------------------------------------
// The cross product holds every combination exactly once

/// The number whose mixed-radix digits (least significant first) are `d`.
pub open spec fn mixed_value(d: Seq<nat>, lens: Seq<nat>) -> nat
    decreases d.len(),
{
    if d.len() == 0 || lens.len() == 0 {
        0
    } else {
        d[0] + lens[0] * mixed_value(d.skip(1), lens.skip(1))
    }
}

/// `d` selects one value of each parameter: one digit below each length.
pub open spec fn valid_digits(d: Seq<nat>, lens: Seq<nat>) -> bool {
    d.len() == lens.len() && forall|j: int| 0 <= j < d.len() ==> #[trigger] d[j] < lens[j]
}

proof fn lemma_digits_of_index(q: nat, lens: Seq<nat>)
    requires
        q < prod(lens),
    ensures
        valid_digits(mixed_digits(q, lens), lens),
        mixed_value(mixed_digits(q, lens), lens) == q,
    decreases lens.len(),
{
    if lens.len() > 0 {
        let l0 = lens[0];
        let rest = lens.skip(1);
        assert(l0 > 0) by (nonlinear_arith)
            requires q < l0 * prod(rest), q >= 0, prod(rest) >= 0;
        vstd::arithmetic::div_mod::lemma_multiply_divide_lt(q as int, l0 as int, prod(rest) as int);
        lemma_digits_of_index(q / l0, rest);
        let d = mixed_digits(q, lens);
        assert(d.skip(1) =~= mixed_digits(q / l0, rest));
        assert forall|j: int| 0 <= j < d.len() implies #[trigger] d[j] < lens[j] by {
            if j > 0 {
                assert(d[j] == d.skip(1)[j - 1]);
                assert(lens[j] == rest[j - 1]);
            }
        }
        vstd::arithmetic::div_mod::lemma_fundamental_div_mod(q as int, l0 as int);
    }
}

proof fn lemma_index_of_digits(d: Seq<nat>, lens: Seq<nat>)
    requires
        valid_digits(d, lens),
    ensures
        mixed_value(d, lens) < prod(lens),
        mixed_digits(mixed_value(d, lens), lens) == d,
    decreases d.len(),
{
    if d.len() > 0 {
        let l0 = lens[0];
        let rest = lens.skip(1);
        let tail = d.skip(1);
        assert(valid_digits(tail, rest)) by {
            assert forall|j: int| 0 <= j < tail.len() implies #[trigger] tail[j] < rest[j] by {
                assert(tail[j] == d[j + 1]);
                assert(rest[j] == lens[j + 1]);
            }
        }
        lemma_index_of_digits(tail, rest);
        let v = mixed_value(d, lens);
        let t = mixed_value(tail, rest);
        assert(d[0] < l0);
        assert(v == d[0] + l0 * t);
        assert(v < l0 * prod(rest)) by (nonlinear_arith)
            requires v == d[0] + l0 * t, d[0] < l0, t < prod(rest), t >= 0;
        vstd::arithmetic::div_mod::lemma_fundamental_div_mod_converse(v as int, l0 as int, t as int, d[0] as int);
        assert(mixed_digits(v, lens) =~= d);
    }
}

/// Benchmark numbers and combinations of parameter values correspond one
/// to one: the combination of every benchmark number below the product of
/// the lengths selects one value of each parameter, every such combination
/// is the combination of a benchmark number, and of one only.
pub proof fn lemma_each_combination_once(lens: Seq<nat>, d: Seq<nat>, q1: nat, q2: nat)
    ensures
        q1 < prod(lens) ==> valid_digits(mixed_digits(q1, lens), lens),
        valid_digits(d, lens) ==> mixed_value(d, lens) < prod(lens) && mixed_digits(mixed_value(d, lens), lens) == d,
        q1 < prod(lens) && q2 < prod(lens) && mixed_digits(q1, lens) == mixed_digits(q2, lens) ==> q1 == q2,
{
    if q1 < prod(lens) {
        lemma_digits_of_index(q1, lens);
    }
    if q2 < prod(lens) {
        lemma_digits_of_index(q2, lens);
    }
    if valid_digits(d, lens) {
        lemma_index_of_digits(d, lens);
    }
}

} // verus!

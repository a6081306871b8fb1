//! Commands to benchmark, with parameter substitution: `{name}` in a command
//! template is replaced by the value of parameter `name`.
use vstd::prelude::*;
use rand::rngs::StdRng;
use rand::{Rng, SeedableRng};
use crate::benchmark::executor::{env_var_value, BenchmarkIteration};
use crate::parameter::{value_text, ParameterValue};
use crate::text::{chars_of, occurs_at, push_char, push_str, starts_with};

verus! {

/// `{name}`: how parameter `name` is referred to in a template.
pub open spec fn key_of(name: Seq<char>) -> Seq<char> {
    seq!['{'] + name + seq!['}']
}

/// Parameters as (name, text of the value).
pub open spec fn params_view(ps: Seq<(String, ParameterValue)>) -> Seq<(Seq<char>, Seq<char>)> {
    ps.map_values(|p: (String, ParameterValue)| (p.0@, value_text(p.1)))
}

/// Which parameter replaces the text at the start of `s`: among the
/// parameters whose `{name}` starts `s`, the one with the shortest key (the
/// first in the sorted order of keys), and of equal names the last one.
/// `best` is the candidate among `ps[..j]` (-1 for none).
pub open spec fn best_from(s: Seq<char>, ps: Seq<(Seq<char>, Seq<char>)>, j: int, best: int) -> int
    decreases ps.len() - j,
{
    if j >= ps.len() || j < 0 {
        best
    } else {
        let k = key_of(ps[j].0);
        if starts_with(s, k) && (best < 0 || k.len() <= key_of(ps[best].0).len()) {
            best_from(s, ps, j + 1, j)
        } else {
            best_from(s, ps, j + 1, best)
        }
    }
}

/// The replacing parameter at the start of `s`, or -1.
pub open spec fn best_match(s: Seq<char>, ps: Seq<(Seq<char>, Seq<char>)>) -> int {
    best_from(s, ps, 0, -1)
}

pub proof fn lemma_best_from(s: Seq<char>, ps: Seq<(Seq<char>, Seq<char>)>, j: int, best: int)
    requires
        0 <= j,
        best == -1 || (0 <= best < ps.len() && starts_with(s, key_of(ps[best].0))),
    ensures
        best_from(s, ps, j, best) == -1 || (0 <= best_from(s, ps, j, best) < ps.len()
            && starts_with(s, key_of(ps[best_from(s, ps, j, best)].0))),
    decreases ps.len() - j,
{
    if j < ps.len() {
        let k = key_of(ps[j].0);
        if starts_with(s, k) && (best < 0 || k.len() <= key_of(ps[best].0).len()) {
            lemma_best_from(s, ps, j + 1, j);
        } else {
            lemma_best_from(s, ps, j + 1, best);
        }
    }
}

/// `s` with every `{name}` replaced by the parameter's value, scanning from
/// left to right: replaced text is never scanned again, so a value that
/// contains `{other}` is kept as it is.
pub open spec fn substitute(s: Seq<char>, ps: Seq<(Seq<char>, Seq<char>)>) -> Seq<char>
    decreases s.len(),
{
    if s.len() == 0 {
        Seq::empty()
    } else {
        let b = best_match(s, ps);
        proof {
            lemma_best_from(s, ps, 0, -1);
        }
        if 0 <= b < ps.len() && starts_with(s, key_of(ps[b].0)) {
            ps[b].1 + substitute(s.skip(key_of(ps[b].0).len() as int), ps)
        } else {
            seq![s[0]] + substitute(s.skip(1), ps)
        }
    }
}

pub proof fn lemma_occurs_skip(s: Seq<char>, i: int, p: Seq<char>)
    requires
        0 <= i <= s.len(),
    ensures
        occurs_at(s, i, p) == starts_with(s.skip(i), p),
{
    if i + p.len() <= s.len() {
        assert(s.skip(i).subrange(0, p.len() as int) =~= s.subrange(i, i + p.len()));
    }
}

/// The keys and value texts of a parameter list, for substitution.
pub struct Replacements {
    pub keys: Vec<Vec<char>>,
    pub values: Vec<String>,
}

impl Replacements {
    pub open spec fn matches(&self, ps: Seq<(Seq<char>, Seq<char>)>) -> bool {
        &&& self.keys@.len() == ps.len()
        &&& self.values@.len() == ps.len()
        &&& forall|j: int| 0 <= j < ps.len() ==> #[trigger] self.keys@[j]@ == key_of(ps[j].0)
        &&& forall|j: int| 0 <= j < ps.len() ==> #[trigger] self.values@[j]@ == ps[j].1
    }
}

/// The replacement table of `parameters`.
pub fn replacements(parameters: &Vec<(String, ParameterValue)>) -> (r: Replacements)
    ensures
        r.matches(params_view(parameters@)),
{
    let mut keys: Vec<Vec<char>> = Vec::new();
    let mut values: Vec<String> = Vec::new();
    let ghost ps = params_view(parameters@);
    for j in 0..parameters.len()
        invariant
            ps == params_view(parameters@),
            keys@.len() == j,
            values@.len() == j,
            forall|k: int| 0 <= k < j ==> #[trigger] keys@[k]@ == key_of(ps[k].0),
            forall|k: int| 0 <= k < j ==> #[trigger] values@[k]@ == ps[k].1,
    {
        let name = chars_of(parameters[j].0.as_str());
        let mut key: Vec<char> = Vec::new();
        key.push('{');
        let mut t: usize = 0;
        while t < name.len()
            invariant
                t <= name@.len(),
                key@ == seq!['{'] + name@.take(t as int),
            decreases name.len() - t,
        {
            key.push(name[t]);
            t += 1;
            assert(key@ =~= seq!['{'] + name@.take(t as int));
        }
        key.push('}');
        assert(name@.take(name@.len() as int) =~= name@);
        assert(key@ =~= key_of(ps[j as int].0));
        keys.push(key);
        values.push(parameters[j].1.to_text());
    }
    Replacements { keys, values }
}

/// `substitute(template, ps)`, for the table `table` of `ps`.
pub(crate) fn substitute_exec(template: &str, table: &Replacements, ps: Ghost<Seq<(Seq<char>, Seq<char>)>>) -> (r: String)
    requires
        table.matches(ps@),
    ensures
        r@ == substitute(template@, ps@),
{
    let cs = chars_of(template);
    let mut result = String::new();
    let mut i: usize = 0;
    assert(cs@.skip(0) =~= cs@);
    while i < cs.len()
        invariant
            table.matches(ps@),
            cs@ == template@,
            i <= cs@.len(),
            result@ + substitute(cs@.skip(i as int), ps@) == substitute(template@, ps@),
        decreases cs.len() - i,
    {
        let ghost rest = cs@.skip(i as int);
        // the replacing parameter at position i
        let mut best: Option<usize> = None;
        let mut j: usize = 0;
        while j < table.keys.len()
            invariant
                table.matches(ps@),
                cs@ == template@,
                i < cs@.len(),
                rest == cs@.skip(i as int),
                j <= ps@.len(),
                best matches Some(b) ==> b < j,
                best_from(rest, ps@, j as int, match best { Some(b) => b as int, None => -1 }) == best_match(rest, ps@),
            decreases table.keys.len() - j,
        {
            let hit = crate::text::occurs_at_exec(cs.as_slice(), i, table.keys[j].as_slice());
            proof { lemma_occurs_skip(cs@, i as int, table.keys@[j as int]@); }
            let shorter = match best {
                None => true,
                Some(b) => table.keys[j].len() <= table.keys[b].len(),
            };
            if hit && shorter {
                best = Some(j);
            }
            j += 1;
        }
        proof { lemma_best_from(rest, ps@, 0, -1); }
        match best {
            Some(b) => {
                proof { lemma_occurs_skip(cs@, i as int, table.keys@[b as int]@); }
                let ghost before = result@;
                push_str(&mut result, table.values[b].as_str());
                let klen = table.keys[b].len();
                assert(rest.skip(klen as int) =~= cs@.skip((i + klen) as int));
                i = i + klen;
                assert(before + substitute(rest, ps@) == result@ + substitute(cs@.skip(i as int), ps@));
            },
            None => {
                let ghost before = result@;
                push_char(&mut result, cs[i]);
                assert(rest.skip(1) =~= cs@.skip(i + 1));
                i = i + 1;
                assert(before + substitute(rest, ps@) =~= result@ + substitute(cs@.skip(i as int), ps@));
            },
        }
    }
    assert(cs@.skip(i as int) =~= Seq::<char>::empty());
    assert(result@ + Seq::<char>::empty() =~= result@);
    result
}

} // verus!

verus! {

/// `shell_words::join`: the words quoted for a POSIX shell, separated by
/// spaces.
pub uninterp spec fn shell_join_spec(words: Seq<Seq<char>>) -> Seq<char>;

/// `shell_words::split`: the words of a POSIX shell command line, or none
/// for an unterminated quote.
pub uninterp spec fn shell_split_spec(line: Seq<char>) -> Option<Seq<Seq<char>>>;

/// Calls `shell_words::join`. Claimed: the result is `shell_join_spec` of
/// the words (a function of the words alone), and `shell_words::split`
/// gives the words back from it: each word is quoted so that it keeps its
/// literal meaning when the line is parsed (the crate's documentation of
/// `join` and `quote`, and its test `join_followed_by_split_is_identity`).
#[verifier::external_body]
pub(crate) fn shell_join(words: &Vec<String>) -> (r: String)
    ensures
        r@ == shell_join_spec(crate::text::views(words@)),
        shell_split_spec(r@) == Some(crate::text::views(words@)),
{
    shell_words::join(words)
}

/// Calls `shell_words::split`, mapping its `ParseError` to `None`. Claimed:
/// the words are `shell_split_spec` of the line, and `None` comes exactly
/// when that is none.
#[verifier::external_body]
pub(crate) fn shell_split(line: &str) -> (r: Option<Vec<String>>)
    ensures
        r is Some <==> shell_split_spec(line@) is Some,
        r matches Some(v) ==> shell_split_spec(line@) == Some(crate::text::views(v@)),
{
    shell_words::split(line).ok()
}

/// A copy of a list of strings.
pub fn copy_strings(v: &Vec<String>) -> (r: Vec<String>)
    ensures
        r@ == v@,
{
    let mut r: Vec<String> = Vec::new();
    for i in 0..v.len()
        invariant
            r@ == v@.take(i as int),
    {
        r.push(v[i].clone());
        assert(r@ =~= v@.take(i + 1));
    }
    assert(v@.take(v@.len() as int) =~= v@);
    r
}

/// A copy of a list of parameter values.
pub fn copy_values(v: &Vec<ParameterValue>) -> (r: Vec<ParameterValue>)
    ensures
        r@ == v@,
{
    let mut r: Vec<ParameterValue> = Vec::new();
    for i in 0..v.len()
        invariant
            r@ == v@.take(i as int),
    {
        r.push(v[i].copy_value());
        assert(r@ =~= v@.take(i + 1));
    }
    assert(v@.take(v@.len() as int) =~= v@);
    r
}

/// A copy of a list of (name, value) parameters.
pub fn copy_params(v: &Vec<(String, ParameterValue)>) -> (r: Vec<(String, ParameterValue)>)
    ensures
        r@ == v@,
{
    let mut r: Vec<(String, ParameterValue)> = Vec::new();
    for i in 0..v.len()
        invariant
            r@ == v@.take(i as int),
    {
        r.push((v[i].0.clone(), v[i].1.copy_value()));
        assert(r@ =~= v@.take(i + 1));
    }
    assert(v@.take(v@.len() as int) =~= v@);
    r
}

} // verus!

verus! {

/// Name of the built-in placeholder `{iteration}`, which expands to the same
/// value as the `JOULEX_ITERATION` environment variable (e.g. `0`, `1`, or
/// `warmup-0`). Unlike the environment variable, it also works with
/// `--shell=none`.
pub const ITERATION_PLACEHOLDER: &'static str = "iteration";

/// How the values of per-run parameters are chosen for each run.
#[derive(Debug, Clone, Copy, PartialEq, Eq)]
pub enum PerRunMode {
    /// Go through all combinations in order (`--aggregate-parameter-runs`)
    Cycle,
    /// Draw a combination at random for every run (`--parameter-sample`). The
    /// draw depends only on the seed and the run index, so every command sees
    /// the same values in the same order (a paired comparison).
    Random { seed: u64 },
}

/// The variables as (name, values).
pub open spec fn vars_view(vars: Seq<(String, Vec<ParameterValue>)>) -> Seq<(String, Seq<ParameterValue>)> {
    vars.map_values(|v: (String, Vec<ParameterValue>)| (v.0, v.1@))
}

/// Number of combinations of the values of `vars`.
pub open spec fn combos(vars: Seq<(String, Seq<ParameterValue>)>) -> nat
    decreases vars.len(),
{
    if vars.len() == 0 {
        1
    } else {
        combos(vars.drop_last()) * vars.last().1.len()
    }
}

/// Every variable has at least one value, and the number of combinations
/// fits in `usize`.
pub open spec fn vars_wf(vars: Seq<(String, Seq<ParameterValue>)>) -> bool {
    &&& forall|i: int| 0 <= i < vars.len() ==> #[trigger] vars[i].1.len() >= 1
    &&& combos(vars) <= usize::MAX
}

/// The `rest`-th combination in order (mixed-radix digits of `rest`; the
/// last variable changes fastest).
pub open spec fn cycle_pick(vars: Seq<(String, Seq<ParameterValue>)>, rest: nat) -> Seq<(String, ParameterValue)>
    decreases vars.len(),
{
    if vars.len() == 0 {
        Seq::empty()
    } else {
        let last = vars.last();
        let n = last.1.len();
        if n == 0 {
            Seq::empty()
        } else {
            cycle_pick(vars.drop_last(), rest / n).push((last.0, last.1[(rest % n) as int]))
        }
    }
}

pub proof fn lemma_combos_positive(vars: Seq<(String, Seq<ParameterValue>)>)
    requires
        forall|i: int| 0 <= i < vars.len() ==> #[trigger] vars[i].1.len() >= 1,
    ensures
        combos(vars) >= 1,
    decreases vars.len(),
{
    if vars.len() > 0 {
        lemma_combos_positive(vars.drop_last());
        let a = combos(vars.drop_last());
        let b = vars.last().1.len();
        assert(vars.last().1.len() >= 1);
        assert(a * b >= 1) by (nonlinear_arith)
            requires
                a >= 1,
                b >= 1,
        ;
    }
}

pub proof fn lemma_combos_prefix(vars: Seq<(String, Seq<ParameterValue>)>, k: int)
    requires
        0 <= k <= vars.len(),
        forall|i: int| 0 <= i < vars.len() ==> #[trigger] vars[i].1.len() >= 1,
    ensures
        combos(vars.take(k)) <= combos(vars),
    decreases vars.len() - k,
{
    if k < vars.len() {
        lemma_combos_prefix(vars, k + 1);
        let t = vars.take(k + 1);
        assert(t.drop_last() =~= vars.take(k));
        assert(t.last() == vars[k]);
        let a = combos(vars.take(k));
        let b = vars[k].1.len();
        assert(b >= 1);
        assert(a <= a * b) by (nonlinear_arith)
            requires
                b >= 1,
        ;
    } else {
        assert(vars.take(k) =~= vars);
    }
}

pub proof fn lemma_cycle_pick_len(vars: Seq<(String, Seq<ParameterValue>)>, rest: nat)
    requires
        forall|i: int| 0 <= i < vars.len() ==> #[trigger] vars[i].1.len() >= 1,
    ensures
        cycle_pick(vars, rest).len() == vars.len(),
        forall|k: int| 0 <= k < vars.len() ==> (#[trigger] cycle_pick(vars, rest)[k]).0 == vars[k].0
            && vars[k].1.contains(cycle_pick(vars, rest)[k].1),
    decreases vars.len(),
{
    if vars.len() > 0 {
        let n = vars.last().1.len();
        assert(vars.last().1.len() >= 1);
        lemma_cycle_pick_len(vars.drop_last(), rest / n);
        let p = cycle_pick(vars, rest);
        assert forall|k: int| 0 <= k < vars.len() implies (#[trigger] p[k]).0 == vars[k].0
            && vars[k].1.contains(p[k].1) by {
            if k == vars.len() - 1 {
                assert(vars.last().1[(rest % n) as int] == p[k].1);
            } else {
                assert(vars.drop_last()[k] == vars[k]);
            }
        }
    }
}

/// Parameters that are substituted per run instead of per benchmark.
#[derive(Debug, PartialEq, Eq)]
pub struct PerRunParameters {
    vars: Vec<(String, Vec<ParameterValue>)>,
    mode: PerRunMode,
}

impl Clone for PerRunParameters {
    fn clone(&self) -> (r: Self)
        ensures
            r.vars_v() == self.vars_v(),
            r.mode_v() == self.mode_v(),
    {
        self.duplicate()
    }
}

impl PerRunParameters {
    #[verifier::type_invariant]
    closed spec fn wf(self) -> bool {
        vars_wf(vars_view(self.vars@))
    }

    /// The variables and their values.
    pub closed spec fn vars_v(self) -> Seq<(String, Seq<ParameterValue>)> {
        vars_view(self.vars@)
    }

    /// How the values are chosen.
    pub closed spec fn mode_v(self) -> PerRunMode {
        self.mode
    }

    /// Per-run parameters with the given variables. Each variable needs at
    /// least one value (a cycle through no value has no run).
    pub fn new(vars: Vec<(String, Vec<ParameterValue>)>, mode: PerRunMode) -> (r: Self)
        requires
            vars_wf(vars_view(vars@)),
        ensures
            r.vars_v() == vars_view(vars@),
            r.mode_v() == mode,
    {
        PerRunParameters { vars, mode }
    }

    /// A copy of these parameters.
    pub fn duplicate(&self) -> (r: Self)
        ensures
            r.vars_v() == self.vars_v(),
            r.mode_v() == self.mode_v(),
    {
        proof { use_type_invariant(self); }
        let mut vars: Vec<(String, Vec<ParameterValue>)> = Vec::new();
        for i in 0..self.vars.len()
            invariant
                vars_wf(vars_view(self.vars@)),
                vars@.len() == i,
                vars_view(vars@) == vars_view(self.vars@).take(i as int),
        {
            let name = self.vars[i].0.clone();
            let vals = copy_values(&self.vars[i].1);
            assert(name == self.vars@[i as int].0);
            assert(vals@ == self.vars@[i as int].1@);
            let ghost old_vars = vars@;
            vars.push((name, vals));
            assert(vars@ == old_vars.push((name, vals)));
            assert(old_vars.len() == i);
            assert(vars@[i as int] == (name, vals));
            assert(vars_view(vars@)[i as int] == (name, vals@));
            assert(vars_view(self.vars@)[i as int] == (self.vars@[i as int].0, self.vars@[i as int].1@));
            assert(vars_view(vars@) =~= vars_view(self.vars@).take(i + 1));
        }
        assert(vars_view(self.vars@).take(self.vars@.len() as int) =~= vars_view(self.vars@));
        PerRunParameters { vars, mode: self.mode }
    }

    /// Number of value combinations
    pub fn combinations(&self) -> (n: usize)
        ensures
            n == combos(self.vars_v()),
            n >= 1,
    {
        proof {
            use_type_invariant(self);
            lemma_combos_positive(vars_view(self.vars@));
        }
        let mut p: usize = 1;
        for i in 0..self.vars.len()
            invariant
                vars_wf(vars_view(self.vars@)),
                p == combos(vars_view(self.vars@).take(i as int)),
        {
            proof {
                lemma_combos_prefix(vars_view(self.vars@), i + 1);
                let t = vars_view(self.vars@).take(i + 1);
                assert(t.drop_last() =~= vars_view(self.vars@).take(i as int));
            }
            p = p * self.vars[i].1.len();
        }
        assert(vars_view(self.vars@).take(self.vars@.len() as int) =~= vars_view(self.vars@));
        p
    }

    /// Shown after the command name, e.g. "(sampled from 24 values)"
    pub fn description(&self) -> (s: String)
        ensures
            s@ == description_text(self.mode_v(), combos(self.vars_v())),
    {
        let n = self.combinations();
        let mut s = String::new();
        match self.mode {
            PerRunMode::Cycle => {
                push_str(&mut s, "aggregated over ");
                crate::text::push_decimal(&mut s, n as u64);
                push_str(&mut s, " parameter values");
                proof {
                    reveal_strlit("aggregated over ");
                    reveal_strlit(" parameter values");
                }
            },
            PerRunMode::Random { .. } => {
                push_str(&mut s, "sampled from ");
                crate::text::push_decimal(&mut s, n as u64);
                push_str(&mut s, " values");
                proof {
                    reveal_strlit("sampled from ");
                    reveal_strlit(" values");
                }
            },
        }
        s
    }

    /// The values for one run; none for non-benchmark runs (setup, cleanup).
    /// In random mode the indices are drawn by a generator seeded with
    /// `run_seed(seed, index, warmup)` (see `run_seed`), one per variable,
    /// and the values are `values_at_picks` of them.
    pub fn values_for(&self, iteration: &BenchmarkIteration) -> (r: Vec<(String, ParameterValue)>)
        ensures
            run_values_ok(self.vars_v(), self.mode_v(), *iteration, r@),
    {
        proof { use_type_invariant(self); }
        let (index, warmup) = match *iteration {
            BenchmarkIteration::Benchmark(i) => (i, false),
            BenchmarkIteration::Warmup(i) => (i, true),
            BenchmarkIteration::NonBenchmarkRun => return Vec::new(),
        };
        match self.mode {
            PerRunMode::Cycle => {
                let n = self.combinations();
                let rest = (index % (n as u64)) as usize;
                self.cycle_values(rest)
            },
            PerRunMode::Random { seed } => {
                let ghost vv = vars_view(self.vars@);
                let mut rng = seeded_rng(run_seed(seed, index, warmup));
                let mut picks: Vec<usize> = Vec::new();
                for k in 0..self.vars.len()
                    invariant
                        vv == vars_view(self.vars@),
                        vars_wf(vv),
                        picks@.len() == k,
                        forall|j: int| 0 <= j < k ==> (#[trigger] picks@[j]) < vv[j].1.len(),
                {
                    assert(vv[k as int].1.len() >= 1);
                    let pick = random_below(&mut rng, self.vars[k].1.len());
                    picks.push(pick);
                }
                let out = self.values_at_picks(&picks);
                proof { lemma_drawn_values(vv, picks@); }
                out
            },
        }
    }

    /// The value of each variable at its index in `picks` (one index per
    /// variable, below its number of values): what a random draw of the
    /// indices gives for one run.
    pub fn values_at_picks(&self, picks: &Vec<usize>) -> (r: Vec<(String, ParameterValue)>)
        requires
            picks@.len() == self.vars_v().len(),
            forall|j: int| 0 <= j < picks@.len() ==> (#[trigger] picks@[j]) < self.vars_v()[j].1.len(),
        ensures
            r@ == drawn_values(self.vars_v(), picks@),
    {
        proof { use_type_invariant(self); }
        let ghost vv = vars_view(self.vars@);
        let mut out: Vec<(String, ParameterValue)> = Vec::new();
        for k in 0..self.vars.len()
            invariant
                vv == vars_view(self.vars@),
                vv == self.vars_v(),
                picks@.len() == vv.len(),
                forall|j: int| 0 <= j < vv.len() ==> (#[trigger] picks@[j]) < vv[j].1.len(),
                out@.len() == k,
                forall|j: int| 0 <= j < k ==> #[trigger] out@[j] == (vv[j].0, vv[j].1[picks@[j] as int]),
        {
            let pick = picks[k];
            assert(pick < vv[k as int].1.len());
            let v = self.vars[k].1[pick].copy_value();
            out.push((self.vars[k].0.clone(), v));
        }
        assert(out@ =~= drawn_values(vv, picks@));
        out
    }

    /// The values of the `rest`-th combination, for `rest` below the number
    /// of combinations.
    fn cycle_values(&self, rest: usize) -> (r: Vec<(String, ParameterValue)>)
        ensures
            r@ == cycle_pick(self.vars_v(), rest as nat),
    {
        proof { use_type_invariant(self); }
        let mut out: Vec<(String, ParameterValue)> = Vec::new();
        let mut r = rest;
        let mut k = self.vars.len();
        let ghost vv = vars_view(self.vars@);
        assert(vv.take(k as int) =~= vv);
        while k > 0
            invariant
                vars_wf(vars_view(self.vars@)),
                vv == vars_view(self.vars@),
                k <= self.vars@.len(),
                cycle_pick(vv, rest as nat) == cycle_pick(vv.take(k as int), r as nat) + out@,
            decreases k,
        {
            let n = self.vars[k - 1].1.len();
            assert(vv[k - 1].1.len() >= 1);
            let ghost t = vv.take(k as int);
            assert(t.drop_last() =~= vv.take(k - 1));
            assert(t.last() == vv[k - 1]);
            let v = self.vars[k - 1].1[r % n].copy_value();
            let name = self.vars[k - 1].0.clone();
            let ghost old_out = out@;
            let ghost old_r = r;
            let ghost pick = (name, v);
            out.insert(0, (name, v));
            r = r / n;
            k = k - 1;
            assert(cycle_pick(t, old_r as nat) == cycle_pick(vv.take(k as int), r as nat).push(pick));
            assert(out@ =~= seq![pick] + old_out);
            assert(cycle_pick(t, old_r as nat) + old_out =~= cycle_pick(vv.take(k as int), r as nat) + out@);
        }
        assert(vv.take(0) =~= Seq::<(String, Seq<ParameterValue>)>::empty());
        assert(cycle_pick(vv.take(0), r as nat) + out@ =~= out@);
        out
    }
}


/// The run number and whether it is a warmup run; none for other runs.
pub open spec fn run_index(it: BenchmarkIteration) -> Option<(u64, bool)> {
    match it {
        BenchmarkIteration::Benchmark(i) => Some((i, false)),
        BenchmarkIteration::Warmup(i) => Some((i, true)),
        BenchmarkIteration::NonBenchmarkRun => None,
    }
}

/// What `values_for` gives for a run: nothing for non-benchmark runs; with
/// `Cycle`, the combination numbered by the run index (modulo the number of
/// combinations); with `Random`, one value of each variable, in order.
pub open spec fn run_values_ok(
    vars: Seq<(String, Seq<ParameterValue>)>,
    mode: PerRunMode,
    it: BenchmarkIteration,
    r: Seq<(String, ParameterValue)>,
) -> bool {
    match run_index(it) {
        None => r.len() == 0,
        Some((i, _)) => match mode {
            PerRunMode::Cycle => r == cycle_pick(vars, ((i as nat) % combos(vars)) as nat),
            PerRunMode::Random { .. } => {
                &&& r.len() == vars.len()
                &&& forall|j: int| 0 <= j < r.len() ==> (#[trigger] r[j]).0 == vars[j].0
                    && vars[j].1.contains(r[j].1)
            },
        },
    }
}

/// The text shown after a command with per-run parameters.
pub open spec fn description_text(mode: PerRunMode, n: nat) -> Seq<char> {
    match mode {
        PerRunMode::Cycle => "aggregated over "@ + crate::text::decimal(n) + " parameter values"@,
        PerRunMode::Random { .. } => "sampled from "@ + crate::text::decimal(n) + " values"@,
    }
}

/// The value of each variable at its pick.
pub open spec fn drawn_values(vars: Seq<(String, Seq<ParameterValue>)>, picks: Seq<usize>) -> Seq<(String, ParameterValue)> {
    Seq::new(vars.len(), |j: int| (vars[j].0, vars[j].1[picks[j] as int]))
}

/// Picks below the numbers of values choose values of the variables.
proof fn lemma_drawn_values(vars: Seq<(String, Seq<ParameterValue>)>, picks: Seq<usize>)
    requires
        picks.len() == vars.len(),
        forall|j: int| 0 <= j < vars.len() ==> (#[trigger] picks[j]) < vars[j].1.len(),
    ensures
        drawn_values(vars, picks).len() == vars.len(),
        forall|j: int| 0 <= j < vars.len() ==> (#[trigger] drawn_values(vars, picks)[j]).0 == vars[j].0
            && vars[j].1.contains(drawn_values(vars, picks)[j].1),
{
    assert forall|j: int| 0 <= j < vars.len() implies (#[trigger] drawn_values(vars, picks)[j]).0 == vars[j].0
        && vars[j].1.contains(drawn_values(vars, picks)[j].1) by {
        assert(picks[j] < vars[j].1.len());
        assert(vars[j].1[picks[j] as int] == drawn_values(vars, picks)[j].1);
    }
}

/// The multiplier that spreads the run index over the seed's bits.
pub const RUN_SEED_MULTIPLIER: u64 = 0x9E37_79B9_7F4A_7C15;

/// The seed of the random draws of one run: the session's seed, XOR the
/// run index times `RUN_SEED_MULTIPLIER` (modulo 2^64), XOR the top bit for
/// a warmup run; so the same seed and run give the same seed, and a warmup
/// run another one than the timed run with its index.
pub open spec fn run_seed_spec(seed: u64, index: u64, warmup: bool) -> u64 {
    seed ^ (((index as nat * RUN_SEED_MULTIPLIER as nat) % 0x1_0000_0000_0000_0000nat) as u64 ^ (if warmup {
        0x8000_0000_0000_0000u64
    } else {
        0u64
    }))
}

/// The seed of the random draws of one run.
pub fn run_seed(seed: u64, index: u64, warmup: bool) -> (s: u64)
    ensures
        s == run_seed_spec(seed, index, warmup),
{
    let top: u64 = if warmup { 1u64 } else { 0u64 };
    let shifted = top << 63u64;
    assert(shifted == (if warmup { 0x8000_0000_0000_0000u64 } else { 0u64 })) by (bit_vector)
        requires
            shifted == top << 63u64,
            top == (if warmup { 1u64 } else { 0u64 }),
    ;
    let stream = index.wrapping_mul(RUN_SEED_MULTIPLIER) ^ shifted;
    seed ^ stream
}

/// Calls `StdRng::seed_from_u64` of `rand`. Nothing is claimed of the
/// generator: which numbers it draws may differ between platforms and
/// versions of the crate.
#[verifier::external_body]
fn seeded_rng(seed: u64) -> StdRng {
    StdRng::seed_from_u64(seed)
}

/// Calls `Rng::gen_range(0..len)` of `rand`, which panics on an empty range
/// (hence `len > 0`). Claimed: the result is below `len`; which value comes
/// is not stated.
#[verifier::external_body]
fn random_below(rng: &mut StdRng, len: usize) -> (r: usize)
    requires
        len > 0,
    ensures
        r < len,
{
    rng.gen_range(0..len)
}

/// `rand::rngs::StdRng`, carried through the per-run draws.
#[verifier::external_type_specification]
#[verifier::external_body]
pub struct ExStdRng(StdRng);

} // verus!

verus! {

/// The view of an optional string.
pub open spec fn opt_view(o: Option<String>) -> Option<Seq<char>> {
    match o {
        Some(s) => Some(s@),
        None => None,
    }
}

/// The parameters of `ps` whose `{name}` does not occur in `expr`, in order.
pub open spec fn unused_params(ps: Seq<(String, ParameterValue)>, expr: Seq<char>) -> Seq<(String, ParameterValue)>
    decreases ps.len(),
{
    if ps.len() == 0 {
        Seq::empty()
    } else {
        let rest = unused_params(ps.drop_last(), expr);
        if crate::text::contains_seq(expr, key_of(ps.last().0@)) {
            rest
        } else {
            rest.push(ps.last())
        }
    }
}

/// `name = value, ` for each parameter.
pub open spec fn assignments_text(ps: Seq<(String, ParameterValue)>) -> Seq<char>
    decreases ps.len(),
{
    if ps.len() == 0 {
        Seq::empty()
    } else {
        assignments_text(ps.drop_last()) + ps.last().0@ + " = "@ + value_text(ps.last().1) + ", "@
    }
}

/// `s` without all trailing `", "`.
pub open spec fn trim_separators(s: Seq<char>) -> Seq<char>
    decreases s.len(),
{
    if s.len() >= 2 && s[s.len() - 2] == ',' && s[s.len() - 1] == ' ' {
        trim_separators(s.take(s.len() - 2))
    } else {
        s
    }
}

/// The variables and mode of a set of per-run parameters.
pub type PerRunView = (Seq<(String, Seq<ParameterValue>)>, PerRunMode);

pub open spec fn per_run_view(p: PerRunParameters) -> PerRunView {
    (p.vars_v(), p.mode_v())
}

/// ` (description)` for each set of per-run parameters.
pub open spec fn per_run_text(ps: Seq<PerRunView>) -> Seq<char>
    decreases ps.len(),
{
    if ps.len() == 0 {
        Seq::empty()
    } else {
        per_run_text(ps.drop_last()) + " ("@ + description_text(ps.last().1, combos(ps.last().0)) + ")"@
    }
}

/// Product of the numbers of combinations of the cycling per-run parameters.
pub open spec fn cycle_product(ps: Seq<PerRunView>) -> nat
    decreases ps.len(),
{
    if ps.len() == 0 {
        1
    } else if ps.last().1 == PerRunMode::Cycle {
        cycle_product(ps.drop_last()) * combos(ps.last().0)
    } else {
        cycle_product(ps.drop_last())
    }
}

/// Concatenation of chunks of parameters.
pub open spec fn flatten_params(chunks: Seq<Seq<(String, ParameterValue)>>) -> Seq<(String, ParameterValue)>
    decreases chunks.len(),
{
    if chunks.len() == 0 {
        Seq::empty()
    } else {
        flatten_params(chunks.drop_last()) + chunks.last()
    }
}

/// `chunks` are values that `values_for` may give, one chunk per set of
/// per-run parameters.
pub open spec fn per_run_chunks_ok(ps: Seq<PerRunView>, it: BenchmarkIteration, chunks: Seq<Seq<(String, ParameterValue)>>) -> bool {
    &&& chunks.len() == ps.len()
    &&& forall|k: int| 0 <= k < ps.len() ==> run_values_ok((#[trigger] ps[k]).0, ps[k].1, it, chunks[k])
}

/// Cycled per-run values depend on the per-run parameters and the run
/// alone: two commands that share cycled per-run parameters, such as a
/// benchmark and its `--prepare` command, get the same values in every run,
/// so their runs are paired. (Randomly drawn values are not covered: which
/// numbers the generator draws is not stated.)
pub proof fn lemma_shared_per_run_values(
    ps: Seq<PerRunView>,
    it: BenchmarkIteration,
    a: Seq<Seq<(String, ParameterValue)>>,
    b: Seq<Seq<(String, ParameterValue)>>,
)
    requires
        forall|k: int| 0 <= k < ps.len() ==> (#[trigger] ps[k]).1 is Cycle,
        per_run_chunks_ok(ps, it, a),
        per_run_chunks_ok(ps, it, b),
    ensures
        a == b,
        flatten_params(a) == flatten_params(b),
{
    assert forall|k: int| 0 <= k < a.len() implies a[k] == b[k] by {
        assert(ps[k].1 is Cycle);
        assert(run_values_ok(ps[k].0, ps[k].1, it, a[k]));
        assert(run_values_ok(ps[k].0, ps[k].1, it, b[k]));
        if run_index(it) is None {
            assert(a[k] =~= b[k]);
        }
    }
    assert(a =~= b);
}

/// A command that should be benchmarked.
#[derive(Debug, PartialEq, Eq)]
pub struct Command {
    /// The command name (without parameter substitution)
    name: Option<String>,
    /// The command that should be executed (without parameter substitution).
    /// For a command given as an argument vector, this is its shell-quoted
    /// form, used for display and for finding the parameters it uses.
    expression: String,
    /// The exact argument vector, for a command given after `--`. It is
    /// executed as is (with parameters substituted per argument) instead of
    /// re-splitting `expression`.
    argv: Option<Vec<String>>,
    /// Zero or more parameter values.
    parameters: Vec<(String, ParameterValue)>,
    /// Parameters substituted per run (`--parameter-sample`,
    /// `--aggregate-parameter-runs`)
    per_run: Vec<PerRunParameters>,
}

impl Clone for Command {
    fn clone(&self) -> (r: Self)
        ensures
            r.same_as(*self),
    {
        self.duplicate()
    }
}

impl Command {
    pub closed spec fn name_v(self) -> Option<Seq<char>> {
        opt_view(self.name)
    }

    pub closed spec fn expression_v(self) -> Seq<char> {
        self.expression@
    }

    pub closed spec fn argv_v(self) -> Option<Seq<Seq<char>>> {
        match self.argv {
            Some(a) => Some(crate::text::views(a@)),
            None => None,
        }
    }

    pub closed spec fn parameters_v(self) -> Seq<(String, ParameterValue)> {
        self.parameters@
    }

    pub closed spec fn per_run_v(self) -> Seq<PerRunView> {
        self.per_run@.map_values(|p: PerRunParameters| per_run_view(p))
    }

    /// Equal in every part.
    pub open spec fn same_as(self, other: Command) -> bool {
        &&& self.name_v() == other.name_v()
        &&& self.expression_v() == other.expression_v()
        &&& self.argv_v() == other.argv_v()
        &&& self.parameters_v() == other.parameters_v()
        &&& self.per_run_v() == other.per_run_v()
    }

    /// `s` with the parameters of this command substituted.
    pub open spec fn replaced(self, s: Seq<char>) -> Seq<char> {
        substitute(s, params_view(self.parameters_v()))
    }

    /// The command line that is shown and run.
    pub open spec fn command_line_spec(self) -> Seq<char> {
        match self.argv_v() {
            Some(a) => shell_join_spec(a.map_values(|w: Seq<char>| self.replaced(w))),
            None => self.replaced(self.expression_v()),
        }
    }

    /// The displayed name: the `--command-name` with parameters substituted,
    /// or the command line.
    pub open spec fn name_spec(self) -> Seq<char> {
        match self.name_v() {
            Some(n) => self.replaced(n),
            None => self.command_line_spec(),
        }
    }

    /// The name followed by the parameters the command line does not use and
    /// the per-run descriptions.
    pub open spec fn name_with_unused_spec(self) -> Seq<char> {
        let t = trim_separators(assignments_text(unused_params(self.parameters_v(), self.expression_v())));
        self.name_spec() + (if t.len() == 0 { Seq::empty() } else { " ("@ + t + ")"@ }) + per_run_text(self.per_run_v())
    }

    /// A copy of this command.
    pub fn duplicate(&self) -> (r: Command)
        ensures
            r.same_as(*self),
    {
        let name = match &self.name {
            Some(n) => Some(n.clone()),
            None => None,
        };
        let argv = match &self.argv {
            Some(a) => Some(copy_strings(a)),
            None => None,
        };
        let mut per_run: Vec<PerRunParameters> = Vec::new();
        for i in 0..self.per_run.len()
            invariant
                per_run@.len() == i,
                forall|k: int| 0 <= k < i ==> (#[trigger] per_run@[k]).vars_v() == self.per_run@[k].vars_v()
                    && per_run@[k].mode_v() == self.per_run@[k].mode_v(),
        {
            per_run.push(self.per_run[i].duplicate());
        }
        let r = Command {
            name,
            expression: self.expression.clone(),
            argv,
            parameters: copy_params(&self.parameters),
            per_run,
        };
        assert(r.per_run_v() =~= self.per_run_v());
        r
    }
}


/// Owned copies of (name, value) parameters given with borrowed names.
fn own_params(parameters: Vec<(&str, ParameterValue)>) -> (r: Vec<(String, ParameterValue)>)
    ensures
        r@.len() == parameters@.len(),
        forall|k: int| 0 <= k < r@.len() ==> (#[trigger] r@[k]).0@ == parameters@[k].0@ && r@[k].1 == parameters@[k].1,
{
    let mut r: Vec<(String, ParameterValue)> = Vec::new();
    for i in 0..parameters.len()
        invariant
            r@.len() == i,
            forall|k: int| 0 <= k < i ==> (#[trigger] r@[k]).0@ == parameters@[k].0@ && r@[k].1 == parameters@[k].1,
    {
        r.push((parameters[i].0.to_string(), parameters[i].1.copy_value()));
    }
    r
}

/// Owned copy of an optional borrowed name.
fn own_name(name: Option<&str>) -> (r: Option<String>)
    ensures
        opt_view(r) == match name { Some(n) => Some(n@), None => None::<Seq<char>> },
{
    match name {
        Some(n) => Some(n.to_string()),
        None => None,
    }
}

impl Command {
    pub fn new(name: Option<&str>, expression: &str) -> (r: Command)
        ensures
            r.name_v() == match name { Some(n) => Some(n@), None => None::<Seq<char>> },
            r.expression_v() == expression@,
            r.argv_v() is None,
            r.parameters_v().len() == 0,
            r.per_run_v().len() == 0,
    {
        Self::new_parametrized(name, expression, Vec::new())
    }

    pub fn new_parametrized(name: Option<&str>, expression: &str, parameters: Vec<(&str, ParameterValue)>) -> (r: Command)
        ensures
            r.name_v() == match name { Some(n) => Some(n@), None => None::<Seq<char>> },
            r.expression_v() == expression@,
            r.argv_v() is None,
            r.parameters_v().len() == parameters@.len(),
            forall|k: int| 0 <= k < parameters@.len() ==> (#[trigger] r.parameters_v()[k]).0@ == parameters@[k].0@
                && r.parameters_v()[k].1 == parameters@[k].1,
            r.per_run_v().len() == 0,
    {
        let r = Command {
            name: own_name(name),
            expression: expression.to_string(),
            argv: None,
            parameters: own_params(parameters),
            per_run: Vec::new(),
        };
        assert(r.per_run_v() =~= Seq::<PerRunView>::empty());
        r
    }

    /// A command given as an exact argument vector (after `--`).
    pub fn from_argv(name: Option<&str>, argv: Vec<&str>, parameters: Vec<(&str, ParameterValue)>) -> (r: Command)
        ensures
            r.name_v() == match name { Some(n) => Some(n@), None => None::<Seq<char>> },
            r.argv_v() == Some(argv@.map_values(|a: &str| a@)),
            r.expression_v() == shell_join_spec(argv@.map_values(|a: &str| a@)),
            r.parameters_v().len() == parameters@.len(),
            forall|k: int| 0 <= k < parameters@.len() ==> (#[trigger] r.parameters_v()[k]).0@ == parameters@[k].0@
                && r.parameters_v()[k].1 == parameters@[k].1,
            r.per_run_v().len() == 0,
    {
        let mut words: Vec<String> = Vec::new();
        for i in 0..argv.len()
            invariant
                words@.len() == i,
                crate::text::views(words@) == argv@.map_values(|a: &str| a@).take(i as int),
        {
            words.push(argv[i].to_string());
            assert(crate::text::views(words@) =~= argv@.map_values(|a: &str| a@).take(i + 1));
        }
        assert(argv@.map_values(|a: &str| a@).take(argv@.len() as int) =~= argv@.map_values(|a: &str| a@));
        let expression = shell_join(&words);
        let r = Command {
            name: own_name(name),
            expression,
            argv: Some(words),
            parameters: own_params(parameters),
            per_run: Vec::new(),
        };
        assert(r.per_run_v() =~= Seq::<PerRunView>::empty());
        r
    }

    /// Add a set of per-run parameters.
    pub fn add_per_run(&mut self, p: PerRunParameters)
        ensures
            final(self).name_v() == old(self).name_v(),
            final(self).expression_v() == old(self).expression_v(),
            final(self).argv_v() == old(self).argv_v(),
            final(self).parameters_v() == old(self).parameters_v(),
            final(self).per_run_v() == old(self).per_run_v().push(per_run_view(p)),
    {
        let ghost before = self.per_run_v();
        self.per_run.push(p);
        assert(self.per_run_v() =~= before.push(per_run_view(p)));
    }

    /// `template` with the parameters of this command substituted.
    fn replace_parameters_in(&self, template: &str) -> (r: String)
        ensures
            r@ == self.replaced(template@),
    {
        let table = replacements(&self.parameters);
        substitute_exec(template, &table, Ghost(params_view(self.parameters@)))
    }

    /// The arguments of an argument-vector command, with parameters
    /// substituted in each.
    fn get_argv(&self, argv: &Vec<String>) -> (r: Vec<String>)
        ensures
            crate::text::views(r@) == crate::text::views(argv@).map_values(|w: Seq<char>| self.replaced(w)),
    {
        let mut r: Vec<String> = Vec::new();
        for i in 0..argv.len()
            invariant
                r@.len() == i,
                crate::text::views(r@) == crate::text::views(argv@).map_values(|w: Seq<char>| self.replaced(w)).take(i as int),
        {
            r.push(self.replace_parameters_in(argv[i].as_str()));
            assert(crate::text::views(r@) =~= crate::text::views(argv@).map_values(|w: Seq<char>| self.replaced(w)).take(i + 1));
        }
        assert(crate::text::views(argv@).map_values(|w: Seq<char>| self.replaced(w)).take(argv@.len() as int)
            =~= crate::text::views(argv@).map_values(|w: Seq<char>| self.replaced(w)));
        r
    }

    /// The command line with parameters substituted (the shell-quoted
    /// argument vector for a command given after `--`).
    pub fn get_command_line(&self) -> (r: String)
        ensures
            r@ == self.command_line_spec(),
            self.argv_v() is Some ==> shell_split_spec(r@) == command_words(*self),
    {
        match &self.argv {
            Some(argv) => {
                let args = self.get_argv(argv);
                shell_join(&args)
            },
            None => self.replace_parameters_in(self.expression.as_str()),
        }
    }

    /// The displayed name: the `--command-name` with parameters substituted,
    /// or the command line.
    pub fn get_name(&self) -> (r: String)
        ensures
            r@ == self.name_spec(),
    {
        match &self.name {
            Some(name) => self.replace_parameters_in(name.as_str()),
            None => self.get_command_line(),
        }
    }

    pub fn get_parameters(&self) -> (r: &Vec<(String, ParameterValue)>)
        ensures
            r@ == self.parameters_v(),
    {
        &self.parameters
    }

    /// The parameters whose `{name}` does not occur in the command template.
    pub fn get_unused_parameters(&self) -> (r: Vec<(String, ParameterValue)>)
        ensures
            r@ == unused_params(self.parameters_v(), self.expression_v()),
    {
        let expr = chars_of(self.expression.as_str());
        let table = replacements(&self.parameters);
        let mut r: Vec<(String, ParameterValue)> = Vec::new();
        for i in 0..self.parameters.len()
            invariant
                expr@ == self.expression@,
                table.matches(params_view(self.parameters@)),
                r@ == unused_params(self.parameters@.take(i as int), self.expression@),
        {
            let ghost t = self.parameters@.take(i + 1);
            assert(t.drop_last() =~= self.parameters@.take(i as int));
            let used = crate::text::contains_exec(expr.as_slice(), table.keys[i].as_slice());
            if !used {
                r.push((self.parameters[i].0.clone(), self.parameters[i].1.copy_value()));
            }
        }
        assert(self.parameters@.take(self.parameters@.len() as int) =~= self.parameters@);
        r
    }
}


/// Why a command cannot be started.
#[derive(Debug, Clone, PartialEq, Eq)]
pub enum CommandError {
    /// The command line has an unterminated quote
    ParseFailed(String),
    /// The command line holds no word
    Empty,
}

impl CommandError {
    /// The error message.
    pub fn message(&self) -> (s: String)
        ensures
            s@ == match *self {
                CommandError::ParseFailed(line) => "Failed to parse command '"@ + line@ + "'"@,
                CommandError::Empty => "Can not execute empty command"@,
            },
    {
        proof {
            reveal_strlit("Failed to parse command '");
            reveal_strlit("'");
            reveal_strlit("Can not execute empty command");
        }
        match self {
            CommandError::ParseFailed(line) => {
                let mut s = String::new();
                push_str(&mut s, "Failed to parse command '");
                push_str(&mut s, line.as_str());
                push_str(&mut s, "'");
                s
            },
            CommandError::Empty => {
                let mut s = String::new();
                push_str(&mut s, "Can not execute empty command");
                s
            },
        }
    }
}

/// The words that start a command: the substituted argument vector, or the
/// command line split like a POSIX shell does.
pub open spec fn command_words(c: Command) -> Option<Seq<Seq<char>>> {
    match c.argv_v() {
        Some(a) => Some(a.map_values(|w: Seq<char>| c.replaced(w))),
        None => shell_split_spec(c.command_line_spec()),
    }
}

impl Command {
    /// The program and its arguments (what `get_command` hands to the
    /// process builder): an error for an unterminated quote or for a command
    /// without any word.
    pub fn get_command_args(&self) -> (r: Result<Vec<String>, CommandError>)
        ensures
            match command_words(*self) {
                None => r matches Err(CommandError::ParseFailed(l)) && l@ == self.command_line_spec(),
                Some(words) => if words.len() == 0 {
                    r == Err::<Vec<String>, CommandError>(CommandError::Empty)
                } else {
                    r matches Ok(v) && crate::text::views(v@) == words
                },
            },
    {
        let words = match &self.argv {
            Some(argv) => self.get_argv(argv),
            None => {
                let line = self.get_command_line();
                match shell_split(line.as_str()) {
                    Some(words) => words,
                    None => {
                        proof { assert(line@ == self.command_line_spec()); }
                        return Err(CommandError::ParseFailed(line));
                    },
                }
            },
        };
        if words.len() == 0 {
            Err(CommandError::Empty)
        } else {
            Ok(words)
        }
    }

    /// The name followed by ` (name = value, ...)` for the parameters that
    /// the command template does not use, and ` (description)` for each set
    /// of per-run parameters.
    pub fn get_name_with_unused_parameters(&self) -> (r: String)
        ensures
            r@ == self.name_with_unused_spec(),
    {
        let unused = self.get_unused_parameters();
        let mut text = String::new();
        for i in 0..unused.len()
            invariant
                text@ == assignments_text(unused@.take(i as int)),
        {
            let ghost t = unused@.take(i + 1);
            assert(t.drop_last() =~= unused@.take(i as int));
            push_str(&mut text, unused[i].0.as_str());
            push_str(&mut text, " = ");
            let v = unused[i].1.to_text();
            push_str(&mut text, v.as_str());
            push_str(&mut text, ", ");
            proof {
                reveal_strlit(" = ");
                reveal_strlit(", ");
            }
        }
        assert(unused@.take(unused@.len() as int) =~= unused@);
        let cs = chars_of(text.as_str());
        let mut end = cs.len();
        assert(cs@.take(end as int) =~= cs@);
        while end >= 2 && cs[end - 2] == ',' && cs[end - 1] == ' '
            invariant
                end <= cs@.len(),
                trim_separators(cs@.take(end as int)) == trim_separators(cs@),
            decreases end,
        {
            assert(cs@.take(end as int).take(end - 2) =~= cs@.take(end - 2));
            end = end - 2;
        }
        let mut r = self.get_name();
        if end > 0 {
            push_str(&mut r, " (");
            crate::text::push_chars(&mut r, cs.as_slice(), 0, end);
            push_str(&mut r, ")");
            proof {
                reveal_strlit(" (");
                reveal_strlit(")");
            }
            assert(cs@.subrange(0, end as int) =~= cs@.take(end as int));
        } else {
            assert(cs@.take(0) =~= Seq::<char>::empty());
        }
        let ghost head = r@;
        for i in 0..self.per_run.len()
            invariant
                r@ == head + per_run_text(self.per_run_v().take(i as int)),
        {
            let ghost t = self.per_run_v().take(i + 1);
            assert(t.drop_last() =~= self.per_run_v().take(i as int));
            push_str(&mut r, " (");
            let d = self.per_run[i].description();
            push_str(&mut r, d.as_str());
            push_str(&mut r, ")");
            proof {
                reveal_strlit(" (");
                reveal_strlit(")");
            }
            assert(r@ =~= head + per_run_text(t));
        }
        assert(self.per_run_v().take(self.per_run@.len() as int) =~= self.per_run_v());
        r
    }

    /// Use the same per-run parameters as `other` (for --prepare/--conclude,
    /// so that they see the values of the run they belong to).
    pub fn with_per_run_parameters_of(self, other: &Command) -> (r: Command)
        ensures
            r.name_v() == self.name_v(),
            r.expression_v() == self.expression_v(),
            r.argv_v() == self.argv_v(),
            r.parameters_v() == self.parameters_v(),
            r.per_run_v() == other.per_run_v(),
    {
        let o = other.duplicate();
        Command { per_run: o.per_run, ..self }
    }

    /// With `--aggregate-parameter-runs`, the number of runs must be a
    /// multiple of this, so that every value is used equally often.
    pub fn runs_multiple(&self) -> (r: u64)
        requires
            cycle_product(self.per_run_v()) <= u64::MAX,
        ensures
            r == if cycle_product(self.per_run_v()) == 0 { 1 } else { cycle_product(self.per_run_v()) },
    {
        for j in 0..self.per_run.len()
            invariant
                forall|k: int| 0 <= k < j ==> combos((#[trigger] self.per_run_v()[k]).0) >= 1,
        {
            let pr = &self.per_run[j];
            proof {
                use_type_invariant(pr);
                lemma_combos_positive(self.per_run_v()[j as int].0);
            }
        }
        let mut p: u64 = 1;
        for i in 0..self.per_run.len()
            invariant
                forall|k: int| 0 <= k < self.per_run_v().len() ==> combos((#[trigger] self.per_run_v()[k]).0) >= 1,
                cycle_product(self.per_run_v()) <= u64::MAX,
                p == cycle_product(self.per_run_v().take(i as int)),
        {
            let ghost t = self.per_run_v().take(i + 1);
            assert(t.drop_last() =~= self.per_run_v().take(i as int));
            proof { lemma_cycle_product_prefix(self.per_run_v(), i + 1); }
            if matches!(self.per_run[i].mode, PerRunMode::Cycle) {
                p = p * (self.per_run[i].combinations() as u64);
            }
        }
        assert(self.per_run_v().take(self.per_run@.len() as int) =~= self.per_run_v());
        if p == 0 { 1 } else { p }
    }
}

pub proof fn lemma_cycle_product_prefix(ps: Seq<PerRunView>, k: int)
    requires
        0 <= k <= ps.len(),
        forall|i: int| 0 <= i < ps.len() ==> combos((#[trigger] ps[i]).0) >= 1,
    ensures
        cycle_product(ps.take(k)) <= cycle_product(ps),
    decreases ps.len() - k,
{
    if k < ps.len() {
        lemma_cycle_product_prefix(ps, k + 1);
        let t = ps.take(k + 1);
        assert(t.drop_last() =~= ps.take(k));
        let a = cycle_product(ps.take(k));
        let b = combos(ps[k].0);
        assert(b >= 1);
        assert(a <= a * b) by (nonlinear_arith)
            requires
                b >= 1,
        ;
    } else {
        assert(ps.take(k) =~= ps);
    }
}


/// `{iteration}`.
pub open spec fn iteration_key() -> Seq<char> {
    key_of(ITERATION_PLACEHOLDER@)
}

impl Command {
    /// The per-run parameter values used in `iteration`, as (name, value);
    /// empty without per-run parameters.
    pub fn per_run_values(&self, iteration: &BenchmarkIteration) -> (r: Vec<(String, String)>)
        ensures
            exists|chunks: Seq<Seq<(String, ParameterValue)>>| #[trigger] per_run_chunks_ok(self.per_run_v(), *iteration, chunks)
                && r@.len() == flatten_params(chunks).len()
                && forall|k: int| 0 <= k < r@.len() ==> (#[trigger] r@[k]).0 == flatten_params(chunks)[k].0
                    && r@[k].1@ == value_text(flatten_params(chunks)[k].1),
    {
        let values = self.per_run_parameter_list(iteration);
        let mut r: Vec<(String, String)> = Vec::new();
        for i in 0..values.len()
            invariant
                r@.len() == i,
                forall|k: int| 0 <= k < i ==> (#[trigger] r@[k]).0 == values@[k].0 && r@[k].1@ == value_text(values@[k].1),
        {
            r.push((values[i].0.clone(), values[i].1.to_text()));
        }
        r
    }

    /// The per-run (name, value) pairs of `iteration`, in order.
    fn per_run_parameter_list(&self, iteration: &BenchmarkIteration) -> (r: Vec<(String, ParameterValue)>)
        ensures
            exists|chunks: Seq<Seq<(String, ParameterValue)>>| #[trigger] per_run_chunks_ok(self.per_run_v(), *iteration, chunks)
                && r@ == flatten_params(chunks),
    {
        let mut r: Vec<(String, ParameterValue)> = Vec::new();
        let ghost mut chunks: Seq<Seq<(String, ParameterValue)>> = Seq::empty();
        for i in 0..self.per_run.len()
            invariant
                chunks.len() == i,
                forall|k: int| 0 <= k < i ==> run_values_ok((#[trigger] self.per_run_v()[k]).0, self.per_run_v()[k].1, *iteration, chunks[k]),
                r@ == flatten_params(chunks),
        {
            let vals = self.per_run[i].values_for(iteration);
            let ghost old_chunks = chunks;
            proof {
                chunks = chunks.push(vals@);
                assert(chunks.drop_last() =~= old_chunks);
            }
            let ghost before = r@;
            for j in 0..vals.len()
                invariant
                    r@ == before + vals@.take(j as int),
            {
                r.push((vals[j].0.clone(), vals[j].1.copy_value()));
                assert(r@ =~= before + vals@.take(j + 1));
            }
            assert(vals@.take(vals@.len() as int) =~= vals@);
        }
        assert(per_run_chunks_ok(self.per_run_v(), *iteration, chunks));
        r
    }

    /// A copy of this command in which `{iteration}` expands to `value`.
    /// Without a value (setup/cleanup and other non-benchmark runs), or when
    /// the placeholder isn't used, the command is returned unchanged.
    pub fn with_iteration(&self, value: Option<String>) -> (r: std::borrow::Cow<'_, Command>)
        ensures
            match r {
                std::borrow::Cow::Borrowed(c) => *c == *self
                    && !(value is Some && crate::text::contains_seq(self.expression_v(), iteration_key())),
                std::borrow::Cow::Owned(c) => value is Some
                    && crate::text::contains_seq(self.expression_v(), iteration_key())
                    && c.name_v() == self.name_v()
                    && c.expression_v() == self.expression_v()
                    && c.argv_v() == self.argv_v()
                    && c.per_run_v() == self.per_run_v()
                    && c.parameters_v().len() == self.parameters_v().len() + 1
                    && c.parameters_v().drop_last() == self.parameters_v()
                    && c.parameters_v().last().0@ == ITERATION_PLACEHOLDER@
                    && c.parameters_v().last().1 == ParameterValue::Text(value.unwrap()),
            },
    {
        let expr = chars_of(self.expression.as_str());
        let key = chars_of("{iteration}");
        proof {
            reveal_strlit("{iteration}");
            reveal_strlit("iteration");
            assert(key@ =~= iteration_key());
        }
        match value {
            Some(v) => {
                if crate::text::contains_exec(expr.as_slice(), key.as_slice()) {
                    let mut command = self.duplicate();
                    let ghost before = command.parameters@;
                    command.parameters.push((ITERATION_PLACEHOLDER.to_string(), ParameterValue::Text(v)));
                    assert(command.parameters@.drop_last() =~= before);
                    std::borrow::Cow::Owned(command)
                } else {
                    std::borrow::Cow::Borrowed(self)
                }
            },
            None => std::borrow::Cow::Borrowed(self),
        }
    }

    /// This command as it runs in `iteration`: `{iteration}` and the per-run
    /// parameters are substituted.
    pub fn for_iteration(&self, iteration: &BenchmarkIteration) -> (r: std::borrow::Cow<'_, Command>)
        ensures
            ({
                let c = match r { std::borrow::Cow::Borrowed(c) => *c, std::borrow::Cow::Owned(c) => c };
                let it_params = if env_var_value(*iteration) is Some
                    && crate::text::contains_seq(self.expression_v(), iteration_key()) {
                    1int
                } else {
                    0int
                };
                &&& c.name_v() == self.name_v()
                &&& c.expression_v() == self.expression_v()
                &&& c.argv_v() == self.argv_v()
                &&& c.per_run_v() == self.per_run_v()
                &&& c.parameters_v().take(self.parameters_v().len() as int) == self.parameters_v()
                &&& (it_params == 1 ==> c.parameters_v()[self.parameters_v().len() as int].0@ == ITERATION_PLACEHOLDER@
                    && (c.parameters_v()[self.parameters_v().len() as int].1 matches ParameterValue::Text(s)
                    && s@ == env_var_value(*iteration).unwrap()))
                &&& exists|chunks: Seq<Seq<(String, ParameterValue)>>| #[trigger] per_run_chunks_ok(self.per_run_v(), *iteration, chunks)
                    && c.parameters_v().skip(self.parameters_v().len() + it_params) == flatten_params(chunks)
            }),
    {
        let value = iteration.to_env_var_value();
        let command = self.with_iteration(value);
        let ghost n = self.parameters_v().len();
        if self.per_run.len() == 0 {
            proof {
                let chunks = Seq::<Seq<(String, ParameterValue)>>::empty();
                assert(per_run_chunks_ok(self.per_run_v(), *iteration, chunks));
                match &command {
                    std::borrow::Cow::Borrowed(c) => {
                        assert(c.parameters_v().skip(n as int) =~= flatten_params(chunks));
                        assert(c.parameters_v().take(n as int) =~= self.parameters_v());
                    },
                    std::borrow::Cow::Owned(c) => {
                        assert(c.parameters_v().skip((n + 1) as int) =~= flatten_params(chunks));
                        assert(c.parameters_v().take(n as int) =~= c.parameters_v().drop_last());
                    },
                }
            }
            return command;
        }
        let mut command = match command {
            std::borrow::Cow::Borrowed(c) => c.duplicate(),
            std::borrow::Cow::Owned(c) => c,
        };
        let ghost base_len = command.parameters@.len();
        proof {
            if base_len == n + 1 {
                assert(command.parameters@.take(n as int) =~= command.parameters@.drop_last());
            } else {
                assert(command.parameters@.take(n as int) =~= command.parameters@);
            }
        }
        let extra = self.per_run_parameter_list(iteration);
        let ghost before = command.parameters@;
        let ghost c0 = command;
        for j in 0..extra.len()
            invariant
                command.parameters@ == before + extra@.take(j as int),
                command.name == c0.name,
                command.expression == c0.expression,
                command.argv == c0.argv,
                command.per_run == c0.per_run,
        {
            command.parameters.push((extra[j].0.clone(), extra[j].1.copy_value()));
            assert(command.parameters@ =~= before + extra@.take(j + 1));
        }
        assert(extra@.take(extra@.len() as int) =~= extra@);
        assert(command.parameters@.skip(before.len() as int) =~= extra@);
        assert(command.parameters@.take(n as int) =~= before.take(n as int));
        proof {
            if base_len == n + 1 {
                assert(command.parameters@[n as int] == before[n as int]);
            }
            let it_params = if env_var_value(*iteration) is Some
                && crate::text::contains_seq(self.expression_v(), iteration_key()) { 1int } else { 0int };
            assert(base_len == n + it_params);
            let chunks = choose|chunks: Seq<Seq<(String, ParameterValue)>>| #[trigger] per_run_chunks_ok(self.per_run_v(), *iteration, chunks)
                && extra@ == flatten_params(chunks);
            assert(command.parameters@.skip(n + it_params) =~= flatten_params(chunks));
        }
        std::borrow::Cow::Owned(command)
    }
}


/// The names of variables.
pub open spec fn names_of(vars: Seq<(String, Seq<ParameterValue>)>) -> Seq<Seq<char>> {
    Seq::new(vars.len(), |i: int| vars[i].0@)
}

/// The names of the variables of each set of per-run parameters, in order.
pub open spec fn per_run_names_spec(ps: Seq<PerRunView>) -> Seq<Seq<char>>
    decreases ps.len(),
{
    if ps.len() == 0 {
        Seq::empty()
    } else {
        per_run_names_spec(ps.drop_last()) + names_of(ps.last().0)
    }
}

impl Command {
    /// A command from its parts, without per-run parameters.
    pub(crate) fn assemble(name: Option<String>, expression: String, argv: Option<Vec<String>>, parameters: Vec<(String, ParameterValue)>) -> (r: Command)
        ensures
            r.name_v() == opt_view(name),
            r.expression_v() == expression@,
            r.argv_v() == match argv { Some(a) => Some(crate::text::views(a@)), None => None::<Seq<Seq<char>>> },
            r.parameters_v() == parameters@,
            r.per_run_v().len() == 0,
    {
        let r = Command { name, expression, argv, parameters, per_run: Vec::new() };
        assert(r.per_run_v() =~= Seq::<PerRunView>::empty());
        r
    }

    /// The template of this command.
    pub(crate) fn expression_ref(&self) -> (r: &String)
        ensures
            r@ == self.expression_v(),
    {
        &self.expression
    }

    /// The `--command-name` template of this command.
    pub(crate) fn name_ref(&self) -> (r: &Option<String>)
        ensures
            opt_view(*r) == self.name_v(),
    {
        &self.name
    }

    /// This command with other parameters.
    pub(crate) fn set_parameters(&mut self, parameters: Vec<(String, ParameterValue)>)
        ensures
            final(self).name_v() == old(self).name_v(),
            final(self).expression_v() == old(self).expression_v(),
            final(self).argv_v() == old(self).argv_v(),
            final(self).parameters_v() == parameters@,
            final(self).per_run_v() == old(self).per_run_v(),
    {
        self.parameters = parameters;
    }

    /// The names of all per-run variables of this command, in order.
    pub(crate) fn per_run_names(&self) -> (r: Vec<String>)
        ensures
            crate::text::views(r@) == per_run_names_spec(self.per_run_v()),
    {
        let mut r: Vec<String> = Vec::new();
        let ghost pv = self.per_run_v();
        assert(crate::text::views(r@) =~= per_run_names_spec(pv.take(0)));
        for j in 0..self.per_run.len()
            invariant
                pv == self.per_run_v(),
                pv.len() == self.per_run@.len(),
                crate::text::views(r@) == per_run_names_spec(pv.take(j as int)),
        {
            let p = &self.per_run[j];
            proof { use_type_invariant(p); }
            let ghost before = crate::text::views(r@);
            let ghost vs = p.vars_v();
            assert(pv[j as int] == per_run_view(*p));
            let names = p.var_names();
            for k in 0..names.len()
                invariant
                    crate::text::views(r@) == before + crate::text::views(names@).take(k as int),
            {
                let ghost rv = crate::text::views(r@);
                let name = names[k].clone();
                r.push(name);
                assert(crate::text::views(r@) =~= rv.push(name@));
                assert(crate::text::views(names@)[k as int] == name@);
                assert(crate::text::views(r@) =~= before + crate::text::views(names@).take(k + 1));
            }
            assert(crate::text::views(names@).take(names@.len() as int) =~= crate::text::views(names@));
            let ghost t = pv.take(j + 1);
            assert(t.drop_last() =~= pv.take(j as int));
            assert(t.last() == pv[j as int]);
        }
        assert(pv.take(self.per_run@.len() as int) =~= pv);
        r
    }
}

impl PerRunParameters {
    /// The names of the variables, in order.
    pub fn var_names(&self) -> (r: Vec<String>)
        ensures
            crate::text::views(r@) == names_of(self.vars_v()),
    {
        let mut r: Vec<String> = Vec::new();
        let ghost nv = names_of(vars_view(self.vars@));
        for i in 0..self.vars.len()
            invariant
                nv == names_of(vars_view(self.vars@)),
                nv.len() == self.vars@.len(),
                crate::text::views(r@) == nv.take(i as int),
        {
            let name = self.vars[i].0.clone();
            assert(vars_view(self.vars@)[i as int].0 == self.vars@[i as int].0);
            assert(nv[i as int] == name@);
            let ghost rv = crate::text::views(r@);
            r.push(name);
            assert(crate::text::views(r@) =~= rv.push(name@));
            assert(crate::text::views(r@) =~= nv.take(i + 1));
        }
        assert(nv.take(self.vars@.len() as int) =~= nv);
        r
    }
}

} // verus!

verus! {

// ------------------------------------------------------------------------
// The cycle goes through every combination once

/// The combination that takes value `d[j]` of each variable `j`.
pub open spec fn picked(vars: Seq<(String, Seq<ParameterValue>)>, d: Seq<nat>) -> Seq<(String, ParameterValue)> {
    Seq::new(vars.len(), |j: int| (vars[j].0, vars[j].1[d[j] as int]))
}

/// `d` selects one value of each variable.
pub open spec fn valid_choice(vars: Seq<(String, Seq<ParameterValue>)>, d: Seq<nat>) -> bool {
    d.len() == vars.len() && forall|j: int| 0 <= j < d.len() ==> #[trigger] d[j] < vars[j].1.len()
}

/// The place of the combination `d` in the cycle (the last variable changes
/// fastest).
pub open spec fn cycle_number(vars: Seq<(String, Seq<ParameterValue>)>, d: Seq<nat>) -> nat
    decreases d.len(),
{
    if d.len() == 0 || vars.len() == 0 {
        0
    } else {
        cycle_number(vars.drop_last(), d.drop_last()) * vars.last().1.len() + d.last()
    }
}

proof fn lemma_cycle_number(vars: Seq<(String, Seq<ParameterValue>)>, d: Seq<nat>)
    requires
        valid_choice(vars, d),
    ensures
        cycle_number(vars, d) < combos(vars),
        cycle_pick(vars, cycle_number(vars, d)) == picked(vars, d),
    decreases d.len(),
{
    if d.len() > 0 {
        let prev = vars.drop_last();
        let dp = d.drop_last();
        assert(valid_choice(prev, dp)) by {
            assert forall|j: int| 0 <= j < dp.len() implies #[trigger] dp[j] < prev[j].1.len() by {
                assert(dp[j] == d[j]);
                assert(prev[j] == vars[j]);
            }
        }
        lemma_cycle_number(prev, dp);
        let q = cycle_number(prev, dp);
        let n = vars.last().1.len();
        let x = d.last();
        assert(x < n) by {
            assert(d[d.len() - 1] < vars[d.len() - 1].1.len());
        }
        let v = q * n + x;
        assert(v < combos(prev) * n) by (nonlinear_arith)
            requires q < combos(prev), x < n, v == q * n + x;
        vstd::arithmetic::div_mod::lemma_fundamental_div_mod_converse(v as int, n as int, q as int, x as int);
        assert(cycle_pick(vars, v) =~= picked(vars, d)) by {
            assert(cycle_pick(prev, q) == picked(prev, dp));
        }
    }
}

proof fn lemma_cycle_pick_injective(vars: Seq<(String, Seq<ParameterValue>)>, q1: nat, q2: nat)
    requires
        forall|j: int| 0 <= j < vars.len() ==> (#[trigger] vars[j]).1.no_duplicates(),
        q1 < combos(vars),
        q2 < combos(vars),
        cycle_pick(vars, q1) == cycle_pick(vars, q2),
    ensures
        q1 == q2,
    decreases vars.len(),
{
    if vars.len() > 0 {
        let prev = vars.drop_last();
        let n = vars.last().1.len();
        let c = combos(prev);
        assert(n > 0) by (nonlinear_arith)
            requires q1 < c * n, q1 >= 0, c >= 0;
        let a1 = q1 / n;
        let a2 = q2 / n;
        vstd::arithmetic::div_mod::lemma_fundamental_div_mod(q1 as int, n as int);
        vstd::arithmetic::div_mod::lemma_fundamental_div_mod(q2 as int, n as int);
        vstd::arithmetic::div_mod::lemma_multiply_divide_lt(q1 as int, n as int, c as int);
        vstd::arithmetic::div_mod::lemma_multiply_divide_lt(q2 as int, n as int, c as int);
        let p1 = cycle_pick(vars, q1);
        let p2 = cycle_pick(vars, q2);
        assert(p1.drop_last() == cycle_pick(prev, a1));
        assert(p2.drop_last() == cycle_pick(prev, a2));
        assert(forall|j: int| 0 <= j < prev.len() ==> (#[trigger] prev[j]).1.no_duplicates()) by {
            assert forall|j: int| 0 <= j < prev.len() implies (#[trigger] prev[j]).1.no_duplicates() by {
                assert(prev[j] == vars[j]);
            }
        }
        lemma_cycle_pick_injective(prev, a1, a2);
        let vals = vars.last().1;
        assert(vars[vars.len() - 1] == vars.last());
        assert(vals[(q1 % n) as int] == p1.last().1);
        assert(vals[(q2 % n) as int] == p2.last().1);
        assert(q1 % n == q2 % n);
    }
}

/// Aggregated runs go through every combination of the per-run values:
/// each combination is the one of some run among the first
/// `combos(vars)`, and, where no variable repeats a value, of only one of
/// them (`--aggregate-parameter-runs` measures each combination once per
/// cycle).
pub proof fn lemma_cycle_covers_each_combination_once(
    vars: Seq<(String, Seq<ParameterValue>)>,
    d: Seq<nat>,
    q1: nat,
    q2: nat,
)
    ensures
        valid_choice(vars, d) ==> cycle_number(vars, d) < combos(vars) && cycle_pick(vars, cycle_number(vars, d))
            == picked(vars, d),
        (forall|j: int| 0 <= j < vars.len() ==> (#[trigger] vars[j]).1.no_duplicates()) && q1 < combos(vars) && q2
            < combos(vars) && cycle_pick(vars, q1) == cycle_pick(vars, q2) ==> q1 == q2,
{
    if valid_choice(vars, d) {
        lemma_cycle_number(vars, d);
    }
    if (forall|j: int| 0 <= j < vars.len() ==> (#[trigger] vars[j]).1.no_duplicates()) && q1 < combos(vars) && q2
        < combos(vars) && cycle_pick(vars, q1) == cycle_pick(vars, q2) {
        lemma_cycle_pick_injective(vars, q1, q2);
    }
}

} // verus!

verus! {

/// A template without `{` refers to no parameter: substitution leaves it
/// unchanged, whatever the parameters.
pub proof fn lemma_substitute_keeps_plain_text(s: Seq<char>, ps: Seq<(Seq<char>, Seq<char>)>)
    requires
        forall|i: int| 0 <= i < s.len() ==> s[i] != '{',
    ensures
        substitute(s, ps) == s,
    decreases s.len(),
{
    if s.len() > 0 {
        lemma_best_from(s, ps, 0, -1);
        let b = best_match(s, ps);
        if 0 <= b < ps.len() && starts_with(s, key_of(ps[b].0)) {
            assert(s.subrange(0, key_of(ps[b].0).len() as int)[0] == '{');
            assert(s[0] == '{');
        }
        lemma_substitute_keeps_plain_text(s.skip(1), ps);
        assert(seq![s[0]] + s.skip(1) =~= s);
    }
}

} // verus!

verus! {

/// A command that takes over another's per-run parameters
/// (`with_per_run_parameters_of`, as the `--prepare` and `--conclude`
/// commands of a benchmark do) has the same per-run sets; with cycled
/// parameters it sees the same per-run values in every run.
pub proof fn lemma_copied_per_run_values(
    c: Command,
    p: Command,
    it: BenchmarkIteration,
    a: Seq<Seq<(String, ParameterValue)>>,
    b: Seq<Seq<(String, ParameterValue)>>,
)
    requires
        p.per_run_v() == c.per_run_v(),
        forall|k: int| 0 <= k < c.per_run_v().len() ==> (#[trigger] c.per_run_v()[k]).1 is Cycle,
        per_run_chunks_ok(c.per_run_v(), it, a),
        per_run_chunks_ok(p.per_run_v(), it, b),
    ensures
        a == b,
        flatten_params(a) == flatten_params(b),
{
    lemma_shared_per_run_values(c.per_run_v(), it, a, b);
}

} // verus!

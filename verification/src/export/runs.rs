//! The per-run exports: one table per benchmark with every run.
use vstd::prelude::*;
use crate::benchmark::benchmark_result::OmittedRun;
use crate::text::views;

verus! {

/// The indices of the runs left out of the statistics: the failed runs,
/// then the discarded outliers.
pub open spec fn removed_runs(omitted: Seq<OmittedRun>, discarded: Seq<usize>) -> Seq<usize> {
    omitted.map_values(|o: OmittedRun| o.index) + discarded
}

/// The numbers below `n` that are not in `removed`, in increasing order.
pub open spec fn kept_iterations(removed: Seq<usize>, n: nat) -> Seq<usize>
    decreases n,
{
    if n == 0 {
        Seq::empty()
    } else {
        let prev = kept_iterations(removed, (n - 1) as nat);
        if removed.contains((n - 1) as usize) { prev } else { prev.push((n - 1) as usize) }
    }
}

fn contains_index(v: &Vec<usize>, x: usize) -> (b: bool)
    ensures
        b == v@.contains(x),
{
    let mut i: usize = 0;
    while i < v.len()
        invariant
            i <= v@.len(),
            forall|k: int| 0 <= k < i ==> v@[k] != x,
        decreases v.len() - i,
    {
        if v[i] == x {
            assert(v@[i as int] == x);
            return true;
        }
        i += 1;
    }
    false
}

/// The iteration numbers (as in `JOULEX_ITERATION`) of the `kept` runs
/// that are still present, i.e. without the runs removed by
/// `--omit-failed-runs` or `--discard-outliers`.
pub fn iteration_numbers(omitted: &[OmittedRun], discarded: &[usize], kept: usize) -> (r: Vec<usize>)
    requires
        kept + omitted@.len() + discarded@.len() <= usize::MAX,
    ensures
        r@ == kept_iterations(removed_runs(omitted@, discarded@), (kept + omitted@.len() + discarded@.len()) as nat),
{
    let ghost removed_v = removed_runs(omitted@, discarded@);
    let mut removed: Vec<usize> = Vec::new();
    for i in 0..omitted.len()
        invariant
            removed@ == omitted@.take(i as int).map_values(|o: OmittedRun| o.index),
    {
        removed.push(omitted[i].index);
        assert(removed@ =~= omitted@.take(i + 1).map_values(|o: OmittedRun| o.index));
    }
    assert(omitted@.take(omitted@.len() as int) =~= omitted@);
    let ghost first = removed@;
    for i in 0..discarded.len()
        invariant
            removed@ == first + discarded@.take(i as int),
    {
        removed.push(discarded[i]);
        assert(removed@ =~= first + discarded@.take(i + 1));
    }
    assert(discarded@.take(discarded@.len() as int) =~= discarded@);
    assert(removed@ =~= removed_v);
    let total = kept + omitted.len() + discarded.len();
    let mut r: Vec<usize> = Vec::new();
    let mut n: usize = 0;
    while n < total
        invariant
            n <= total,
            removed@ == removed_v,
            r@ == kept_iterations(removed_v, n as nat),
        decreases total - n,
    {
        if !contains_index(&removed, n) {
            r.push(n);
        }
        n += 1;
    }
    r
}

} // verus!

verus! {

/// How many of the numbers below `n` are in `removed`.
pub open spec fn removed_below(removed: Seq<usize>, n: nat) -> nat
    decreases n,
{
    if n == 0 {
        0
    } else {
        removed_below(removed, (n - 1) as nat) + if removed.contains((n - 1) as usize) { 1nat } else { 0nat }
    }
}

proof fn lemma_kept_plus_removed(removed: Seq<usize>, n: nat)
    ensures
        kept_iterations(removed, n).len() + removed_below(removed, n) == n,
        forall|k: int| 0 <= k < kept_iterations(removed, n).len() ==> (#[trigger] kept_iterations(removed, n)[k]) < n
            && !removed.contains(kept_iterations(removed, n)[k]),
    decreases n,
{
    if n > 0 {
        lemma_kept_plus_removed(removed, (n - 1) as nat);
        let prev = kept_iterations(removed, (n - 1) as nat);
        assert forall|k: int| 0 <= k < kept_iterations(removed, n).len() implies (#[trigger] kept_iterations(removed, n)[k]) < n
            && !removed.contains(kept_iterations(removed, n)[k]) by {
            if k < prev.len() {
                assert(kept_iterations(removed, n)[k] == prev[k]);
            }
        }
    }
}

proof fn lemma_removed_below_is_a_count(removed: Seq<usize>, n: nat)
    requires
        n <= usize::MAX + 1,
    ensures
        removed_below(removed, n) == removed.to_set().filter(|i: usize| (i as nat) < n).len(),
        removed.to_set().filter(|i: usize| (i as nat) < n).finite(),
    decreases n,
{
    broadcast use vstd::set::group_set_axioms;
    broadcast use vstd::seq_lib::seq_to_set_is_finite;
    let s = removed.to_set();
    let f = s.filter(|i: usize| (i as nat) < n);
    assert(f.subset_of(s));
    vstd::set_lib::lemma_set_subset_finite(s, f);
    if n == 0 {
        assert(f =~= Set::<usize>::empty());
    } else {
        let m = (n - 1) as nat;
        lemma_removed_below_is_a_count(removed, m);
        let g = s.filter(|i: usize| (i as nat) < m);
        let x = m as usize;
        if removed.contains(x) {
            assert(f =~= g.insert(x));
            assert(!g.contains(x));
        } else {
            assert(f =~= g);
        }
    }
}

/// The runs that are kept are numbered with exactly the iterations that
/// were not removed, in order: where the removed indices are distinct and
/// all below the number of iterations, there is one number per kept run.
pub proof fn lemma_iteration_numbers_match_the_kept_runs(removed: Seq<usize>, n: nat)
    requires
        removed.no_duplicates(),
        forall|i: int| 0 <= i < removed.len() ==> (#[trigger] removed[i]) < n,
        n <= usize::MAX + 1,
    ensures
        kept_iterations(removed, n).len() + removed.len() == n,
        forall|k: int| 0 <= k < kept_iterations(removed, n).len() ==> (#[trigger] kept_iterations(removed, n)[k]) < n
            && !removed.contains(kept_iterations(removed, n)[k]),
{
    lemma_kept_plus_removed(removed, n);
    lemma_removed_below_is_a_count(removed, n);
    let s = removed.to_set();
    assert(s.filter(|i: usize| (i as nat) < n) =~= s);
    removed.unique_seq_to_set();
}

} // verus!

verus! {

// ------------------------------------------------------------------------
// The table of one benchmark's runs

/// The per-run values of one benchmark: the wall-clock times, the user and
/// system times, the peak memory, the energy (the times and the energy
/// already formatted) and the exit codes. A column whose length is not the
/// number of wall-clock times is left out of the table.
pub struct RunColumns {
    pub wall: Vec<String>,
    pub user: Option<Vec<String>>,
    pub system: Option<Vec<String>>,
    pub memory: Option<Vec<u64>>,
    pub energy: Option<Vec<String>>,
    pub exit_codes: Vec<Option<i32>>,
}

impl RunColumns {
    /// The number of runs.
    pub open spec fn runs(self) -> nat {
        self.wall@.len()
    }

    /// The table has the user and system times.
    pub open spec fn shows_cpu(self) -> bool {
        &&& self.user matches Some(u) && u@.len() == self.runs()
        &&& self.system matches Some(s) && s@.len() == self.runs()
    }

    /// The table has the peak memory.
    pub open spec fn shows_memory(self) -> bool {
        self.memory matches Some(m) && m@.len() == self.runs()
    }

    /// The table has the energy.
    pub open spec fn shows_energy(self) -> bool {
        self.energy matches Some(e) && e@.len() == self.runs()
    }

    /// The table has the exit codes.
    pub open spec fn shows_exit_codes(self) -> bool {
        self.exit_codes@.len() == self.runs()
    }
}

/// An exit code as the table shows it (`signal` where a signal ended the run).
pub open spec fn exit_code_text(code: Option<i32>) -> Seq<char> {
    match code {
        Some(c) => crate::text::signed_decimal(c as int),
        None => "signal"@,
    }
}

/// A column title with its unit in brackets.
pub open spec fn unit_title_text(name: Seq<char>, unit: Seq<char>) -> Seq<char> {
    name + " ["@ + unit + "]"@
}

/// The column titles of the table of runs, for the time unit named `unit`.
pub open spec fn runs_header(c: RunColumns, unit: Seq<char>) -> Seq<Seq<char>> {
    seq!["Iteration"@, unit_title_text("Wall"@, unit)]
        + (if c.shows_cpu() { seq![unit_title_text("User"@, unit), unit_title_text("System"@, unit)] } else { Seq::empty() })
        + (if c.shows_memory() { seq!["Peak memory"@] } else { Seq::empty() })
        + (if c.shows_energy() { seq!["Energy [J]"@] } else { Seq::empty() })
        + (if c.shows_exit_codes() { seq!["Exit code"@] } else { Seq::empty() })
}

/// The cells of run `i`, numbered `iteration`.
pub open spec fn runs_row(c: RunColumns, iteration: usize, i: int) -> Seq<Seq<char>> {
    seq![crate::text::decimal(iteration as nat), c.wall@[i]@]
        + (if c.shows_cpu() { seq![c.user->0@[i]@, c.system->0@[i]@] } else { Seq::empty() })
        + (if c.shows_memory() { seq![crate::util::units::bytes_text(c.memory->0@[i] as nat)] } else { Seq::empty() })
        + (if c.shows_energy() { seq![c.energy->0@[i]@] } else { Seq::empty() })
        + (if c.shows_exit_codes() { seq![exit_code_text(c.exit_codes@[i])] } else { Seq::empty() })
}

fn owned(t: &str) -> (s: String)
    ensures
        s@ == t@,
{
    let mut s = String::new();
    crate::text::push_str(&mut s, t);
    s
}

fn unit_title(name: &str, unit: &String) -> (s: String)
    ensures
        s@ == unit_title_text(name@, unit@),
{
    let mut s = String::new();
    crate::text::push_str(&mut s, name);
    crate::text::push_str(&mut s, " [");
    crate::text::push_str(&mut s, unit.as_str());
    crate::text::push_str(&mut s, "]");
    s
}

/// The column titles and the rows of the table of one benchmark's runs,
/// each run numbered with its iteration (the runs left out of the
/// statistics keep their numbers). The caller puts them into a markup
/// table, with every column aligned to the right.
pub fn runs_table(columns: &RunColumns, omitted: &[OmittedRun], discarded: &[usize], unit: crate::util::units::Unit) -> (r: (
    Vec<String>,
    Vec<Vec<String>>,
))
    requires
        columns.runs() + omitted@.len() + discarded@.len() <= usize::MAX,
        removed_runs(omitted@, discarded@).no_duplicates(),
        forall|k: int| 0 <= k < removed_runs(omitted@, discarded@).len()
            ==> (#[trigger] removed_runs(omitted@, discarded@)[k]) < columns.runs() + omitted@.len() + discarded@.len(),
    ensures
        views(r.0@) == runs_header(*columns, crate::util::units::unit_name(unit)),
        r.1@.len() == columns.runs(),
        forall|i: int| 0 <= i < columns.runs() ==> views(#[trigger] r.1@[i]@) == runs_row(
            *columns,
            kept_iterations(removed_runs(omitted@, discarded@), columns.runs() + omitted@.len() + discarded@.len())[i],
            i,
        ),
{
    let n = columns.wall.len();
    let ghost c = *columns;
    let unit_name = unit.short_name();
    let ghost u = crate::util::units::unit_name(unit);
    let cpu = match (&columns.user, &columns.system) {
        (Some(us), Some(sy)) => us.len() == n && sy.len() == n,
        _ => false,
    };
    let memory = match &columns.memory {
        Some(m) => m.len() == n,
        None => false,
    };
    let energy = match &columns.energy {
        Some(e) => e.len() == n,
        None => false,
    };
    let exit = columns.exit_codes.len() == n;
    assert(cpu == c.shows_cpu());

    let mut header: Vec<String> = Vec::new();
    header.push(owned("Iteration"));
    header.push(unit_title("Wall", &unit_name));
    let ghost h0 = views(header@);
    assert(h0 =~= seq!["Iteration"@, unit_title_text("Wall"@, u)]);
    if cpu {
        header.push(unit_title("User", &unit_name));
        header.push(unit_title("System", &unit_name));
    }
    let ghost h1 = views(header@);
    assert(h1 =~= h0 + (if c.shows_cpu() { seq![unit_title_text("User"@, u), unit_title_text("System"@, u)] } else { Seq::empty() }));
    if memory {
        header.push(owned("Peak memory"));
    }
    let ghost h2 = views(header@);
    assert(h2 =~= h1 + (if c.shows_memory() { seq!["Peak memory"@] } else { Seq::empty() }));
    if energy {
        header.push(owned("Energy [J]"));
    }
    let ghost h3 = views(header@);
    assert(h3 =~= h2 + (if c.shows_energy() { seq!["Energy [J]"@] } else { Seq::empty() }));
    if exit {
        header.push(owned("Exit code"));
    }
    assert(views(header@) =~= h3 + (if c.shows_exit_codes() { seq!["Exit code"@] } else { Seq::empty() }));

    let iterations = iteration_numbers(omitted, discarded, n);
    proof {
        lemma_iteration_numbers_match_the_kept_runs(
            removed_runs(omitted@, discarded@),
            (n + omitted@.len() + discarded@.len()) as nat,
        );
        assert(removed_runs(omitted@, discarded@).len() == omitted@.len() + discarded@.len());
    }
    let mut rows: Vec<Vec<String>> = Vec::new();
    for i in 0..n
        invariant
            n == columns.runs(),
            c == *columns,
            iterations@.len() == n,
            iterations@ == kept_iterations(removed_runs(omitted@, discarded@), columns.runs() + omitted@.len() + discarded@.len()),
            cpu == c.shows_cpu(),
            memory == c.shows_memory(),
            energy == c.shows_energy(),
            exit == c.shows_exit_codes(),
            rows@.len() == i,
            forall|k: int| 0 <= k < i ==> views(#[trigger] rows@[k]@) == runs_row(c, iterations@[k], k),
    {
        let mut row: Vec<String> = Vec::new();
        row.push(crate::text::decimal_string(iterations[i] as u64));
        row.push(columns.wall[i].clone());
        let ghost r0 = views(row@);
        assert(r0 =~= seq![crate::text::decimal(iterations@[i as int] as nat), c.wall@[i as int]@]);
        if cpu {
            match (&columns.user, &columns.system) {
                (Some(us), Some(sy)) => {
                    row.push(us[i].clone());
                    row.push(sy[i].clone());
                },
                _ => {},
            }
        }
        let ghost r1 = views(row@);
        assert(r1 =~= r0 + (if c.shows_cpu() { seq![c.user->0@[i as int]@, c.system->0@[i as int]@] } else { Seq::empty() }));
        if memory {
            match &columns.memory {
                Some(m) => row.push(crate::util::units::format_bytes(m[i])),
                None => {},
            }
        }
        let ghost r2 = views(row@);
        assert(r2 =~= r1 + (if c.shows_memory() { seq![crate::util::units::bytes_text(c.memory->0@[i as int] as nat)] } else { Seq::empty() }));
        if energy {
            match &columns.energy {
                Some(e) => row.push(e[i].clone()),
                None => {},
            }
        }
        let ghost r3 = views(row@);
        assert(r3 =~= r2 + (if c.shows_energy() { seq![c.energy->0@[i as int]@] } else { Seq::empty() }));
        if exit {
            let mut t = String::new();
            match columns.exit_codes[i] {
                Some(code) => crate::parameter::push_signed_decimal(&mut t, code),
                None => crate::text::push_str(&mut t, "signal"),
            }
            row.push(t);
        }
        assert(views(row@) =~= r3 + (if c.shows_exit_codes() { seq![exit_code_text(c.exit_codes@[i as int])] } else { Seq::empty() }));
        rows.push(row);
    }
    (header, rows)
}

} // verus!

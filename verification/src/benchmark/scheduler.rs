//! The order of the timed runs when the commands take turns ("round
//! robin"): iteration by iteration, and within an iteration command by
//! command, each command as long as it has runs left. The first run of every
//! command (iteration 0) is the initial measurement and comes before.
use vstd::prelude::*;

verus! {

/// Command `r` has a timed run in iteration `i`.
pub open spec fn has_run(counts: Seq<u64>, i: int, r: int) -> bool {
    1 <= i && 0 <= r < counts.len() && i < counts[r]
}

/// `(i1, r1)` comes no later than `(i2, r2)`: by iteration, then by command.
pub open spec fn no_later(i1: int, r1: int, i2: int, r2: int) -> bool {
    i1 < i2 || (i1 == i2 && r1 <= r2)
}

/// The largest count, or 0.
pub open spec fn max_count(counts: Seq<u64>) -> u64
    decreases counts.len(),
{
    if counts.len() == 0 {
        0
    } else {
        let m = max_count(counts.drop_last());
        if counts.last() > m { counts.last() } else { m }
    }
}

proof fn lemma_max_count(counts: Seq<u64>)
    ensures
        forall|r: int| 0 <= r < counts.len() ==> counts[r] <= max_count(counts),
    decreases counts.len(),
{
    if counts.len() > 0 {
        lemma_max_count(counts.drop_last());
        assert forall|r: int| 0 <= r < counts.len() implies counts[r] <= max_count(counts) by {
            if r < counts.len() - 1 {
                assert(counts[r] == counts.drop_last()[r]);
            }
        }
    }
}

/// The first timed run at or after iteration `i`, command `r`, in the order
/// of the turns; `None` where no run is left. `counts[r]` is the number of
/// runs of command `r`, the initial measurement included.
pub fn next_round_robin_run(counts: &[u64], i: u64, r: usize) -> (next: Option<(u64, usize)>)
    ensures
        match next {
            Some((i2, r2)) => {
                &&& has_run(counts@, i2 as int, r2 as int)
                &&& no_later(i as int, r as int, i2 as int, r2 as int)
                &&& forall|i3: int, r3: int|
                    has_run(counts@, i3, r3) && no_later(i as int, r as int, i3, r3) ==> no_later(
                        i2 as int,
                        r2 as int,
                        i3,
                        r3,
                    )
            },
            None => forall|i3: int, r3: int|
                has_run(counts@, i3, r3) ==> !no_later(i as int, r as int, i3, r3),
        },
{
    let n = counts.len();
    let mut m: u64 = 0;
    let mut k: usize = 0;
    while k < n
        invariant
            n == counts@.len(),
            k <= n,
            m == max_count(counts@.take(k as int)),
        decreases n - k,
    {
        assert(counts@.take(k + 1).drop_last() =~= counts@.take(k as int));
        if counts[k] > m {
            m = counts[k];
        }
        k += 1;
    }
    proof {
        assert(counts@.take(n as int) =~= counts@);
        lemma_max_count(counts@);
    }
    let mut ii: u64 = i;
    let mut rr: usize = r;
    while ii < m
        invariant
            n == counts@.len(),
            m == max_count(counts@),
            forall|c: int| 0 <= c < n ==> counts@[c] <= m,
            no_later(i as int, r as int, ii as int, rr as int),
            forall|i3: int, r3: int|
                has_run(counts@, i3, r3) && no_later(i as int, r as int, i3, r3) ==> no_later(
                    ii as int,
                    rr as int,
                    i3,
                    r3,
                ),
        decreases m - ii,
    {
        while rr < n
            invariant
                n == counts@.len(),
                ii < m,
                no_later(i as int, r as int, ii as int, rr as int),
                forall|i3: int, r3: int|
                    has_run(counts@, i3, r3) && no_later(i as int, r as int, i3, r3) ==> no_later(
                        ii as int,
                        rr as int,
                        i3,
                        r3,
                    ),
            decreases n - rr,
        {
            if ii >= 1 && ii < counts[rr] {
                return Some((ii, rr));
            }
            rr += 1;
        }
        ii += 1;
        rr = 0;
    }
    None
}

/// The number of timed runs left after the initial measurements: one less
/// than each command's count.
pub open spec fn remaining_runs_spec(counts: Seq<u64>) -> nat
    decreases counts.len(),
{
    if counts.len() == 0 {
        0
    } else {
        remaining_runs_spec(counts.drop_last()) + if counts.last() > 0 { (counts.last() - 1) as nat } else { 0 }
    }
}

/// The number of timed runs left after the initial measurements.
pub fn remaining_runs(counts: &[u64]) -> (total: u64)
    requires
        remaining_runs_spec(counts@) <= u64::MAX,
    ensures
        total == remaining_runs_spec(counts@),
{
    let mut total: u64 = 0;
    let mut k: usize = 0;
    while k < counts.len()
        invariant
            k <= counts@.len(),
            total == remaining_runs_spec(counts@.take(k as int)),
            remaining_runs_spec(counts@) <= u64::MAX,
        decreases counts.len() - k,
    {
        assert(counts@.take(k + 1).drop_last() =~= counts@.take(k as int));
        proof {
            lemma_remaining_runs_prefix(counts@, k + 1);
        }
        total = total + counts[k].saturating_sub(1);
        k += 1;
    }
    assert(counts@.take(counts@.len() as int) =~= counts@);
    total
}

proof fn lemma_remaining_runs_prefix(counts: Seq<u64>, k: int)
    requires
        0 <= k <= counts.len(),
    ensures
        remaining_runs_spec(counts.take(k)) <= remaining_runs_spec(counts),
    decreases counts.len() - k,
{
    if k < counts.len() {
        lemma_remaining_runs_prefix(counts, k + 1);
        assert(counts.take(k + 1).drop_last() =~= counts.take(k));
    } else {
        assert(counts.take(k) =~= counts);
    }
}


/// The turns of iteration `i` among the first `k` commands: each command
/// that has a run in it, in order, as (iteration, command) pairs.
pub open spec fn iteration_turns(counts: Seq<u64>, i: int, k: int) -> Seq<(int, int)>
    decreases k,
{
    if k <= 0 {
        Seq::empty()
    } else {
        iteration_turns(counts, i, k - 1) + (if has_run(counts, i, k - 1) { seq![(i, k - 1)] } else { Seq::empty() })
    }
}

/// The round-robin order of the timed runs of iterations below `m`:
/// iteration by iteration, command by command.
pub open spec fn round_robin_turns(counts: Seq<u64>, m: int) -> Seq<(int, int)>
    decreases m,
{
    if m <= 1 {
        Seq::empty()
    } else {
        round_robin_turns(counts, m - 1) + iteration_turns(counts, m - 1, counts.len() as int)
    }
}

/// The timed runs of command `r` with `c` runs in all, in order.
pub open spec fn command_turns(r: int, c: int) -> Seq<(int, int)>
    decreases c,
{
    if c <= 1 {
        Seq::empty()
    } else {
        command_turns(r, c - 1).push((c - 1, r))
    }
}

/// The grouped order of the timed runs: command by command, each with all
/// its runs in turn.
pub open spec fn grouped_turns(counts: Seq<u64>) -> Seq<(int, int)>
    decreases counts.len(),
{
    if counts.len() == 0 {
        Seq::empty()
    } else {
        grouped_turns(counts.drop_last()) + command_turns(counts.len() - 1, counts.last() as int)
    }
}

/// The iterations of the runs of command `r` in a sequence of turns, in
/// the order in which they come.
pub open spec fn runs_of(turns: Seq<(int, int)>, r: int) -> Seq<int>
    decreases turns.len(),
{
    if turns.len() == 0 {
        Seq::empty()
    } else {
        runs_of(turns.drop_last(), r) + (if turns.last().1 == r { seq![turns.last().0] } else { Seq::empty() })
    }
}

/// The iterations 1, 2, …, `c - 1`: the timed runs of a command with `c`
/// runs (its first run is the initial measurement).
pub open spec fn iterations_before(c: int) -> Seq<int>
    decreases c,
{
    if c <= 1 {
        Seq::empty()
    } else {
        iterations_before(c - 1).push(c - 1)
    }
}

proof fn lemma_runs_of_concat(a: Seq<(int, int)>, b: Seq<(int, int)>, r: int)
    ensures
        runs_of(a + b, r) == runs_of(a, r) + runs_of(b, r),
    decreases b.len(),
{
    if b.len() == 0 {
        assert(a + b =~= a);
        assert(runs_of(a, r) + runs_of(b, r) =~= runs_of(a, r));
    } else {
        assert((a + b).drop_last() =~= a + b.drop_last());
        lemma_runs_of_concat(a, b.drop_last(), r);
        assert((a + b).last() == b.last());
        assert(runs_of(a + b, r) =~= runs_of(a, r) + runs_of(b, r));
    }
}

proof fn lemma_runs_of_iteration(counts: Seq<u64>, i: int, k: int, r: int)
    ensures
        runs_of(iteration_turns(counts, i, k), r) == (if 0 <= r < k && has_run(counts, i, r) {
            seq![i]
        } else {
            Seq::<int>::empty()
        }),
    decreases k,
{
    if k > 0 {
        lemma_runs_of_iteration(counts, i, k - 1, r);
        let tail = if has_run(counts, i, k - 1) { seq![(i, k - 1)] } else { Seq::<(int, int)>::empty() };
        lemma_runs_of_concat(iteration_turns(counts, i, k - 1), tail, r);
        if !has_run(counts, i, k - 1) {
            assert(runs_of(tail, r) =~= Seq::<int>::empty());
        }
        if has_run(counts, i, k - 1) {
            assert(tail.drop_last() =~= Seq::<(int, int)>::empty());
            assert(tail.last() == (i, k - 1));
            assert(runs_of(Seq::<(int, int)>::empty(), r) =~= Seq::<int>::empty());
            assert(runs_of(tail, r) =~= (if k - 1 == r { seq![i] } else { Seq::<int>::empty() }));
        }
        assert(runs_of(iteration_turns(counts, i, k), r) =~= (if 0 <= r < k && has_run(counts, i, r) {
            seq![i]
        } else {
            Seq::<int>::empty()
        }));
    }
}

proof fn lemma_runs_of_round_robin(counts: Seq<u64>, m: int, r: int)
    requires
        0 <= r < counts.len(),
    ensures
        runs_of(round_robin_turns(counts, m), r) == iterations_before(if m <= counts[r] { m } else { counts[r] as int }),
    decreases m,
{
    if m > 1 {
        lemma_runs_of_round_robin(counts, m - 1, r);
        lemma_runs_of_concat(round_robin_turns(counts, m - 1), iteration_turns(counts, m - 1, counts.len() as int), r);
        lemma_runs_of_iteration(counts, m - 1, counts.len() as int, r);
        let c = counts[r] as int;
        if m - 1 < c {
            assert(iterations_before(m) == iterations_before(m - 1).push(m - 1));
            assert(runs_of(round_robin_turns(counts, m), r) =~= iterations_before(m));
        } else {
            assert(runs_of(round_robin_turns(counts, m), r) =~= iterations_before(c));
        }
    }
}

proof fn lemma_runs_of_command(r2: int, c: int, r: int)
    ensures
        runs_of(command_turns(r2, c), r) == (if r2 == r { iterations_before(c) } else { Seq::<int>::empty() }),
    decreases c,
{
    if c > 1 {
        lemma_runs_of_command(r2, c - 1, r);
        assert(command_turns(r2, c).drop_last() =~= command_turns(r2, c - 1));
        assert(runs_of(command_turns(r2, c), r) =~= (if r2 == r { iterations_before(c) } else { Seq::<int>::empty() }));
    }
}

proof fn lemma_runs_of_grouped(counts: Seq<u64>, r: int)
    ensures
        runs_of(grouped_turns(counts), r) == (if 0 <= r < counts.len() {
            iterations_before(counts[r] as int)
        } else {
            Seq::<int>::empty()
        }),
    decreases counts.len(),
{
    if counts.len() > 0 {
        let prev = counts.drop_last();
        lemma_runs_of_grouped(prev, r);
        let n = counts.len() - 1;
        lemma_runs_of_concat(grouped_turns(prev), command_turns(n, counts.last() as int), r);
        lemma_runs_of_command(n, counts.last() as int, r);
        if 0 <= r < n {
            assert(prev[r] == counts[r]);
        }
        assert(runs_of(grouped_turns(counts), r) =~= (if 0 <= r < counts.len() {
            iterations_before(counts[r] as int)
        } else {
            Seq::<int>::empty()
        }));
    }
}

proof fn lemma_iteration_turns_in_order(counts: Seq<u64>, i: int, k: int)
    ensures
        forall|x: int| 0 <= x < iteration_turns(counts, i, k).len() ==> {
            let t = #[trigger] iteration_turns(counts, i, k)[x];
            t.0 == i && t.1 < k && has_run(counts, t.0, t.1)
        },
        forall|a: int, b: int| 0 <= a < b < iteration_turns(counts, i, k).len()
            ==> iteration_turns(counts, i, k)[a].1 < iteration_turns(counts, i, k)[b].1,
        forall|r: int| 0 <= r < k && has_run(counts, i, r) ==> iteration_turns(counts, i, k).contains((i, r)),
    decreases k,
{
    if k > 0 {
        lemma_iteration_turns_in_order(counts, i, k - 1);
        let p = iteration_turns(counts, i, k - 1);
        let t = iteration_turns(counts, i, k);
        assert forall|r: int| 0 <= r < k && has_run(counts, i, r) implies t.contains((i, r)) by {
            if r < k - 1 {
                let x = choose|x: int| 0 <= x < p.len() && p[x] == (i, r);
                assert(t[x] == p[x]);
            } else {
                assert(t[t.len() - 1] == (i, r));
            }
        }
        assert forall|x: int| 0 <= x < t.len() implies {
            let e = #[trigger] t[x];
            e.0 == i && e.1 < k && has_run(counts, e.0, e.1)
        } by {
            if x < p.len() {
                assert(t[x] == p[x]);
            }
        }
        assert forall|a: int, b: int| 0 <= a < b < t.len() implies t[a].1 < t[b].1 by {
            if b < p.len() {
                assert(t[a] == p[a] && t[b] == p[b]);
            } else {
                assert(t[a] == p[a]);
                assert(p[a].1 < k - 1);
            }
        }
    }
}

/// The round-robin order holds each timed run of the iterations below `m`
/// once, in the order of the turns (by iteration, then by command): the
/// order in which `next_round_robin_run` finds them.
pub proof fn lemma_round_robin_turns_in_order(counts: Seq<u64>, m: int)
    ensures
        forall|x: int| 0 <= x < round_robin_turns(counts, m).len() ==> {
            let t = #[trigger] round_robin_turns(counts, m)[x];
            has_run(counts, t.0, t.1) && t.0 < m
        },
        forall|a: int, b: int|
            #![trigger round_robin_turns(counts, m)[a], round_robin_turns(counts, m)[b]]
            0 <= a < b < round_robin_turns(counts, m).len() ==> no_later(
                round_robin_turns(counts, m)[a].0,
                round_robin_turns(counts, m)[a].1,
                round_robin_turns(counts, m)[b].0,
                round_robin_turns(counts, m)[b].1,
            ) && round_robin_turns(counts, m)[a] != round_robin_turns(counts, m)[b],
        forall|i: int, r: int| has_run(counts, i, r) && i < m ==> round_robin_turns(counts, m).contains((i, r)),
    decreases m,
{
    if m > 1 {
        lemma_round_robin_turns_in_order(counts, m - 1);
        lemma_iteration_turns_in_order(counts, m - 1, counts.len() as int);
        let p = round_robin_turns(counts, m - 1);
        let q = iteration_turns(counts, m - 1, counts.len() as int);
        let t = round_robin_turns(counts, m);
        assert(t == p + q);
        assert forall|x: int| 0 <= x < t.len() implies {
            let e = #[trigger] t[x];
            has_run(counts, e.0, e.1) && e.0 < m
        } by {
            if x < p.len() {
                assert(t[x] == p[x]);
            } else {
                assert(t[x] == q[x - p.len()]);
            }
        }
        assert forall|a: int, b: int| 0 <= a < b < t.len() implies no_later(t[a].0, t[a].1, t[b].0, t[b].1)
            && t[a] != t[b] by {
            if b < p.len() {
                assert(t[a] == p[a] && t[b] == p[b]);
            } else if a < p.len() {
                assert(t[a] == p[a] && t[b] == q[b - p.len()]);
                assert(p[a].0 < m - 1);
                assert(q[b - p.len()].0 == m - 1);
            } else {
                assert(t[a] == q[a - p.len()] && t[b] == q[b - p.len()]);
                assert(q[a - p.len()].1 < q[b - p.len()].1);
            }
        }
        assert forall|i: int, r: int| has_run(counts, i, r) && i < m implies t.contains((i, r)) by {
            if i < m - 1 {
                let x = choose|x: int| 0 <= x < p.len() && p[x] == (i, r);
                assert(t[x] == p[x]);
            } else {
                assert(0 <= r < counts.len());
                let x = choose|x: int| 0 <= x < q.len() && q[x] == (i, r);
                assert(t[p.len() + x] == q[x]);
            }
        }
    }
}

/// Taking turns changes only the order in which the runs execute: in the
/// round-robin order (through the largest count) and in the grouped order,
/// every command gets the same timed runs, iterations 1, 2, … up to its
/// count, each once and in increasing order.
pub proof fn lemma_round_robin_runs_match_grouped(counts: Seq<u64>, r: int)
    requires
        0 <= r < counts.len(),
    ensures
        runs_of(round_robin_turns(counts, max_count(counts) as int), r) == iterations_before(counts[r] as int),
        runs_of(grouped_turns(counts), r) == iterations_before(counts[r] as int),
        runs_of(round_robin_turns(counts, max_count(counts) as int), r) == runs_of(grouped_turns(counts), r),
{
    lemma_max_count(counts);
    lemma_runs_of_round_robin(counts, max_count(counts) as int, r);
    lemma_runs_of_grouped(counts, r);
}

/// The timed runs of the schedule, as (iteration, command) pairs.
pub open spec fn scheduled_runs(counts: Seq<u64>) -> Set<(int, int)> {
    Set::new(|p: (int, int)| has_run(counts, p.0, p.1))
}

/// The turns take exactly as many runs as the progress bar counts: one
/// less than each command's count (its initial measurement comes before).
pub proof fn lemma_turns_take_the_remaining_runs(counts: Seq<u64>)
    ensures
        scheduled_runs(counts).finite(),
        scheduled_runs(counts).len() == remaining_runs_spec(counts),
    decreases counts.len(),
{
    if counts.len() == 0 {
        assert(scheduled_runs(counts) =~= Set::<(int, int)>::empty());
    } else {
        let prev = counts.drop_last();
        lemma_turns_take_the_remaining_runs(prev);
        let n = counts.len() - 1;
        let c = counts.last() as int;
        let col = Set::new(|p: (int, int)| p.1 == n && 1 <= p.0 < c);
        if c >= 1 {
            let f = |i: int| (i, n);
            vstd::set_lib::lemma_int_range(1, c);
            assert(vstd::set_lib::set_int_range(1, c).map(f) =~= col) by {
                assert forall|p: (int, int)| col.contains(p) implies vstd::set_lib::set_int_range(1, c).map(f).contains(p) by {
                    assert(vstd::set_lib::set_int_range(1, c).contains(p.0));
                    assert(f(p.0) == p);
                }
            }
            assert(vstd::relations::injective_on(f, vstd::set_lib::set_int_range(1, c)));
            vstd::set_lib::lemma_map_size(vstd::set_lib::set_int_range(1, c), col, f);
        } else {
            assert(col =~= Set::<(int, int)>::empty());
        }
        assert(scheduled_runs(counts) =~= scheduled_runs(prev) + col) by {
            assert forall|p: (int, int)| scheduled_runs(counts).contains(p) implies (scheduled_runs(prev) + col).contains(p) by {
                if p.1 < n {
                    assert(counts[p.1] == prev[p.1]);
                }
            }
            assert forall|p: (int, int)| (scheduled_runs(prev) + col).contains(p) implies scheduled_runs(counts).contains(p) by {
                if scheduled_runs(prev).contains(p) {
                    assert(counts[p.1] == prev[p.1]);
                }
            }
        }
        assert(scheduled_runs(prev).disjoint(col));
        vstd::set_lib::lemma_set_disjoint_lens(scheduled_runs(prev), col);
    }
}

} // verus!

verus! {

// ------------------------------------------------------------------------
// The summary after the benchmarks

/// How many of the commands given now (the reference among them) have no
/// result, given how many results there are and how many of them were
/// imported from earlier exports.
pub open spec fn unbenchmarked_spec(has_reference: bool, commands: nat, results: nat, imported: nat) -> nat {
    let total = commands + if has_reference { 1nat } else { 0nat };
    let completed = if results >= imported { (results - imported) as nat } else { 0nat };
    if total >= completed { (total - completed) as nat } else { 0nat }
}

/// How many of the commands given now have no result (after a Ctrl-C).
pub fn unbenchmarked_count(has_reference: bool, commands: usize, results: usize, imported: usize) -> (n: usize)
    requires
        commands < usize::MAX,
    ensures
        n == unbenchmarked_spec(has_reference, commands as nat, results as nat, imported as nat),
{
    let total = commands + if has_reference { 1 } else { 0 };
    let completed = results.saturating_sub(imported);
    total.saturating_sub(completed)
}

/// What the heading of the summary adds after a Ctrl-C: how many commands
/// were not benchmarked, where there are any.
pub open spec fn interruption_note_spec(interrupted: bool, unbenchmarked: nat) -> Seq<char> {
    if !interrupted {
        Seq::empty()
    } else if unbenchmarked > 0 {
        " (interrupted — "@ + crate::text::decimal(unbenchmarked) + (if unbenchmarked == 1 {
            " command"@
        } else {
            " commands"@
        }) + " not benchmarked)"@
    } else {
        " (interrupted)"@
    }
}

/// The note after the heading of the summary.
pub fn interruption_note(interrupted: bool, unbenchmarked: usize) -> (s: String)
    ensures
        s@ == interruption_note_spec(interrupted, unbenchmarked as nat),
{
    let mut s = String::new();
    if interrupted {
        if unbenchmarked > 0 {
            crate::text::push_str(&mut s, " (interrupted — ");
            crate::text::push_decimal(&mut s, unbenchmarked as u64);
            if unbenchmarked == 1 {
                crate::text::push_str(&mut s, " command");
            } else {
                crate::text::push_str(&mut s, " commands");
            }
            crate::text::push_str(&mut s, " not benchmarked)");
        } else {
            crate::text::push_str(&mut s, " (interrupted)");
        }
    }
    s
}

/// The title of the summary of the results sorted by time.
pub fn summary_title(interrupted: bool, unbenchmarked: usize) -> (s: String)
    ensures
        s@ == "Summary"@ + interruption_note_spec(interrupted, unbenchmarked as nat),
{
    let mut s = String::new();
    crate::text::push_str(&mut s, "Summary");
    let note = interruption_note(interrupted, unbenchmarked);
    crate::text::push_str(&mut s, note.as_str());
    s
}

/// The results that the summary compares: all of them, or (with
/// `--filter-failed`) those without a failed run, by index.
pub open spec fn compared_spec(filter_failed: bool, exit_codes: Seq<Vec<Option<i32>>>) -> Seq<usize>
    decreases exit_codes.len(),
{
    if exit_codes.len() == 0 {
        Seq::empty()
    } else {
        let prev = compared_spec(filter_failed, exit_codes.drop_last());
        let codes = exit_codes.last()@;
        if filter_failed && exists|i: int| 0 <= i < codes.len() && crate::benchmark::benchmark_result::is_failure(
            #[trigger] codes[i],
        ) {
            prev
        } else {
            prev.push((exit_codes.len() - 1) as usize)
        }
    }
}

/// The indices of the results that the summary compares, given the exit
/// codes of each result's runs.
pub fn compared_results(filter_failed: bool, exit_codes: &[Vec<Option<i32>>]) -> (r: Vec<usize>)
    ensures
        r@ == compared_spec(filter_failed, exit_codes@),
{
    let mut r: Vec<usize> = Vec::new();
    assert(exit_codes@.take(0) =~= Seq::<Vec<Option<i32>>>::empty());
    for k in 0..exit_codes.len()
        invariant
            r@ == compared_spec(filter_failed, exit_codes@.take(k as int)),
    {
        proof {
            let t = exit_codes@.take(k + 1);
            assert(t.drop_last() =~= exit_codes@.take(k as int));
            assert(t.last() == exit_codes@[k as int]);
        }
        let failed = crate::benchmark::benchmark_result::has_failure(exit_codes[k].as_slice());
        if !(filter_failed && failed) {
            r.push(k);
        }
    }
    assert(exit_codes@.take(exit_codes@.len() as int) =~= exit_codes@);
    r
}

} // verus!

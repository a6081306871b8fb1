//! `--compare baseline.json`: which benchmark is compared with which result
//! of a baseline export, and the tables that show the comparison. Results
//! are matched by their displayed command name; the timings themselves are
//! compared by the caller.
use vstd::prelude::*;
use crate::text::views;

verus! {

/// How the current results match the results of a baseline, by command
/// name: the pairs (index among the current results, index among the
/// baseline results), the current commands without a baseline, and the
/// baseline commands that were not benchmarked now.
pub struct Comparison {
    pub pairs: Vec<(usize, usize)>,
    pub new: Vec<usize>,
    pub removed: Vec<usize>,
}

/// The last index of `x` in `names` (where a name occurs twice in the
/// baseline, its last result counts).
pub open spec fn last_index(names: Seq<Seq<char>>, x: Seq<char>) -> Option<nat>
    decreases names.len(),
{
    if names.len() == 0 {
        None
    } else if names.last() == x {
        Some((names.len() - 1) as nat)
    } else {
        last_index(names.drop_last(), x)
    }
}

/// The pairs of matched results, in the order of the current results.
pub open spec fn pairs_spec(base: Seq<Seq<char>>, cur: Seq<Seq<char>>) -> Seq<(usize, usize)>
    decreases cur.len(),
{
    if cur.len() == 0 {
        Seq::empty()
    } else {
        let prev = pairs_spec(base, cur.drop_last());
        match last_index(base, cur.last()) {
            Some(j) => prev.push(((cur.len() - 1) as usize, j as usize)),
            None => prev,
        }
    }
}

/// The current results without a baseline, in their order.
pub open spec fn new_spec(base: Seq<Seq<char>>, cur: Seq<Seq<char>>) -> Seq<usize>
    decreases cur.len(),
{
    if cur.len() == 0 {
        Seq::empty()
    } else {
        let prev = new_spec(base, cur.drop_last());
        match last_index(base, cur.last()) {
            Some(j) => prev,
            None => prev.push((cur.len() - 1) as usize),
        }
    }
}

/// The baseline results whose command was not benchmarked now, in their
/// order.
pub open spec fn removed_spec(base: Seq<Seq<char>>, cur: Seq<Seq<char>>) -> Seq<usize>
    decreases base.len(),
{
    if base.len() == 0 {
        Seq::empty()
    } else {
        let prev = removed_spec(base.drop_last(), cur);
        if cur.contains(base.last()) {
            prev
        } else {
            prev.push((base.len() - 1) as usize)
        }
    }
}

/// `last_index` finds the last occurrence, and finds none only where there
/// is none.
pub proof fn lemma_last_index(names: Seq<Seq<char>>, x: Seq<char>)
    ensures
        match last_index(names, x) {
            Some(j) => j < names.len() && names[j as int] == x
                && forall|m: int| j < m < names.len() ==> names[m] != x,
            None => !names.contains(x),
        },
    decreases names.len(),
{
    if names.len() > 0 && names.last() != x {
        lemma_last_index(names.drop_last(), x);
        if let Some(j) = last_index(names, x) {
            assert(names[j as int] == names.drop_last()[j as int]);
            assert forall|m: int| j < m < names.len() implies names[m] != x by {
                if m < names.len() - 1 {
                    assert(names.drop_last()[m] == names[m]);
                }
            }
        }
        if last_index(names, x) is None {
            assert forall|m: int| 0 <= m < names.len() implies names[m] != x by {
                if m < names.len() - 1 {
                    assert(names.drop_last()[m] == names[m]);
                }
            }
        }
    }
}

/// Matching by command name pairs every current result that has a
/// baseline with the last baseline result of the same name, lists every
/// other one as new, and keeps the order of the current results.
pub proof fn lemma_each_command_is_paired_or_new(base: Seq<Seq<char>>, cur: Seq<Seq<char>>)
    requires
        base.len() <= usize::MAX,
        cur.len() <= usize::MAX,
    ensures
        pairs_spec(base, cur).len() + new_spec(base, cur).len() == cur.len(),
        forall|k: int| 0 <= k < pairs_spec(base, cur).len() ==> {
            let (i, j) = #[trigger] pairs_spec(base, cur)[k];
            &&& i < cur.len()
            &&& j < base.len()
            &&& base[j as int] == cur[i as int]
            &&& forall|m: int| j < m < base.len() ==> base[m] != cur[i as int]
        },
        forall|k: int| 0 <= k < new_spec(base, cur).len() ==> {
            let i = #[trigger] new_spec(base, cur)[k];
            i < cur.len() && !base.contains(cur[i as int])
        },
        forall|a: int, b: int| 0 <= a < b < pairs_spec(base, cur).len()
            ==> pairs_spec(base, cur)[a].0 < pairs_spec(base, cur)[b].0,
        forall|a: int, b: int| 0 <= a < b < new_spec(base, cur).len()
            ==> new_spec(base, cur)[a] < new_spec(base, cur)[b],
    decreases cur.len(),
{
    if cur.len() > 0 {
        let c0 = cur.drop_last();
        lemma_each_command_is_paired_or_new(base, c0);
        lemma_last_index(base, cur.last());
        let p0 = pairs_spec(base, c0);
        let n0 = new_spec(base, c0);
        let last = (cur.len() - 1) as usize;
        assert forall|k: int| 0 <= k < p0.len() implies p0[k].0 < last by {
            assert(p0[k].0 < c0.len());
        }
        assert forall|k: int| 0 <= k < n0.len() implies n0[k] < last by {
            assert(n0[k] < c0.len());
        }
        assert forall|k: int| 0 <= k < p0.len() implies cur[p0[k].0 as int] == c0[p0[k].0 as int] by {
            assert(p0[k].0 < c0.len());
        }
        assert forall|k: int| 0 <= k < n0.len() implies cur[n0[k] as int] == c0[n0[k] as int] by {
            assert(n0[k] < c0.len());
        }
    }
}

/// A baseline result is listed as removed exactly where no current result
/// has its command name; the list keeps the baseline's order.
pub proof fn lemma_removed_are_not_benchmarked(base: Seq<Seq<char>>, cur: Seq<Seq<char>>)
    requires
        base.len() <= usize::MAX,
    ensures
        forall|j: int| 0 <= j < base.len() ==> (removed_spec(base, cur).contains(j as usize) <==> !cur.contains(
            base[j],
        )),
        forall|k: int| 0 <= k < removed_spec(base, cur).len() ==> #[trigger] removed_spec(base, cur)[k] < base.len(),
        forall|a: int, b: int| 0 <= a < b < removed_spec(base, cur).len()
            ==> removed_spec(base, cur)[a] < removed_spec(base, cur)[b],
    decreases base.len(),
{
    if base.len() > 0 {
        let b0 = base.drop_last();
        lemma_removed_are_not_benchmarked(b0, cur);
        let r0 = removed_spec(b0, cur);
        let r = removed_spec(base, cur);
        let last = (base.len() - 1) as usize;
        assert forall|k: int| 0 <= k < r0.len() implies r0[k] < last by {
            assert(r0[k] < b0.len());
        }
        assert forall|j: int| 0 <= j < base.len() implies (r.contains(j as usize) <==> !cur.contains(base[j])) by {
            if j < base.len() - 1 {
                assert(base[j] == b0[j]);
                if r.contains(j as usize) {
                    let k = choose|k: int| 0 <= k < r.len() && r[k] == j as usize;
                    if k == r0.len() {
                        assert(r[k] == last);
                    } else {
                        assert(r0[k] == j as usize);
                    }
                }
                if r0.contains(j as usize) {
                    let k = choose|k: int| 0 <= k < r0.len() && r0[k] == j as usize;
                    assert(r[k] == j as usize);
                }
            } else {
                if !cur.contains(base[j]) {
                    assert(r[r.len() - 1] == j as usize);
                }
                if r.contains(j as usize) {
                    let k = choose|k: int| 0 <= k < r.len() && r[k] == j as usize;
                    if k < r0.len() {
                        assert(r0[k] < last);
                    }
                }
            }
        }
    }
}

/// The last index of `x` in `names`.
fn find_last(names: &[String], x: &String) -> (r: Option<usize>)
    ensures
        r == (match last_index(views(names@), x@) {
            Some(j) => Some(j as usize),
            None => None::<usize>,
        }),
{
    let ghost nv = views(names@);
    let mut k: usize = names.len();
    assert(nv.take(nv.len() as int) =~= nv);
    while k > 0
        invariant
            k <= names@.len(),
            nv == views(names@),
            last_index(nv, x@) == last_index(nv.take(k as int), x@),
        decreases k,
    {
        proof {
            let t = nv.take(k as int);
            assert(t.drop_last() =~= nv.take(k - 1));
            assert(t.last() == names@[k - 1]@);
        }
        if names[k - 1] == *x {
            return Some(k - 1);
        }
        k -= 1;
    }
    None
}

/// Whether `x` is one of `names`.
fn occurs(names: &[String], x: &String) -> (r: bool)
    ensures
        r == views(names@).contains(x@),
{
    let ghost nv = views(names@);
    for k in 0..names.len()
        invariant
            nv == views(names@),
            forall|i: int| 0 <= i < k ==> nv[i] != x@,
    {
        if names[k] == *x {
            assert(nv[k as int] == x@);
            return true;
        }
    }
    false
}

/// Match the current results with those of a baseline by command name.
pub fn compare(baseline: &[String], current: &[String]) -> (c: Comparison)
    ensures
        c.pairs@ == pairs_spec(views(baseline@), views(current@)),
        c.new@ == new_spec(views(baseline@), views(current@)),
        c.removed@ == removed_spec(views(baseline@), views(current@)),
{
    let ghost bv = views(baseline@);
    let ghost cv = views(current@);
    let mut pairs: Vec<(usize, usize)> = Vec::new();
    let mut new: Vec<usize> = Vec::new();
    assert(cv.take(0) =~= Seq::<Seq<char>>::empty());
    for i in 0..current.len()
        invariant
            bv == views(baseline@),
            cv == views(current@),
            pairs@ == pairs_spec(bv, cv.take(i as int)),
            new@ == new_spec(bv, cv.take(i as int)),
    {
        proof {
            let t = cv.take(i + 1);
            assert(t.drop_last() =~= cv.take(i as int));
            assert(t.last() == current@[i as int]@);
        }
        match find_last(baseline, &current[i]) {
            Some(j) => pairs.push((i, j)),
            None => new.push(i),
        }
    }
    assert(cv.take(current@.len() as int) =~= cv);
    let mut removed: Vec<usize> = Vec::new();
    assert(bv.take(0) =~= Seq::<Seq<char>>::empty());
    for j in 0..baseline.len()
        invariant
            bv == views(baseline@),
            cv == views(current@),
            removed@ == removed_spec(bv.take(j as int), cv),
    {
        proof {
            let t = bv.take(j + 1);
            assert(t.drop_last() =~= bv.take(j as int));
            assert(t.last() == baseline@[j as int]@);
        }
        if !occurs(current, &baseline[j]) {
            removed.push(j);
        }
    }
    assert(bv.take(baseline@.len() as int) =~= bv);
    Comparison { pairs, new, removed }
}

} // verus!

verus! {

// ------------------------------------------------------------------------
// The comparison tables

/// The verdict on a compared command: a regression (only where a threshold
/// was given), no significant difference, slower or faster.
pub open spec fn verdict_spec(regression: bool, significant: bool, slower: bool) -> Seq<char> {
    if regression {
        "REGRESSION"@
    } else if !significant {
        "~"@
    } else if slower {
        "slower"@
    } else {
        "faster"@
    }
}

/// The verdict says what was measured: a hit regression threshold is
/// "REGRESSION" whatever else holds; otherwise a change that is not
/// significant is "~" in either direction, and only a significant change is
/// called "slower" or "faster", by its direction. The four verdicts differ,
/// so the verdict tells the cases apart.
pub proof fn lemma_verdict_follows_the_measurement(regression: bool, significant: bool, slower: bool)
    ensures
        regression ==> verdict_spec(regression, significant, slower) == "REGRESSION"@,
        !regression && !significant ==> verdict_spec(regression, significant, slower) == "~"@,
        !regression && significant && slower ==> verdict_spec(regression, significant, slower) == "slower"@,
        !regression && significant && !slower ==> verdict_spec(regression, significant, slower) == "faster"@,
        !regression && !significant ==> verdict_spec(regression, significant, true) == verdict_spec(
            regression,
            significant,
            false,
        ),
        "REGRESSION"@ != "~"@ && "REGRESSION"@ != "slower"@ && "REGRESSION"@ != "faster"@,
        "~"@ != "slower"@ && "~"@ != "faster"@ && "slower"@ != "faster"@,
{
    reveal_strlit("REGRESSION");
    reveal_strlit("~");
    reveal_strlit("slower");
    reveal_strlit("faster");
    assert("REGRESSION"@.len() != "~"@.len());
    assert("REGRESSION"@.len() != "slower"@.len());
    assert("REGRESSION"@.len() != "faster"@.len());
    assert("~"@.len() != "slower"@.len());
    assert("~"@.len() != "faster"@.len());
    assert("slower"@[0] != "faster"@[0]);
}

/// "REGRESSION", "slower", "faster" or "~" (no significant difference).
pub fn verdict(regression: bool, significant: bool, slower: bool) -> (r: &'static str)
    ensures
        r@ == verdict_spec(regression, significant, slower),
{
    if regression {
        "REGRESSION"
    } else if !significant {
        "~"
    } else if slower {
        "slower"
    } else {
        "faster"
    }
}

/// The arrow after a significant change: up where it got slower, down
/// where it got faster, nothing where the change is not significant.
pub open spec fn change_arrow_spec(significant: bool, slower: bool) -> Seq<char> {
    if !significant {
        ""@
    } else if slower {
        " ▲"@
    } else {
        " ▼"@
    }
}

/// The arrow after the change of a compared command.
pub fn change_arrow(significant: bool, slower: bool) -> (r: &'static str)
    ensures
        r@ == change_arrow_spec(significant, slower),
{
    if !significant {
        ""
    } else if slower {
        " ▲"
    } else {
        " ▼"
    }
}

/// A string holding `t`.
fn owned(t: &str) -> (s: String)
    ensures
        s@ == t@,
{
    let mut s = String::new();
    crate::text::push_str(&mut s, t);
    s
}

/// The row of a command that was only benchmarked now (`new`) or only in
/// the baseline (`removed`): its escaped name and the label.
pub fn listing_row(name: &str, label: &str) -> (row: [String; 6])
    ensures
        views(row@) == seq![crate::util::sanitize::escaped(name@), Seq::empty(), Seq::empty(), Seq::empty(), Seq::empty(), label@],
{
    let e = crate::util::sanitize::escape_control_chars(name);
    let n = match e {
        std::borrow::Cow::Borrowed(b) => owned(b),
        std::borrow::Cow::Owned(o) => o,
    };
    let l = owned(label);
    let row = [n, String::new(), String::new(), String::new(), String::new(), l];
    assert(row@.len() == 6);
    assert(row@[0]@ == crate::util::sanitize::escaped(name@));
    assert(row@[5]@ == label@);
    assert(views(row@) =~= seq![crate::util::sanitize::escaped(name@), Seq::empty(), Seq::empty(), Seq::empty(), Seq::empty(), label@]);
    row
}

} // verus!

verus! {

/// The titles of the comparison table.
pub open spec fn header_cells() -> Seq<Seq<char>> {
    seq!["Command"@, "Baseline"@, "Current"@, "Change"@, "Significance"@, Seq::empty()]
}

/// The width of column `c` (in characters): that of its widest cell, the
/// title included.
pub open spec fn column_width(rows: Seq<[String; 6]>, c: int) -> nat
    decreases rows.len(),
{
    if rows.len() == 0 {
        header_cells()[c].len()
    } else {
        let w = column_width(rows.drop_last(), c);
        let l = rows.last()@[c]@.len();
        if w >= l {
            w
        } else {
            l
        }
    }
}

/// The widths of the six columns.
pub open spec fn column_widths_spec(rows: Seq<[String; 6]>) -> Seq<usize> {
    Seq::new(6, |c: int| column_width(rows, c) as usize)
}

/// `n` spaces.
pub open spec fn spaces(n: nat) -> Seq<char> {
    Seq::new(n, |_i: int| ' ')
}

/// Cell `c` of a line, padded to the width `w`: the numbers (columns 1 to
/// 3) aligned to the right, the others to the left, two spaces before each.
pub open spec fn padded_cell(c: int, cell: Seq<char>, w: usize) -> Seq<char> {
    let pad = spaces((w - cell.len()) as nat);
    if 1 <= c <= 3 {
        "  "@ + pad + cell
    } else {
        "  "@ + cell + pad
    }
}

/// The first `n` cells of a line, padded.
pub open spec fn padded_cells(cells: Seq<Seq<char>>, ws: Seq<usize>, n: int) -> Seq<char>
    decreases n,
{
    if n <= 0 {
        Seq::empty()
    } else {
        padded_cells(cells, ws, n - 1) + padded_cell(n - 1, cells[n - 1], ws[n - 1])
    }
}

/// A line of the table: its padded cells without trailing white space.
pub open spec fn table_line(cells: Seq<Seq<char>>, ws: Seq<usize>) -> Seq<char> {
    crate::text::trim_end(padded_cells(cells, ws, 6))
}

/// The lines of the first `n` rows, each ended by a newline.
pub open spec fn table_lines(rows: Seq<[String; 6]>, ws: Seq<usize>, n: int) -> Seq<char>
    decreases n,
{
    if n <= 0 {
        Seq::empty()
    } else {
        table_lines(rows, ws, n - 1) + table_line(views(rows[n - 1]@), ws) + "\n"@
    }
}

/// The comparison table for the terminal: a title naming the baseline, the
/// column titles and one line per row.
pub open spec fn terminal_table_text(rows: Seq<[String; 6]>, baseline_path: Seq<char>) -> Seq<char> {
    let ws = column_widths_spec(rows);
    "Comparison with "@ + crate::util::sanitize::escaped(baseline_path) + "\n"@ + table_line(header_cells(), ws)
        + "\n"@ + table_lines(rows, ws, rows.len() as int)
}

fn header_row() -> (h: [String; 6])
    ensures
        views(h@) == header_cells(),
{
    let h = [owned("Command"), owned("Baseline"), owned("Current"), owned("Change"), owned("Significance"), String::new()];
    assert(views(h@) =~= header_cells());
    h
}

fn char_count(s: &String) -> (n: usize)
    ensures
        n == s@.len(),
{
    crate::text::chars_of(s.as_str()).len()
}

/// The widths of the columns.
fn column_widths(rows: &[[String; 6]]) -> (w: Vec<usize>)
    ensures
        w@.len() == 6,
        forall|c: int| 0 <= c < 6 ==> w@[c] as nat == column_width(rows@, c),
{
    let h = header_row();
    let mut w: Vec<usize> = Vec::new();
    for c in 0..6usize
        invariant
            views(h@) == header_cells(),
            w@.len() == c,
            forall|k: int| 0 <= k < c ==> w@[k] as nat == header_cells()[k].len(),
    {
        assert(h@[c as int]@ == header_cells()[c as int]);
        w.push(char_count(&h[c]));
    }
    assert(rows@.take(0) =~= Seq::<[String; 6]>::empty());
    for r in 0..rows.len()
        invariant
            w@.len() == 6,
            forall|k: int| 0 <= k < 6 ==> w@[k] as nat == column_width(rows@.take(r as int), k),
    {
        let ghost prev = rows@.take(r as int);
        let ghost next = rows@.take(r + 1);
        assert(next.drop_last() =~= prev);
        assert(next.last() == rows@[r as int]);
        for c in 0..6usize
            invariant
                w@.len() == 6,
                r < rows@.len(),
                prev == rows@.take(r as int),
                next == rows@.take(r + 1),
                next.drop_last() == prev,
                next.last() == rows@[r as int],
                forall|k: int| 0 <= k < c ==> w@[k] as nat == column_width(next, k),
                forall|k: int| c <= k < 6 ==> w@[k] as nat == column_width(prev, k),
        {
            let l = char_count(&rows[r][c]);
            proof {
                assert(next.len() > 0);
                assert(next.last()@[c as int]@.len() == l);
                assert(column_width(next, c as int) == (if column_width(prev, c as int) >= l {
                    column_width(prev, c as int)
                } else {
                    l as nat
                }));
            }
            if l > w[c] {
                w.set(c, l);
            }
        }
    }
    assert(rows@.take(rows@.len() as int) =~= rows@);
    w
}

fn push_spaces(out: &mut String, n: usize)
    ensures
        final(out)@ == old(out)@ + spaces(n as nat),
{
    let ghost start = out@;
    for i in 0..n
        invariant
            out@ == start + spaces(i as nat),
    {
        crate::text::push_char(out, ' ');
        assert(spaces((i + 1) as nat) =~= spaces(i as nat).push(' '));
    }
}

/// Appends a line of the table and a newline.
fn push_line(out: &mut String, cells: &[String; 6], w: &Vec<usize>)
    requires
        w@.len() == 6,
        forall|c: int| 0 <= c < 6 ==> cells@[c]@.len() <= w@[c],
    ensures
        final(out)@ == old(out)@ + table_line(views(cells@), w@) + "\n"@,
{
    let ghost cv = views(cells@);
    let mut line = String::new();
    for c in 0..6usize
        invariant
            w@.len() == 6,
            cv == views(cells@),
            forall|k: int| 0 <= k < 6 ==> cells@[k]@.len() <= w@[k],
            line@ == padded_cells(cv, w@, c as int),
    {
        let l = char_count(&cells[c]);
        let ghost before = line@;
        assert(cv[c as int] == cells@[c as int]@);
        crate::text::push_str(&mut line, "  ");
        if 1 <= c && c <= 3 {
            push_spaces(&mut line, w[c] - l);
            crate::text::push_str(&mut line, cells[c].as_str());
        } else {
            crate::text::push_str(&mut line, cells[c].as_str());
            push_spaces(&mut line, w[c] - l);
        }
        assert(line@ =~= before + padded_cell(c as int, cv[c as int], w@[c as int]));
    }
    let cs = crate::text::chars_of(line.as_str());
    let t = crate::text::trim_end_chars(cs.as_slice());
    crate::text::push_chars(out, t.as_slice(), 0, t.len());
    assert(t@.subrange(0, t@.len() as int) =~= t@);
    crate::text::push_str(out, "\n");
}

/// The comparison table for the terminal, from the rows of the compared
/// commands (name, baseline, current, change, significance, verdict).
pub fn terminal_table(rows: &[[String; 6]], baseline_path: &str) -> (t: String)
    ensures
        t@ == terminal_table_text(rows@, baseline_path@),
{
    let w = column_widths(rows);
    let ghost ws = column_widths_spec(rows@);
    assert(w@ =~= ws);
    let mut out = String::new();
    crate::text::push_str(&mut out, "Comparison with ");
    let e = crate::util::sanitize::escape_control_chars(baseline_path);
    let es: &str = match &e {
        std::borrow::Cow::Borrowed(b) => b,
        std::borrow::Cow::Owned(o) => o.as_str(),
    };
    crate::text::push_str(&mut out, es);
    crate::text::push_str(&mut out, "\n");
    let h = header_row();
    proof {
        assert forall|c: int| 0 <= c < 6 implies h@[c]@.len() <= w@[c] by {
            assert(h@[c]@ == header_cells()[c]);
            lemma_column_width_bounds(rows@, c);
        }
    }
    push_line(&mut out, &h, &w);
    let ghost start = out@;
    for r in 0..rows.len()
        invariant
            w@ == ws,
            ws == column_widths_spec(rows@),
            w@.len() == 6,
            forall|c: int| 0 <= c < 6 ==> w@[c] as nat == column_width(rows@, c),
            out@ == start + table_lines(rows@, ws, r as int),
    {
        proof {
            assert forall|c: int| 0 <= c < 6 implies rows@[r as int]@[c]@.len() <= w@[c] by {
                lemma_column_width_bounds(rows@, c);
            }
        }
        push_line(&mut out, &rows[r], &w);
    }
    out
}

/// Every cell of a column, its title included, fits the column's width.
proof fn lemma_column_width_bounds(rows: Seq<[String; 6]>, c: int)
    ensures
        header_cells()[c].len() <= column_width(rows, c),
        forall|r: int| 0 <= r < rows.len() ==> (#[trigger] rows[r])@[c]@.len() <= column_width(rows, c),
    decreases rows.len(),
{
    if rows.len() > 0 {
        lemma_column_width_bounds(rows.drop_last(), c);
        assert forall|r: int| 0 <= r < rows.len() implies (#[trigger] rows[r])@[c]@.len() <= column_width(rows, c) by {
            if r < rows.len() - 1 {
                assert(rows.drop_last()[r] == rows[r]);
            }
        }
    }
}

} // verus!

verus! {

/// A cell of the Markdown table with its `|` escaped.
pub open spec fn md_escape(cell: Seq<char>) -> Seq<char> {
    crate::export::markup::replace_char(cell, '|', "\\|"@)
}

/// A cell of the Markdown table after the name: a regression in bold, any
/// other text escaped.
pub open spec fn md_cell(cell: Seq<char>) -> Seq<char> {
    if cell == "REGRESSION"@ {
        "**REGRESSION**"@
    } else {
        md_escape(cell)
    }
}

/// Cells 1 to `n - 1` of a Markdown line.
pub open spec fn md_rest(cells: Seq<Seq<char>>, n: int) -> Seq<char>
    decreases n,
{
    if n <= 1 {
        Seq::empty()
    } else {
        md_rest(cells, n - 1) + " "@ + md_cell(cells[n - 1]) + " |"@
    }
}

/// A line of the Markdown table: the command as code, then the other cells.
pub open spec fn md_line(cells: Seq<Seq<char>>) -> Seq<char> {
    "| `"@ + md_escape(cells[0]) + "` |"@ + md_rest(cells, 6) + "\n"@
}

/// The Markdown lines of the first `n` rows.
pub open spec fn md_lines(rows: Seq<[String; 6]>, n: int) -> Seq<char>
    decreases n,
{
    if n <= 0 {
        Seq::empty()
    } else {
        md_lines(rows, n - 1) + md_line(views(rows[n - 1]@))
    }
}

/// The comparison as a Markdown table.
pub open spec fn markdown_table_text(rows: Seq<[String; 6]>) -> Seq<char> {
    "| Command | Baseline | Current | Change | Significance | |\n"@ + "|:---|---:|---:|---:|:---|:---|\n"@
        + md_lines(rows, rows.len() as int)
}

/// The comparison as a Markdown table (for PR comments / CI summaries),
/// from the rows of the compared commands.
pub fn markdown_table(rows: &[[String; 6]]) -> (t: String)
    ensures
        t@ == markdown_table_text(rows@),
{
    let mut out = String::new();
    crate::text::push_str(&mut out, "| Command | Baseline | Current | Change | Significance | |\n");
    crate::text::push_str(&mut out, "|:---|---:|---:|---:|:---|:---|\n");
    let ghost start = out@;
    let regression = owned("REGRESSION");
    for r in 0..rows.len()
        invariant
            regression@ == "REGRESSION"@,
            out@ == start + md_lines(rows@, r as int),
    {
        let ghost before = out@;
        let ghost cv = views(rows@[r as int]@);
        let row = &rows[r];
        crate::text::push_str(&mut out, "| `");
        crate::export::markup::push_replaced(&mut out, row[0].as_str(), '|', "\\|");
        crate::text::push_str(&mut out, "` |");
        assert(cv[0] == row@[0]@);
        let ghost mid = out@;
        for c in 1..6usize
            invariant
                regression@ == "REGRESSION"@,
                cv == views(row@),
                out@ == mid + md_rest(cv, c as int),
        {
            let ghost b = out@;
            assert(cv[c as int] == row@[c as int]@);
            crate::text::push_str(&mut out, " ");
            if row[c] == regression {
                crate::text::push_str(&mut out, "**REGRESSION**");
            } else {
                crate::export::markup::push_replaced(&mut out, row[c].as_str(), '|', "\\|");
            }
            crate::text::push_str(&mut out, " |");
            assert(out@ =~= b + " "@ + md_cell(cv[c as int]) + " |"@);
        }
        crate::text::push_str(&mut out, "\n");
        assert(out@ =~= before + md_line(cv));
    }
    out
}

} // verus!

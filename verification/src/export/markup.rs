//! What the markup formats (Markdown, AsciiDoc, Org) have in common.
use vstd::prelude::*;

verus! {

/// The alignment of a table column.
#[derive(Debug, Clone, Copy, PartialEq, Eq, Structural)]
pub enum Alignment {
    Left,
    Right,
}

/// `s` with every `c` replaced by `with`.
pub open spec fn replace_char(s: Seq<char>, c: char, with: Seq<char>) -> Seq<char>
    decreases s.len(),
{
    if s.len() == 0 {
        Seq::empty()
    } else {
        replace_char(s.drop_last(), c, with) + (if s.last() == c { with } else { seq![s.last()] })
    }
}

/// The texts of `cells` joined by `sep`.
pub open spec fn join_strs(cells: Seq<&str>, sep: Seq<char>) -> Seq<char>
    decreases cells.len(),
{
    if cells.len() == 0 {
        Seq::empty()
    } else if cells.len() == 1 {
        cells[0]@
    } else {
        join_strs(cells.drop_last(), sep) + sep + cells.last()@
    }
}

/// Appends `s` with every `c` replaced by `with`.
pub fn push_replaced(out: &mut String, s: &str, c: char, with: &str)
    ensures
        final(out)@ == old(out)@ + replace_char(s@, c, with@),
{
    let cs = crate::text::chars_of(s);
    let ghost start = out@;
    for i in 0..cs.len()
        invariant
            cs@ == s@,
            out@ == start + replace_char(s@.take(i as int), c, with@),
    {
        let ghost before = out@;
        if cs[i] == c {
            crate::text::push_str(out, with);
        } else {
            crate::text::push_char(out, cs[i]);
        }
        proof {
            let t = s@.take(i + 1);
            assert(t.drop_last() =~= s@.take(i as int));
            assert(t.last() == cs@[i as int]);
        }
        assert(out@ =~= start + replace_char(s@.take(i + 1), c, with@));
    }
    assert(s@.take(cs@.len() as int) =~= s@);
}

/// Appends the texts of `cells` joined by `sep`.
pub fn push_joined(out: &mut String, cells: &[&str], sep: &str)
    ensures
        final(out)@ == old(out)@ + join_strs(cells@, sep@),
{
    let ghost start = out@;
    assert(cells@.take(0) =~= Seq::<&str>::empty());
    for i in 0..cells.len()
        invariant
            out@ == start + join_strs(cells@.take(i as int), sep@),
    {
        proof {
            let t = cells@.take(i + 1);
            assert(t.drop_last() =~= cells@.take(i as int));
        }
        if i > 0 {
            crate::text::push_str(out, sep);
        }
        crate::text::push_str(out, cells[i]);
        assert(out@ =~= start + join_strs(cells@.take(i + 1), sep@));
    }
    assert(cells@.take(cells@.len() as int) =~= cells@);
}

/// `c` does not occur in `s`.
pub open spec fn free_of(s: Seq<char>, c: char) -> bool {
    forall|i: int| 0 <= i < s.len() ==> s[i] != c
}

/// Replacing `c` by a text without `c` (and without `d`, where `s` had
/// none) leaves no `c` (and no `d`).
pub proof fn lemma_replace_free(s: Seq<char>, c: char, with: Seq<char>, d: char)
    requires
        free_of(with, c),
    ensures
        free_of(replace_char(s, c, with), c),
        free_of(s, d) && free_of(with, d) ==> free_of(replace_char(s, c, with), d),
    decreases s.len(),
{
    if s.len() > 0 {
        lemma_replace_free(s.drop_last(), c, with, d);
        let r = replace_char(s.drop_last(), c, with);
        let tail = if s.last() == c { with } else { seq![s.last()] };
        assert forall|i: int| 0 <= i < (r + tail).len() implies (r + tail)[i] != c by {
            if i >= r.len() {
                assert((r + tail)[i] == tail[i - r.len()]);
            }
        }
        if free_of(s, d) && free_of(with, d) {
            assert(free_of(s.drop_last(), d));
            assert forall|i: int| 0 <= i < (r + tail).len() implies (r + tail)[i] != d by {
                if i >= r.len() {
                    assert((r + tail)[i] == tail[i - r.len()]);
                }
            }
        }
    }
}

} // verus!

verus! {

// ------------------------------------------------------------------------
// The results table

/// The cells of one row of the results table: the command as given, and
/// the numbers already formatted (mean with σ, min, max, relative speed).
pub struct ResultRow {
    pub command: String,
    pub mean: String,
    pub min: String,
    pub max: String,
    pub relative: String,
}

/// The column alignments of the results table.
pub open spec fn results_alignments() -> Seq<Alignment> {
    seq![Alignment::Left, Alignment::Right, Alignment::Right, Alignment::Right, Alignment::Right]
}

/// The column titles of the results table, for the unit named `unit`.
pub open spec fn results_titles(unit: Seq<char>) -> Seq<Seq<char>> {
    seq!["Command"@, "Mean"@ + " ["@ + unit + "]"@, "Min"@ + " ["@ + unit + "]"@, "Max"@ + " ["@ + unit + "]"@, "Relative"@]
}

/// The column alignments of the results table.
pub fn results_alignments_exec() -> (a: [Alignment; 5])
    ensures
        a@ == results_alignments(),
{
    let a = [Alignment::Left, Alignment::Right, Alignment::Right, Alignment::Right, Alignment::Right];
    assert(a@ =~= results_alignments());
    a
}

/// The title `NAME [UNIT]` of a column of times.
pub fn column_title(name: &str, unit: &str) -> (t: String)
    ensures
        t@ == name@ + " ["@ + unit@ + "]"@,
{
    let mut t = String::new();
    crate::text::push_str(&mut t, name);
    crate::text::push_str(&mut t, " [");
    crate::text::push_str(&mut t, unit);
    crate::text::push_str(&mut t, "]");
    t
}

/// Joining four texts.
pub proof fn lemma_join4(cells: Seq<&str>, sep: Seq<char>)
    requires
        cells.len() == 4,
    ensures
        join_strs(cells, sep) == cells[0]@ + sep + cells[1]@ + sep + cells[2]@ + sep + cells[3]@,
{
    let c3 = cells.drop_last();
    let c2 = c3.drop_last();
    let c1 = c2.drop_last();
    assert(join_strs(c1, sep) == cells[0]@);
    assert(join_strs(c2, sep) == cells[0]@ + sep + cells[1]@);
    assert(join_strs(c3, sep) == cells[0]@ + sep + cells[1]@ + sep + cells[2]@);
}

/// Joining five texts.
pub proof fn lemma_join5(cells: Seq<&str>, sep: Seq<char>)
    requires
        cells.len() == 5,
    ensures
        join_strs(cells, sep) == cells[0]@ + sep + cells[1]@ + sep + cells[2]@ + sep + cells[3]@ + sep + cells[4]@,
{
    lemma_join4(cells.drop_last(), sep);
    assert(cells.drop_last()[3] == cells[3]);
}

} // verus!

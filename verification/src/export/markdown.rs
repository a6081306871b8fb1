//! Markdown tables.
use vstd::prelude::*;
use crate::export::markup::{Alignment, join_strs, push_joined, push_replaced, replace_char};
use crate::text::{chars_of, contains_seq, occurs_at, push_char, push_str};

verus! {

#[derive(Debug, Default)]
pub struct MarkdownExporter {}

/// The number of backticks at the end of `s`.
pub open spec fn trailing_ticks(s: Seq<char>) -> nat
    decreases s.len(),
{
    if s.len() > 0 && s.last() == '`' { 1 + trailing_ticks(s.drop_last()) } else { 0 }
}

/// The length of the longest run of backticks in `s`.
pub open spec fn max_run(s: Seq<char>) -> nat
    decreases s.len(),
{
    if s.len() == 0 {
        0
    } else {
        let m = max_run(s.drop_last());
        let t = trailing_ticks(s);
        if m >= t { m } else { t }
    }
}

/// `n` backticks.
pub open spec fn ticks(n: nat) -> Seq<char> {
    Seq::new(n, |_i: int| '`')
}

/// The `|` escaped, in a code span whose fence is one backtick longer than
/// the longest run of backticks in it (padded with spaces where the text
/// starts or ends with a backtick).
pub open spec fn markdown_command(cmd: Seq<char>) -> Seq<char> {
    let e = replace_char(cmd, '|', "\\|"@);
    let fence = ticks(max_run(e) + 1);
    if e.len() > 0 && (e[0] == '`' || e.last() == '`') {
        fence + seq![' '] + e + seq![' '] + fence
    } else {
        fence + e + fence
    }
}

/// The divider marks: `:---|` for left, `---:|` for right.
pub open spec fn divider_spec(aligns: Seq<Alignment>) -> Seq<char>
    decreases aligns.len(),
{
    if aligns.len() == 0 {
        Seq::empty()
    } else {
        divider_spec(aligns.drop_last()) + (if aligns.last() == Alignment::Left { ":---|"@ } else { "---:|"@ })
    }
}

proof fn lemma_max_run_prefix(s: Seq<char>, k: int)
    requires
        0 <= k <= s.len(),
    ensures
        max_run(s.take(k)) <= max_run(s),
    decreases s.len() - k,
{
    if k < s.len() {
        lemma_max_run_prefix(s, k + 1);
        assert(s.take(k + 1).drop_last() =~= s.take(k));
    } else {
        assert(s.take(k) =~= s);
    }
}

proof fn lemma_trailing_ticks(t: Seq<char>, k: nat)
    requires
        k <= t.len(),
        forall|j: int| t.len() - k <= j < t.len() ==> t[j] == '`',
    ensures
        trailing_ticks(t) >= k,
    decreases k,
{
    if k > 0 {
        lemma_trailing_ticks(t.drop_last(), (k - 1) as nat);
    }
}

/// A run of more backticks than `max_run(s)` does not occur in `s`.
pub proof fn lemma_fence_free(s: Seq<char>, k: nat)
    requires
        k > max_run(s),
    ensures
        !contains_seq(s, ticks(k)),
{
    if contains_seq(s, ticks(k)) {
        let i = choose|i: int| 0 <= i <= s.len() - ticks(k).len() && #[trigger] occurs_at(s, i, ticks(k));
        let t = s.take(i + k);
        assert forall|j: int| t.len() - k <= j < t.len() implies t[j] == '`' by {
            assert(s.subrange(i, i + k) == ticks(k));
            assert(s.subrange(i, i + k)[j - i] == s[j]);
        }
        lemma_trailing_ticks(t, k);
        lemma_max_run_prefix(s, i + k);
        if t.len() > 0 {
            assert(max_run(t) >= trailing_ticks(t));
        }
    }
}

impl MarkdownExporter {
    pub fn heading(&self, cmd: &str) -> (r: String)
        ensures
            r@ == "### "@ + markdown_command(cmd@) + "\n\n"@,
    {
        let mut r = String::new();
        push_str(&mut r, "### ");
        let c = self.command(cmd);
        push_str(&mut r, c.as_str());
        push_str(&mut r, "\n\n");
        r
    }

    pub fn table_row(&self, cells: &[&str]) -> (r: String)
        ensures
            r@ == "| "@ + join_strs(cells@, " | "@) + " |\n"@,
    {
        let mut r = String::new();
        push_str(&mut r, "| ");
        push_joined(&mut r, cells, " | ");
        push_str(&mut r, " |\n");
        r
    }

    pub fn table_divider(&self, cell_alignments: &[Alignment]) -> (r: String)
        ensures
            r@ == "|"@ + divider_spec(cell_alignments@) + "\n"@,
    {
        let mut r = String::new();
        push_str(&mut r, "|");
        let ghost start = r@;
        for i in 0..cell_alignments.len()
            invariant
                r@ == start + divider_spec(cell_alignments@.take(i as int)),
        {
            proof {
                let t = cell_alignments@.take(i + 1);
                assert(t.drop_last() =~= cell_alignments@.take(i as int));
                assert(t.last() == cell_alignments@[i as int]);
            }
            match cell_alignments[i] {
                Alignment::Left => push_str(&mut r, ":---|"),
                Alignment::Right => push_str(&mut r, "---:|"),
            }
            assert(r@ =~= start + divider_spec(cell_alignments@.take(i + 1)));
        }
        assert(cell_alignments@.take(cell_alignments@.len() as int) =~= cell_alignments@);
        push_str(&mut r, "\n");
        r
    }

    pub fn table_header(&self, _cell_alignments: &[Alignment]) -> (r: String)
        ensures
            r@ == Seq::<char>::empty(),
    {
        String::new()
    }

    pub fn table_footer(&self, _cell_alignments: &[Alignment]) -> (r: String)
        ensures
            r@ == Seq::<char>::empty(),
    {
        String::new()
    }

    /// Render a (possibly untrusted) command as an inline code span that its
    /// text cannot close: the fence is longer than any run of backticks in
    /// the (escaped) text.
    pub fn command(&self, cmd: &str) -> (r: String)
        ensures
            r@ == markdown_command(cmd@),
            !contains_seq(replace_char(cmd@, '|', "\\|"@), ticks(max_run(replace_char(cmd@, '|', "\\|"@)) + 1)),
    {
        let mut escaped = String::new();
        push_replaced(&mut escaped, cmd, '|', "\\|");
        let e = chars_of(escaped.as_str());
        let mut cur: usize = 0;
        let mut best: usize = 0;
        assert(e@.take(0) =~= Seq::<char>::empty());
        for i in 0..e.len()
            invariant
                cur as nat == trailing_ticks(e@.take(i as int)),
                best as nat == max_run(e@.take(i as int)),
                cur <= i,
                best <= i,
        {
            proof {
                let t = e@.take(i + 1);
                assert(t.drop_last() =~= e@.take(i as int));
                assert(t.last() == e@[i as int]);
            }
            if e[i] == '`' {
                cur = cur + 1;
            } else {
                cur = 0;
            }
            if cur > best {
                best = cur;
            }
        }
        assert(e@.take(e@.len() as int) =~= e@);
        let mut fence = String::new();
        push_char(&mut fence, '`');
        assert(fence@ =~= ticks(1));
        let mut k: usize = 0;
        while k < best
            invariant
                k <= best,
                fence@ == ticks((k + 1) as nat),
            decreases best - k,
        {
            push_char(&mut fence, '`');
            k += 1;
            assert(fence@ =~= ticks((k + 1) as nat));
        }
        let mut r = String::new();
        push_str(&mut r, fence.as_str());
        let pad = e.len() > 0 && (e[0] == '`' || e[e.len() - 1] == '`');
        if pad {
            push_char(&mut r, ' ');
        }
        push_str(&mut r, escaped.as_str());
        if pad {
            push_char(&mut r, ' ');
        }
        push_str(&mut r, fence.as_str());
        proof {
            lemma_fence_free(e@, (best + 1) as nat);
        }
        r
    }
}

} // verus!

verus! {

/// A row of five cells.
pub open spec fn md_row(c: Seq<Seq<char>>) -> Seq<char> {
    "| "@ + c[0] + " | "@ + c[1] + " | "@ + c[2] + " | "@ + c[3] + " | "@ + c[4] + " |\n"@
}

/// The rows of the results.
pub open spec fn md_result_rows(rows: Seq<crate::export::markup::ResultRow>) -> Seq<char>
    decreases rows.len(),
{
    if rows.len() == 0 {
        Seq::empty()
    } else {
        let r = rows.last();
        md_result_rows(rows.drop_last()) + md_row(seq![markdown_command(r.command@), r.mean@, r.min@, r.max@, r.relative@])
    }
}

/// The results table: the titles, the divider, a row per result.
pub open spec fn md_results_table(rows: Seq<crate::export::markup::ResultRow>, unit: crate::util::units::Unit) -> Seq<char> {
    md_row(crate::export::markup::results_titles(crate::util::units::unit_name(unit))) + "|"@
        + divider_spec(crate::export::markup::results_alignments()) + "\n"@ + md_result_rows(rows)
}

impl MarkdownExporter {
    fn row5(&self, a: &str, b: &str, c: &str, d: &str, e: &str) -> (r: String)
        ensures
            r@ == md_row(seq![a@, b@, c@, d@, e@]),
    {
        let cells = [a, b, c, d, e];
        let r = self.table_row(&cells);
        proof {
            crate::export::markup::lemma_join5(cells@, " | "@);
        }
        r
    }

    /// The table of the results: one row per result, with the times in
    /// `unit`.
    pub fn table_results(&self, rows: &[crate::export::markup::ResultRow], unit: crate::util::units::Unit) -> (t: String)
        ensures
            t@ == md_results_table(rows@, unit),
    {
        let u = unit.short_name();
        let mean_t = crate::export::markup::column_title("Mean", u.as_str());
        let min_t = crate::export::markup::column_title("Min", u.as_str());
        let max_t = crate::export::markup::column_title("Max", u.as_str());
        let aligns = crate::export::markup::results_alignments_exec();
        let mut table = self.table_header(aligns.as_slice());
        let head = self.row5("Command", mean_t.as_str(), min_t.as_str(), max_t.as_str(), "Relative");
        push_str(&mut table, head.as_str());
        let div = self.table_divider(aligns.as_slice());
        push_str(&mut table, div.as_str());
        let ghost start = table@;
        assert(rows@.take(0) =~= Seq::<crate::export::markup::ResultRow>::empty());
        for i in 0..rows.len()
            invariant
                table@ == start + md_result_rows(rows@.take(i as int)),
        {
            let row = &rows[i];
            let cmd = self.command(row.command.as_str());
            let line = self.row5(cmd.as_str(), row.mean.as_str(), row.min.as_str(), row.max.as_str(), row.relative.as_str());
            push_str(&mut table, line.as_str());
            proof {
                let t = rows@.take(i + 1);
                assert(t.drop_last() =~= rows@.take(i as int));
                assert(t.last() == rows@[i as int]);
            }
            assert(table@ =~= start + md_result_rows(rows@.take(i + 1)));
        }
        assert(rows@.take(rows@.len() as int) =~= rows@);
        let foot = self.table_footer(aligns.as_slice());
        push_str(&mut table, foot.as_str());
        assert(table@ =~= md_results_table(rows@, unit));
        table
    }
}

} // verus!

//! AsciiDoc tables.
use vstd::prelude::*;
use crate::export::markup::{Alignment, free_of, join_strs, lemma_replace_free, push_joined, push_replaced, replace_char};
use crate::text::{push_char, push_str};

verus! {

#[derive(Debug, Default)]
pub struct AsciidocExporter {}

/// The column markers `<` (left) and `>` (right), separated by commas.
pub open spec fn cols_spec(aligns: Seq<Alignment>) -> Seq<char>
    decreases aligns.len(),
{
    if aligns.len() == 0 {
        Seq::empty()
    } else {
        let mark = if aligns.last() == Alignment::Left { '<' } else { '>' };
        if aligns.len() == 1 {
            seq![mark]
        } else {
            cols_spec(aligns.drop_last()) + seq![',', mark]
        }
    }
}

/// A command in a monospace span: `` ` `` and `|` are written as the
/// character attributes `{backtick}` and `{vbar}`.
pub open spec fn asciidoc_command(cmd: Seq<char>) -> Seq<char> {
    seq!['`'] + replace_char(replace_char(cmd, '`', "{backtick}"@), '|', "{vbar}"@) + seq!['`']
}

impl AsciidocExporter {
    pub fn heading(&self, cmd: &str) -> (r: String)
        ensures
            r@ == "=== "@ + asciidoc_command(cmd@) + "\n"@,
    {
        let mut r = String::new();
        push_str(&mut r, "=== ");
        let c = self.command(cmd);
        push_str(&mut r, c.as_str());
        push_str(&mut r, "\n");
        r
    }

    pub fn table_header(&self, cell_alignments: &[Alignment]) -> (r: String)
        ensures
            r@ == "[cols=\""@ + cols_spec(cell_alignments@) + "\"]\n|==="@,
    {
        let mut r = String::new();
        push_str(&mut r, "[cols=\"");
        let ghost start = r@;
        for i in 0..cell_alignments.len()
            invariant
                r@ == start + cols_spec(cell_alignments@.take(i as int)),
        {
            proof {
                let t = cell_alignments@.take(i + 1);
                assert(t.drop_last() =~= cell_alignments@.take(i as int));
                assert(t.last() == cell_alignments@[i as int]);
            }
            if i > 0 {
                push_char(&mut r, ',');
            }
            match cell_alignments[i] {
                Alignment::Left => push_char(&mut r, '<'),
                Alignment::Right => push_char(&mut r, '>'),
            }
            assert(r@ =~= start + cols_spec(cell_alignments@.take(i + 1)));
        }
        assert(cell_alignments@.take(cell_alignments@.len() as int) =~= cell_alignments@);
        push_str(&mut r, "\"]\n|===");
        r
    }

    pub fn table_footer(&self, _cell_alignments: &[Alignment]) -> (r: String)
        ensures
            r@ == "|===\n"@,
    {
        let mut r = String::new();
        push_str(&mut r, "|===\n");
        r
    }

    pub fn table_row(&self, cells: &[&str]) -> (r: String)
        ensures
            r@ == "\n| "@ + join_strs(cells@, " \n| "@) + " \n"@,
    {
        let mut r = String::new();
        push_str(&mut r, "\n| ");
        push_joined(&mut r, cells, " \n| ");
        push_str(&mut r, " \n");
        r
    }

    pub fn table_divider(&self, _cell_alignments: &[Alignment]) -> (r: String)
        ensures
            r@ == Seq::<char>::empty(),
    {
        String::new()
    }

    /// Render a (possibly untrusted) command as a monospace table cell: the
    /// text between the backticks holds no backtick and no `|`, so it can
    /// neither close the span nor start a new cell.
    pub fn command(&self, cmd: &str) -> (r: String)
        ensures
            r@ == asciidoc_command(cmd@),
            r@.len() >= 2 && r@[0] == '`' && r@.last() == '`',
            free_of(r@.subrange(1, r@.len() - 1), '`'),
            free_of(r@.subrange(1, r@.len() - 1), '|'),
    {
        let mut once = String::new();
        push_replaced(&mut once, cmd, '`', "{backtick}");
        let mut r = String::new();
        push_char(&mut r, '`');
        push_replaced(&mut r, once.as_str(), '|', "{vbar}");
        push_char(&mut r, '`');
        proof {
            reveal_strlit("{backtick}");
            reveal_strlit("{vbar}");
            let w1 = "{backtick}"@;
            let w2 = "{vbar}"@;
            assert(free_of(w1, '`'));
            assert(free_of(w2, '|'));
            assert(free_of(w2, '`'));
            lemma_replace_free(cmd@, '`', w1, '`');
            let e1 = replace_char(cmd@, '`', w1);
            lemma_replace_free(e1, '|', w2, '`');
            let e2 = replace_char(e1, '|', w2);
            assert(r@.subrange(1, r@.len() - 1) =~= e2);
        }
        r
    }
}

} // verus!

verus! {

/// A row of five cells.
pub open spec fn adoc_row(c: Seq<Seq<char>>) -> Seq<char> {
    "\n| "@ + c[0] + " \n| "@ + c[1] + " \n| "@ + c[2] + " \n| "@ + c[3] + " \n| "@ + c[4] + " \n"@
}

/// The rows of the results.
pub open spec fn adoc_result_rows(rows: Seq<crate::export::markup::ResultRow>) -> Seq<char>
    decreases rows.len(),
{
    if rows.len() == 0 {
        Seq::empty()
    } else {
        let r = rows.last();
        adoc_result_rows(rows.drop_last()) + adoc_row(seq![asciidoc_command(r.command@), r.mean@, r.min@, r.max@, r.relative@])
    }
}

/// The results table: the column format, the titles, a row per result and
/// the closing delimiter.
pub open spec fn adoc_results_table(rows: Seq<crate::export::markup::ResultRow>, unit: crate::util::units::Unit) -> Seq<char> {
    "[cols=\""@ + cols_spec(crate::export::markup::results_alignments()) + "\"]\n|==="@
        + adoc_row(crate::export::markup::results_titles(crate::util::units::unit_name(unit)))
        + adoc_result_rows(rows) + "|===\n"@
}

impl AsciidocExporter {
    fn row5(&self, a: &str, b: &str, c: &str, d: &str, e: &str) -> (r: String)
        ensures
            r@ == adoc_row(seq![a@, b@, c@, d@, e@]),
    {
        let cells = [a, b, c, d, e];
        let r = self.table_row(&cells);
        proof {
            crate::export::markup::lemma_join5(cells@, " \n| "@);
        }
        r
    }

    /// The table of the results: one row per result, with the times in
    /// `unit`.
    pub fn table_results(&self, rows: &[crate::export::markup::ResultRow], unit: crate::util::units::Unit) -> (t: String)
        ensures
            t@ == adoc_results_table(rows@, unit),
    {
        let u = unit.short_name();
        let mean_t = crate::export::markup::column_title("Mean", u.as_str());
        let min_t = crate::export::markup::column_title("Min", u.as_str());
        let max_t = crate::export::markup::column_title("Max", u.as_str());
        let aligns = crate::export::markup::results_alignments_exec();
        let mut table = self.table_header(aligns.as_slice());
        let head = self.row5("Command", mean_t.as_str(), min_t.as_str(), max_t.as_str(), "Relative");
        push_str(&mut table, head.as_str());
        let div = self.table_divider(aligns.as_slice());
        push_str(&mut table, div.as_str());
        let ghost start = table@;
        assert(rows@.take(0) =~= Seq::<crate::export::markup::ResultRow>::empty());
        for i in 0..rows.len()
            invariant
                table@ == start + adoc_result_rows(rows@.take(i as int)),
        {
            let row = &rows[i];
            let cmd = self.command(row.command.as_str());
            let line = self.row5(cmd.as_str(), row.mean.as_str(), row.min.as_str(), row.max.as_str(), row.relative.as_str());
            push_str(&mut table, line.as_str());
            proof {
                let t = rows@.take(i + 1);
                assert(t.drop_last() =~= rows@.take(i as int));
                assert(t.last() == rows@[i as int]);
            }
            assert(table@ =~= start + adoc_result_rows(rows@.take(i + 1)));
        }
        assert(rows@.take(rows@.len() as int) =~= rows@);
        let foot = self.table_footer(aligns.as_slice());
        push_str(&mut table, foot.as_str());
        assert(table@ =~= adoc_results_table(rows@, unit));
        table
    }
}

} // verus!

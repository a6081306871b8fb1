//! Emacs org-mode tables.
use vstd::prelude::*;
use crate::export::markup::{Alignment, free_of, join_strs, lemma_replace_free, push_joined, push_replaced, replace_char};
use crate::text::{chars_of, is_ws, is_ws_exec, push_char, push_str};

verus! {

#[derive(Debug, Default)]
pub struct OrgmodeExporter {}

/// `n` times `--+`.
pub open spec fn dashes(n: nat) -> Seq<char>
    decreases n,
{
    if n == 0 { Seq::empty() } else { dashes((n - 1) as nat) + "--+"@ }
}

/// Whether a command can be shown as `=verbatim=`: not empty, without `=`
/// or `|`, and without white space at either end.
pub open spec fn verbatim_safe(cmd: Seq<char>) -> bool {
    &&& cmd.len() > 0
    &&& free_of(cmd, '=')
    &&& free_of(cmd, '|')
    &&& !is_ws(cmd[0])
    &&& !is_ws(cmd.last())
}

/// `|` written as `\vert{}`, in `=verbatim=` where that is safe.
pub open spec fn org_command(cmd: Seq<char>) -> Seq<char> {
    let e = replace_char(cmd, '|', "\\vert{}"@);
    if verbatim_safe(cmd) { seq!['='] + e + seq!['='] } else { e }
}

impl OrgmodeExporter {
    pub fn table_row(&self, cells: &[&str]) -> (r: String)
        requires
            cells@.len() >= 1,
        ensures
            r@ == "| "@ + cells@[0]@ + "  |  "@ + join_strs(cells@.skip(1), " |  "@) + " |\n"@,
    {
        let mut r = String::new();
        push_str(&mut r, "| ");
        push_str(&mut r, cells[0]);
        push_str(&mut r, "  |  ");
        let rest = &cells[1..cells.len()];
        assert(rest@ =~= cells@.skip(1));
        push_joined(&mut r, rest, " |  ");
        push_str(&mut r, " |\n");
        r
    }

    pub fn table_divider(&self, cell_alignments: &[Alignment]) -> (r: String)
        requires
            cell_alignments@.len() >= 1,
        ensures
            r@ == "|"@ + dashes((cell_alignments@.len() - 1) as nat) + "--|\n"@,
    {
        let mut r = String::new();
        push_str(&mut r, "|");
        let ghost start = r@;
        for i in 0..cell_alignments.len() - 1
            invariant
                r@ == start + dashes(i as nat),
        {
            push_str(&mut r, "--+");
        }
        push_str(&mut r, "--|\n");
        r
    }

    /// Render a (possibly untrusted) command: in Org tables a `|` always
    /// starts a new cell, so the result holds none.
    pub fn command(&self, cmd: &str) -> (r: String)
        ensures
            r@ == org_command(cmd@),
            free_of(r@, '|'),
    {
        let cs = chars_of(cmd);
        let mut safe = cs.len() > 0 && !is_ws_exec(cs[0]) && !is_ws_exec(cs[cs.len() - 1]);
        let mut i: usize = 0;
        while i < cs.len() && safe
            invariant
                cs@ == cmd@,
                i <= cs@.len(),
                safe ==> forall|k: int| 0 <= k < i ==> cs@[k] != '=' && cs@[k] != '|',
                safe ==> cs@.len() > 0 && !is_ws(cs@[0]) && !is_ws(cs@.last()),
                !safe ==> !verbatim_safe(cmd@),
            decreases cs.len() - i + (if safe { 1int } else { 0int }),
        {
            if cs[i] == '=' || cs[i] == '|' {
                safe = false;
            }
            i += 1;
        }
        let mut e = String::new();
        push_replaced(&mut e, cmd, '|', "\\vert{}");
        proof {
            reveal_strlit("\\vert{}");
            assert(free_of("\\vert{}"@, '|'));
            lemma_replace_free(cmd@, '|', "\\vert{}"@, '|');
        }
        if safe {
            let mut r = String::new();
            push_char(&mut r, '=');
            push_str(&mut r, e.as_str());
            push_char(&mut r, '=');
            assert(verbatim_safe(cmd@));
            assert(free_of(r@, '|')) by {
                assert forall|k: int| 0 <= k < r@.len() implies r@[k] != '|' by {
                    if 0 < k < r@.len() - 1 {
                        assert(r@[k] == e@[k - 1]);
                    }
                }
            }
            r
        } else {
            e
        }
    }
}

} // verus!

verus! {

/// A row of five cells.
pub open spec fn org_row(c: Seq<Seq<char>>) -> Seq<char> {
    "| "@ + c[0] + "  |  "@ + c[1] + " |  "@ + c[2] + " |  "@ + c[3] + " |  "@ + c[4] + " |\n"@
}

/// The rows of the results.
pub open spec fn org_result_rows(rows: Seq<crate::export::markup::ResultRow>) -> Seq<char>
    decreases rows.len(),
{
    if rows.len() == 0 {
        Seq::empty()
    } else {
        let r = rows.last();
        org_result_rows(rows.drop_last()) + org_row(seq![org_command(r.command@), r.mean@, r.min@, r.max@, r.relative@])
    }
}

/// The results table: the titles, the divider, a row per result.
pub open spec fn org_results_table(rows: Seq<crate::export::markup::ResultRow>, unit: crate::util::units::Unit) -> Seq<char> {
    org_row(crate::export::markup::results_titles(crate::util::units::unit_name(unit))) + "|"@ + dashes(4) + "--|\n"@
        + org_result_rows(rows)
}

impl OrgmodeExporter {
    fn row5(&self, a: &str, b: &str, c: &str, d: &str, e: &str) -> (r: String)
        ensures
            r@ == org_row(seq![a@, b@, c@, d@, e@]),
    {
        let cells = [a, b, c, d, e];
        let r = self.table_row(&cells);
        proof {
            let rest = cells@.skip(1);
            crate::export::markup::lemma_join4(rest, " |  "@);
            assert(rest[0] == b && rest[1] == c && rest[2] == d && rest[3] == e);
        }
        r
    }

    /// The table of the results: one row per result, with the times in
    /// `unit`.
    pub fn table_results(&self, rows: &[crate::export::markup::ResultRow], unit: crate::util::units::Unit) -> (t: String)
        ensures
            t@ == org_results_table(rows@, unit),
    {
        let u = unit.short_name();
        let mean_t = crate::export::markup::column_title("Mean", u.as_str());
        let min_t = crate::export::markup::column_title("Min", u.as_str());
        let max_t = crate::export::markup::column_title("Max", u.as_str());
        let aligns = crate::export::markup::results_alignments_exec();
        let mut table = self.row5("Command", mean_t.as_str(), min_t.as_str(), max_t.as_str(), "Relative");
        let div = self.table_divider(aligns.as_slice());
        push_str(&mut table, div.as_str());
        let ghost start = table@;
        assert(rows@.take(0) =~= Seq::<crate::export::markup::ResultRow>::empty());
        for i in 0..rows.len()
            invariant
                table@ == start + org_result_rows(rows@.take(i as int)),
        {
            let row = &rows[i];
            let cmd = self.command(row.command.as_str());
            let line = self.row5(cmd.as_str(), row.mean.as_str(), row.min.as_str(), row.max.as_str(), row.relative.as_str());
            push_str(&mut table, line.as_str());
            proof {
                let t = rows@.take(i + 1);
                assert(t.drop_last() =~= rows@.take(i as int));
                assert(t.last() == rows@[i as int]);
            }
            assert(table@ =~= start + org_result_rows(rows@.take(i + 1)));
        }
        assert(rows@.take(rows@.len() as int) =~= rows@);
        assert(table@ =~= org_results_table(rows@, unit));
        table
    }
}

} // verus!

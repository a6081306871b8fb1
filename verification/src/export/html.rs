//! The escaping of text in the HTML report.
use vstd::prelude::*;
use crate::export::markup::free_of;
use crate::text::{chars_of, push_char, push_str};

verus! {

#[derive(Debug, Default)]
pub struct HtmlExporter {}

/// The HTML form of one character.
pub open spec fn html_char(c: char) -> Seq<char> {
    if c == '&' {
        "&amp;"@
    } else if c == '<' {
        "&lt;"@
    } else if c == '>' {
        "&gt;"@
    } else if c == '"' {
        "&quot;"@
    } else if c == '\'' {
        "&#39;"@
    } else {
        seq![c]
    }
}

/// `s` escaped for HTML element content and attribute values.
pub open spec fn html_escaped(s: Seq<char>) -> Seq<char>
    decreases s.len(),
{
    if s.len() == 0 { Seq::empty() } else { html_escaped(s.drop_last()) + html_char(s.last()) }
}

proof fn lemma_html_free(s: Seq<char>)
    ensures
        free_of(html_escaped(s), '<'),
        free_of(html_escaped(s), '>'),
        free_of(html_escaped(s), '"'),
        free_of(html_escaped(s), '\''),
    decreases s.len(),
{
    reveal_strlit("&amp;");
    reveal_strlit("&lt;");
    reveal_strlit("&gt;");
    reveal_strlit("&quot;");
    reveal_strlit("&#39;");
    if s.len() > 0 {
        lemma_html_free(s.drop_last());
        let a = html_escaped(s.drop_last());
        let b = html_char(s.last());
        assert forall|i: int| 0 <= i < (a + b).len() implies (a + b)[i] != '<' && (a + b)[i] != '>'
            && (a + b)[i] != '"' && (a + b)[i] != '\'' by {
            if i >= a.len() {
                assert((a + b)[i] == b[i - a.len()]);
            }
        }
    }
}

/// Escape text for HTML element content and attribute values: the result
/// holds no `<`, `>`, `"` or `'`.
pub fn escape_html(text: &str) -> (r: String)
    ensures
        r@ == html_escaped(text@),
        free_of(r@, '<'),
        free_of(r@, '>'),
        free_of(r@, '"'),
        free_of(r@, '\''),
{
    let cs = chars_of(text);
    let mut out = String::new();
    for i in 0..cs.len()
        invariant
            cs@ == text@,
            out@ == html_escaped(text@.take(i as int)),
    {
        let ghost before = out@;
        let c = cs[i];
        match c {
            '&' => push_str(&mut out, "&amp;"),
            '<' => push_str(&mut out, "&lt;"),
            '>' => push_str(&mut out, "&gt;"),
            '"' => push_str(&mut out, "&quot;"),
            '\'' => push_str(&mut out, "&#39;"),
            _ => push_char(&mut out, c),
        }
        proof {
            let t = text@.take(i + 1);
            assert(t.drop_last() =~= text@.take(i as int));
            assert(t.last() == c);
        }
        assert(out@ =~= html_escaped(text@.take(i + 1)));
    }
    assert(text@.take(cs@.len() as int) =~= text@);
    proof { lemma_html_free(text@); }
    out
}

} // verus!

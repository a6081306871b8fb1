//! Where an export goes and in which format.
use vstd::prelude::*;
use crate::metric::{ascii_lower, to_ascii_lower};
use crate::text::{chars_of, chars_eq};

verus! {

/// The desired form of exporter to use for a given file.
#[derive(Debug, Clone, Copy, PartialEq, Eq, Structural)]
pub enum ExportType {
    /// Asciidoc Table
    Asciidoc,
    /// CSV (comma separated values) format
    Csv,
    /// JSON format
    Json,
    /// Markdown table
    Markdown,
    /// Emacs org-mode tables
    Orgmode,
    /// One Markdown table per benchmark with every run
    MarkdownRuns,
    /// One org-mode table per benchmark with every run
    OrgmodeRuns,
    /// One AsciiDoc table per benchmark with every run
    AsciidocRuns,
    /// Self-contained HTML report with plots
    Html,
}

/// Where an export is written.
#[derive(Debug, Clone, PartialEq, Eq)]
pub enum ExportTarget {
    File(String),
    Stdout,
}

/// The export type for a file extension (in any case); JSON by default.
pub open spec fn export_type_of(ext: Option<Seq<char>>) -> ExportType {
    match ext {
        Some(e) => {
            let l = ascii_lower(e);
            if l == "adoc"@ || l == "asciidoc"@ {
                ExportType::Asciidoc
            } else if l == "csv"@ {
                ExportType::Csv
            } else if l == "md"@ || l == "markdown"@ {
                ExportType::Markdown
            } else if l == "org"@ {
                ExportType::Orgmode
            } else if l == "html"@ || l == "htm"@ {
                ExportType::Html
            } else {
                ExportType::Json
            }
        },
        None => ExportType::Json,
    }
}

/// Each known extension selects its own format, in any case: `adoc` and
/// `asciidoc` AsciiDoc, `csv` CSV, `md` and `markdown` Markdown, `org`
/// org-mode, `html` and `htm` HTML; JSON comes exactly for a missing or an
/// unknown extension.
pub proof fn lemma_extension_selects_its_format(ext: Seq<char>)
    ensures
        ascii_lower(ext) == "adoc"@ || ascii_lower(ext) == "asciidoc"@ ==> export_type_of(Some(ext)) == ExportType::Asciidoc,
        ascii_lower(ext) == "csv"@ ==> export_type_of(Some(ext)) == ExportType::Csv,
        ascii_lower(ext) == "md"@ || ascii_lower(ext) == "markdown"@ ==> export_type_of(Some(ext)) == ExportType::Markdown,
        ascii_lower(ext) == "org"@ ==> export_type_of(Some(ext)) == ExportType::Orgmode,
        ascii_lower(ext) == "html"@ || ascii_lower(ext) == "htm"@ ==> export_type_of(Some(ext)) == ExportType::Html,
        export_type_of(Some(ext)) == ExportType::Json <==> !(ascii_lower(ext) == "adoc"@ || ascii_lower(ext) == "asciidoc"@
            || ascii_lower(ext) == "csv"@ || ascii_lower(ext) == "md"@ || ascii_lower(ext) == "markdown"@
            || ascii_lower(ext) == "org"@ || ascii_lower(ext) == "html"@ || ascii_lower(ext) == "htm"@),
        export_type_of(None) == ExportType::Json,
{
    reveal_strlit("adoc");
    reveal_strlit("asciidoc");
    reveal_strlit("csv");
    reveal_strlit("md");
    reveal_strlit("markdown");
    reveal_strlit("org");
    reveal_strlit("html");
    reveal_strlit("htm");
    let l = ascii_lower(ext);
    if l == "csv"@ {
        assert(l != "adoc"@ && l != "asciidoc"@) by {
            assert("csv"@.len() != "asciidoc"@.len());
            assert("csv"@[0] != "adoc"@[0]);
        }
    }
    if l == "md"@ || l == "markdown"@ {
        assert(l != "adoc"@ && l != "asciidoc"@ && l != "csv"@) by {
            assert(l[0] == 'm');
        }
    }
    if l == "org"@ {
        assert(l != "adoc"@ && l != "asciidoc"@ && l != "csv"@ && l != "md"@ && l != "markdown"@) by {
            assert(l[0] == 'o');
        }
    }
    if l == "html"@ || l == "htm"@ {
        assert(l != "adoc"@ && l != "asciidoc"@ && l != "csv"@ && l != "md"@ && l != "markdown"@ && l != "org"@) by {
            assert(l[0] == 'h');
        }
    }
}

fn is(a: &Vec<char>, b: &str) -> (r: bool)
    ensures
        r == (a@ == b@),
{
    let bc = chars_of(b);
    chars_eq(a.as_slice(), bc.as_slice())
}

/// Determine the export type from the file extension (`None` if the file
/// name has none). Defaults to JSON.
pub fn export_type_from_extension(ext: Option<&str>) -> (t: ExportType)
    ensures
        t == export_type_of(crate::parameter::str_opt_view(ext)),
{
    match ext {
        None => ExportType::Json,
        Some(e) => {
            let l = to_ascii_lower(e);
            let lc = chars_of(l.as_str());
            if is(&lc, "adoc") || is(&lc, "asciidoc") {
                ExportType::Asciidoc
            } else if is(&lc, "csv") {
                ExportType::Csv
            } else if is(&lc, "md") || is(&lc, "markdown") {
                ExportType::Markdown
            } else if is(&lc, "org") {
                ExportType::Orgmode
            } else if is(&lc, "html") || is(&lc, "htm") {
                ExportType::Html
            } else {
                ExportType::Json
            }
        },
    }
}

/// The target of an export file name: `-` is the standard output.
pub fn export_target(filename: &str) -> (t: ExportTarget)
    ensures
        filename@ == "-"@ ==> t == ExportTarget::Stdout,
        filename@ != "-"@ ==> (t matches ExportTarget::File(f) && f@ == filename@),
{
    let cs = chars_of(filename);
    if is(&cs, "-") {
        ExportTarget::Stdout
    } else {
        ExportTarget::File(filename.to_string())
    }
}


/// Whether an export is written now: regular files on every call (so that
/// they stay up to date even if a later benchmark fails); the standard output
/// and special files (devices, FIFOs), where writes accumulate instead of
/// replacing each other, only by the final call.
pub fn writes_now(target: &ExportTarget, intermediate: bool, special_file: bool) -> (w: bool)
    ensures
        w == match *target {
            ExportTarget::File(_) => !(intermediate && special_file),
            ExportTarget::Stdout => !intermediate,
        },
        !intermediate ==> w,
{
    match target {
        ExportTarget::File(_) => !(intermediate && special_file),
        ExportTarget::Stdout => !intermediate,
    }
}

} // verus!

//! `--output-metric NAME=REGEX`: a metric read from a command's standard
//! output by a regular expression with a capture group.
use vstd::prelude::*;
use vstd::string::*;
use regex::bytes::Regex;
use crate::text::{chars_of, push_str, string_from_chars};

verus! {

/// `regex::bytes::Regex`, a compiled regular expression.
#[verifier::external_type_specification]
#[verifier::external_body]
pub struct ExRegex(regex::bytes::Regex);

/// Whether `regex::bytes::Regex::new` compiles `pattern` (it fails on an
/// invalid pattern and on one whose automaton exceeds the default size
/// limit).
pub uninterp spec fn regex_accepts(pattern: Seq<char>) -> bool;

/// The number of capture groups of the regex that `pattern` compiles to,
/// the implicit group of the whole match included.
pub uninterp spec fn regex_groups(pattern: Seq<char>) -> nat;

/// Calls `regex::bytes::Regex::new`, and on success `captures_len` of the
/// compiled regex. Claimed: it succeeds exactly when
/// `regex_accepts(pattern)`; the number of groups is `regex_groups` of the
/// pattern (a compiled regex is a function of its pattern) and at least one
/// (the whole match). The error's text is the crate's message, of which
/// nothing is stated.
#[verifier::external_body]
fn regex_new(pattern: &str) -> (r: Result<(Regex, usize), String>)
    ensures
        r is Ok <==> regex_accepts(pattern@),
        r matches Ok((re, n)) ==> n == regex_groups(pattern@) && n >= 1,
{
    match Regex::new(pattern) {
        Ok(re) => {
            let n = re.captures_len();
            Ok((re, n))
        },
        Err(e) => Err(e.to_string()),
    }
}

/// Capture group 1 of every match of the regex compiled from `pattern` in
/// `hay`, in order (none for a match in which group 1 took no part).
pub uninterp spec fn regex_group1_matches(pattern: Seq<char>, hay: Seq<u8>) -> Seq<Option<Seq<u8>>>;

/// The view of optional bytes.
pub open spec fn opt_bytes(o: Option<Vec<u8>>) -> Option<Seq<u8>> {
    match o {
        Some(v) => Some(v@),
        None => None,
    }
}

/// The views of a list of optional bytes.
pub open spec fn opt_bytes_seq(v: Seq<Option<Vec<u8>>>) -> Seq<Option<Seq<u8>>> {
    v.map_values(|o: Option<Vec<u8>>| opt_bytes(o))
}

/// Calls `regex::bytes::Regex::new` on `pattern`, then `captures_iter` on
/// `hay`, taking capture group 1 of each match. Claimed: for a pattern that
/// compiles, the groups are `regex_group1_matches` of the pattern and the
/// data (a function of them alone); for one that does not, there are none.
#[verifier::external_body]
fn group1_matches(pattern: &str, hay: &[u8]) -> (r: Option<Vec<Option<Vec<u8>>>>)
    ensures
        r is Some <==> regex_accepts(pattern@),
        r matches Some(v) ==> opt_bytes_seq(v@) == regex_group1_matches(pattern@, hay@),
{
    let re = Regex::new(pattern).ok()?;
    Some(re.captures_iter(hay).map(|c| c.get(1).map(|m| m.as_bytes().to_vec())).collect())
}

/// Calls `std::str::from_utf8`. Claimed: it succeeds exactly on valid
/// UTF-8, and the text is what the bytes encode.
#[verifier::external_body]
fn utf8_text(bytes: &[u8]) -> (r: Option<String>)
    ensures
        r is Some <==> vstd::utf8::valid_utf8(bytes@),
        r matches Some(t) ==> t@ == vstd::utf8::decode_utf8(bytes@),
{
    std::str::from_utf8(bytes).ok().map(String::from)
}

/// The text of a metric in a command's output: group 1 of the last match,
/// as UTF-8, without surrounding white space.
pub open spec fn extracted_text(pattern: Seq<char>, output: Seq<u8>) -> Option<Seq<char>> {
    let groups = regex_group1_matches(pattern, output);
    match (if groups.len() == 0 { None } else { groups.last() }) {
        Some(b) => if vstd::utf8::valid_utf8(b) {
            Some(crate::text::trim(vstd::utf8::decode_utf8(b)))
        } else {
            None
        },
        None => None,
    }
}

/// A user-specified metric to extract from a command's standard output.
pub struct OutputMetric {
    pub name: String,
    /// The pattern the regex was compiled from
    pub pattern: String,
    pub re: Regex,
}

/// A metric name: ASCII letters, digits and `_`, at least one.
pub open spec fn valid_metric_name(name: Seq<char>) -> bool {
    name.len() > 0 && forall|i: int| 0 <= i < name.len() ==> is_name_char(#[trigger] name[i])
}

/// An ASCII letter, digit or `_`.
pub open spec fn is_name_char(c: char) -> bool {
    ('a' <= c <= 'z') || ('A' <= c <= 'Z') || ('0' <= c <= '9') || c == '_'
}

/// The index of the first `=`, if any.
pub open spec fn first_eq(s: Seq<char>) -> Option<int> {
    if exists|i: int| 0 <= i < s.len() && s[i] == '=' {
        Some(choose|i: int| 0 <= i < s.len() && s[i] == '=' && forall|j: int| 0 <= j < i ==> s[j] != '=')
    } else {
        None
    }
}

/// The error for a regex without a capture group.
pub open spec fn no_group_text(name: Seq<char>) -> Seq<char> {
    "regex for metric '"@ + name + "' must contain at least one capture group '(...)'"@
}

/// The metric `name` needs a capture group besides the whole match: an
/// error where the regex has only `captures_len` groups in all.
pub fn check_capture_groups(name: &str, captures_len: usize) -> (r: Result<(), String>)
    ensures
        captures_len >= 2 ==> r is Ok,
        captures_len < 2 ==> (r matches Err(m) && m@ == no_group_text(name@)),
{
    if captures_len >= 2 {
        Ok(())
    } else {
        let mut m = String::new();
        push_str(&mut m, "regex for metric '");
        push_str(&mut m, name);
        push_str(&mut m, "' must contain at least one capture group '(...)'");
        Err(m)
    }
}

fn is_name_char_exec(c: char) -> (b: bool)
    ensures
        b == is_name_char(c),
{
    ('a' <= c && c <= 'z') || ('A' <= c && c <= 'Z') || ('0' <= c && c <= '9') || c == '_'
}

impl OutputMetric {
    /// Parse `NAME=REGEX`: the name is what comes before the first `=`, the
    /// pattern what comes after it.
    pub fn parse(s: &str) -> (r: Result<OutputMetric, String>)
        ensures
            first_eq(s@) is None ==> (r matches Err(m) && m@ == "expected 'NAME=REGEX', got '"@ + s@ + "'"@),
            first_eq(s@) matches Some(k) ==> {
                let name = s@.take(k);
                let pattern = s@.skip(k + 1);
                &&& !valid_metric_name(name) ==> (r matches Err(m) && m@ == "invalid metric name '"@ + name
                    + "': names must contain only ASCII alphanumeric characters and underscores"@)
                &&& valid_metric_name(name) && !regex_accepts(pattern) ==> (r matches Err(m)
                    && "invalid regex '"@ + pattern + "': "@ == m@.take(("invalid regex '"@ + pattern + "': "@).len() as int))
                &&& r matches Ok(o) ==> o.name@ == name && o.pattern@ == pattern && valid_metric_name(name)
                    && regex_accepts(pattern)
                &&& valid_metric_name(name) && regex_accepts(pattern) && regex_groups(pattern) < 2
                    ==> (r matches Err(m) && m@ == no_group_text(name))
            },
            r is Ok <==> (first_eq(s@) matches Some(k) && valid_metric_name(s@.take(k)) && regex_accepts(
                s@.skip(k + 1),
            ) && regex_groups(s@.skip(k + 1)) >= 2),
    {
        let cs = chars_of(s);
        let mut k: usize = 0;
        while k < cs.len() && cs[k] != '='
            invariant
                k <= cs@.len(),
                cs@ == s@,
                forall|j: int| 0 <= j < k ==> cs@[j] != '=',
            decreases cs.len() - k,
        {
            k += 1;
        }
        if k == cs.len() {
            assert(!exists|i: int| 0 <= i < s@.len() && s@[i] == '=');
            let mut m = String::new();
            push_str(&mut m, "expected 'NAME=REGEX', got '");
            push_str(&mut m, s);
            push_str(&mut m, "'");
            return Err(m);
        }
        proof {
            assert(exists|i: int| 0 <= i < s@.len() && s@[i] == '=');
            let c = choose|i: int| 0 <= i < s@.len() && s@[i] == '=' && forall|j: int| 0 <= j < i ==> s@[j] != '=';
            assert(s@[k as int] == '=');
            if c < k {
                assert(cs@[c] != '=');
            }
            if c > k {
                assert(s@[k as int] != '=');
            }
            assert(first_eq(s@) == Some(k as int));
        }
        let name_chars = crate::text::chars_range(cs.as_slice(), 0, k);
        let pattern_chars = crate::text::chars_range(cs.as_slice(), k + 1, cs.len());
        assert(name_chars@ =~= s@.take(k as int));
        assert(pattern_chars@ =~= s@.skip(k + 1));
        let name = string_from_chars(name_chars.as_slice());
        let pattern = string_from_chars(pattern_chars.as_slice());
        let mut valid = name_chars.len() > 0;
        let mut i: usize = 0;
        while i < name_chars.len()
            invariant
                i <= name_chars@.len(),
                valid == (name_chars@.len() > 0 && forall|j: int| 0 <= j < i ==> is_name_char(#[trigger] name_chars@[j])),
            decreases name_chars.len() - i,
        {
            if !is_name_char_exec(name_chars[i]) {
                valid = false;
            }
            i += 1;
        }
        if !valid {
            let mut m = String::new();
            push_str(&mut m, "invalid metric name '");
            push_str(&mut m, name.as_str());
            push_str(&mut m, "': names must contain only ASCII alphanumeric characters and underscores");
            return Err(m);
        }
        let (re, groups) = match regex_new(pattern.as_str()) {
            Ok(rg) => rg,
            Err(e) => {
                let mut m = String::new();
                push_str(&mut m, "invalid regex '");
                push_str(&mut m, pattern.as_str());
                push_str(&mut m, "': ");
                let ghost prefix = m@;
                push_str(&mut m, e.as_str());
                assert(m@.take(prefix.len() as int) =~= prefix);
                return Err(m);
            },
        };
        match check_capture_groups(name.as_str(), groups) {
            Ok(()) => Ok(OutputMetric { name, pattern, re }),
            Err(m) => Err(m),
        }
    }
}

impl OutputMetric {
    /// The text of the metric in a command's output: capture group 1 of the
    /// last match, as UTF-8, trimmed (the caller parses the number). None
    /// where the regex does not match, group 1 took no part in the last
    /// match, or its bytes are not UTF-8.
    pub fn extract_text(&self, output: &[u8]) -> (r: Option<String>)
        ensures
            regex_accepts(self.pattern@) ==> crate::command::opt_view(r) == extracted_text(self.pattern@, output@),
    {
        let groups = match group1_matches(self.pattern.as_str(), output) {
            Some(g) => g,
            None => return None,
        };
        if groups.len() == 0 {
            return None;
        }
        let last = groups.len() - 1;
        assert(opt_bytes_seq(groups@)[last as int] == opt_bytes(groups@[last as int]));
        let bytes = match &groups[last] {
            Some(b) => b,
            None => return None,
        };
        let text = match utf8_text(bytes.as_slice()) {
            Some(t) => t,
            None => return None,
        };
        let cs = chars_of(text.as_str());
        let t = crate::text::trim_chars(cs.as_slice());
        Some(string_from_chars(t.as_slice()))
    }
}

impl std::str::FromStr for OutputMetric {
    type Err = String;

    fn from_str(s: &str) -> (r: Result<OutputMetric, String>)
        ensures
            first_eq(s@) is None ==> (r matches Err(m) && m@ == "expected 'NAME=REGEX', got '"@ + s@ + "'"@),
            first_eq(s@) matches Some(k) ==> {
                let name = s@.take(k);
                let pattern = s@.skip(k + 1);
                &&& !valid_metric_name(name) ==> (r matches Err(m) && m@ == "invalid metric name '"@ + name
                    + "': names must contain only ASCII alphanumeric characters and underscores"@)
                &&& valid_metric_name(name) && !regex_accepts(pattern) ==> (r matches Err(m)
                    && "invalid regex '"@ + pattern + "': "@ == m@.take(("invalid regex '"@ + pattern + "': "@).len() as int))
                &&& r matches Ok(o) ==> o.name@ == name && o.pattern@ == pattern && valid_metric_name(name)
                    && regex_accepts(pattern)
                &&& valid_metric_name(name) && regex_accepts(pattern) && regex_groups(pattern) < 2
                    ==> (r matches Err(m) && m@ == no_group_text(name))
            },
            r is Ok <==> (first_eq(s@) matches Some(k) && valid_metric_name(s@.take(k)) && regex_accepts(
                s@.skip(k + 1),
            ) && regex_groups(s@.skip(k + 1)) >= 2),
    {
        OutputMetric::parse(s)
    }
}

} // verus!

//! The protection of CSV cells against formula injection.
use vstd::prelude::*;
use crate::text::{chars_of, push_char, push_str};

verus! {

/// The CSV exporter, with the `--label KEY=VALUE` pairs that it exports as
/// `label_KEY` columns (sorted by key).
#[derive(Debug, Default)]
pub struct CsvExporter {
    pub labels: Vec<(String, String)>,
}

/// A first character that spreadsheets read as the start of a formula.
pub open spec fn formula_start(c: char) -> bool {
    c == '=' || c == '+' || c == '-' || c == '@' || c == '\t' || c == '\r'
}

/// Sanitizes a CSV field value to prevent formula injection: a value that
/// begins with `=`, `+`, `-`, `@`, a tab or a carriage return gets a leading
/// single quote, which makes spreadsheets treat it as text. Other values are
/// returned unchanged (borrowed).
pub fn sanitize_csv_value(value: &str) -> (r: std::borrow::Cow<'_, str>)
    ensures
        value@.len() > 0 && formula_start(value@[0]) ==> (r is Owned && r@ == seq!['\''] + value@),
        !(value@.len() > 0 && formula_start(value@[0])) ==> (r is Borrowed && r@ == value@),
{
    let cs = chars_of(value);
    if cs.len() > 0 {
        let c = cs[0];
        if c == '=' || c == '+' || c == '-' || c == '@' || c == '\t' || c == '\r' {
            let mut s = String::new();
            push_char(&mut s, '\'');
            push_str(&mut s, value);
            return std::borrow::Cow::Owned(s);
        }
    }
    std::borrow::Cow::Borrowed(value)
}

} // verus!

verus! {

// ------------------------------------------------------------------------
// The header and the rows

/// A value as it is written into a cell: with a leading `'` where it would
/// start a formula.
pub open spec fn sanitized(value: Seq<char>) -> Seq<char> {
    if value.len() > 0 && formula_start(value[0]) { seq!['\''] + value } else { value }
}

/// The sanitized value as an owned string.
fn sanitized_string(value: &str) -> (s: String)
    ensures
        s@ == sanitized(value@),
{
    match sanitize_csv_value(value) {
        std::borrow::Cow::Borrowed(b) => b.to_string(),
        std::borrow::Cow::Owned(o) => o,
    }
}

/// The parameter `name` occurs in some result.
pub open spec fn has_parameter(parameters: Seq<Vec<(String, String)>>, name: Seq<char>) -> bool {
    exists|i: int, j: int| 0 <= i < parameters.len() && 0 <= j < parameters[i]@.len() && #[trigger] parameters[i]@[j].0@ == name
}

/// The names of the parameters of all results, in order and each once
/// (their columns).
pub fn parameter_columns(parameters: &[Vec<(String, String)>]) -> (r: Vec<String>)
    ensures
        crate::text::strictly_sorted(crate::text::views(r@)),
        forall|x: Seq<char>| #[trigger] crate::text::views(r@).contains(x) <==> has_parameter(parameters@, x),
{
    let mut v: Vec<Vec<char>> = Vec::new();
    for i in 0..parameters.len()
        invariant
            crate::text::strictly_sorted(crate::text::char_views(v@)),
            forall|x: Seq<char>| #[trigger] crate::text::char_views(v@).contains(x) <==> exists|a: int, b: int|
                0 <= a < i && 0 <= b < parameters@[a]@.len() && #[trigger] parameters@[a]@[b].0@ == x,
    {
        let ps = &parameters[i];
        for j in 0..ps.len()
            invariant
                i < parameters@.len(),
                ps@ == parameters@[i as int]@,
                crate::text::strictly_sorted(crate::text::char_views(v@)),
                forall|x: Seq<char>| #[trigger] crate::text::char_views(v@).contains(x) <==> ((exists|a: int, b: int|
                    0 <= a < i && 0 <= b < parameters@[a]@.len() && #[trigger] parameters@[a]@[b].0@ == x)
                    || exists|b: int| 0 <= b < j && #[trigger] ps@[b].0@ == x),
        {
            let name = chars_of(ps[j].0.as_str());
            crate::text::insert_sorted(&mut v, name);
            assert forall|x: Seq<char>| #[trigger] crate::text::char_views(v@).contains(x) <==> ((exists|a: int, b: int|
                0 <= a < i && 0 <= b < parameters@[a]@.len() && #[trigger] parameters@[a]@[b].0@ == x)
                || exists|b: int| 0 <= b < j + 1 && #[trigger] ps@[b].0@ == x) by {
                if x == ps@[j as int].0@ {
                    assert(exists|b: int| 0 <= b < j + 1 && #[trigger] ps@[b].0@ == x);
                }
                if exists|b: int| 0 <= b < j + 1 && #[trigger] ps@[b].0@ == x {
                    let b = choose|b: int| 0 <= b < j + 1 && #[trigger] ps@[b].0@ == x;
                    if b < j {
                        assert(exists|b: int| 0 <= b < j && #[trigger] ps@[b].0@ == x);
                    }
                }
            }
        }
        assert forall|x: Seq<char>| #[trigger] crate::text::char_views(v@).contains(x) <==> exists|a: int, b: int|
            0 <= a < i + 1 && 0 <= b < parameters@[a]@.len() && #[trigger] parameters@[a]@[b].0@ == x by {
            if exists|b: int| 0 <= b < ps@.len() && #[trigger] ps@[b].0@ == x {
                let b = choose|b: int| 0 <= b < ps@.len() && #[trigger] ps@[b].0@ == x;
                assert(parameters@[i as int]@[b].0@ == x);
            }
            if exists|a: int, b: int| 0 <= a < i + 1 && 0 <= b < parameters@[a]@.len() && #[trigger] parameters@[a]@[b].0@ == x {
                let (a, b) = choose|a: int, b: int| 0 <= a < i + 1 && 0 <= b < parameters@[a]@.len() && #[trigger] parameters@[a]@[b].0@ == x;
                if a == i {
                    assert(ps@[b].0@ == x);
                }
            }
        }
    }
    let mut r: Vec<String> = Vec::new();
    for k in 0..v.len()
        invariant
            r@.len() == k,
            crate::text::views(r@) == crate::text::char_views(v@).take(k as int),
    {
        let ghost before = r@;
        let s = crate::text::string_from_chars(v[k].as_slice());
        r.push(s);
        assert(r@ == before.push(s));
        assert forall|m: int| 0 <= m < k + 1 implies #[trigger] crate::text::views(r@)[m] == crate::text::char_views(v@).take(k + 1)[m] by {
            if m < k {
                assert(crate::text::views(r@)[m] == r@[m]@);
                assert(r@[m] == before[m]);
                assert(crate::text::views(before)[m] == before[m]@);
            } else {
                assert(crate::text::views(r@)[m] == s@);
            }
        }
        assert(crate::text::views(r@) =~= crate::text::char_views(v@).take(k + 1));
    }
    assert(crate::text::char_views(v@).take(v@.len() as int) =~= crate::text::char_views(v@));
    r
}

} // verus!

verus! {

/// The columns before the parameters.
pub open spec fn fixed_columns() -> Seq<Seq<char>> {
    seq!["command"@, "mean"@, "stddev"@, "median"@, "user"@, "system"@, "min"@, "max"@]
}

/// Each name with a prefix.
pub open spec fn prefixed(prefix: Seq<char>, names: Seq<Seq<char>>) -> Seq<Seq<char>> {
    names.map_values(|n: Seq<char>| prefix + n)
}

/// The keys of the labels.
pub open spec fn label_keys(labels: Seq<(String, String)>) -> Seq<Seq<char>> {
    labels.map_values(|l: (String, String)| l.0@)
}

/// The values of the labels, sanitized.
pub open spec fn label_cells(labels: Seq<(String, String)>) -> Seq<Seq<char>> {
    labels.map_values(|l: (String, String)| sanitized(l.1@))
}

/// The header: the fixed columns, a `parameter_NAME` column per parameter,
/// the relative speed and its σ, and a `label_KEY` column per label. New
/// columns come at the end, so that the existing ones keep their position.
pub open spec fn header_spec(param_names: Seq<Seq<char>>, labels: Seq<(String, String)>) -> Seq<Seq<char>> {
    fixed_columns() + prefixed("parameter_"@, param_names) + seq!["relative_speed"@, "relative_speed_stddev"@]
        + prefixed("label_"@, label_keys(labels))
}

/// The value of parameter `name` (the first one with that name), or the
/// empty text where the result has none.
pub open spec fn param_value(ps: Seq<(String, String)>, name: Seq<char>) -> Seq<char>
    decreases ps.len(),
{
    if ps.len() == 0 {
        Seq::empty()
    } else if ps[0].0@ == name {
        ps[0].1@
    } else {
        param_value(ps.skip(1), name)
    }
}

/// The cells of a result's parameters, in the order of the columns.
pub open spec fn param_cells(ps: Seq<(String, String)>, names: Seq<Seq<char>>) -> Seq<Seq<char>> {
    names.map_values(|n: Seq<char>| sanitized(param_value(ps, n)))
}

/// A row: the command and the parameter values sanitized, the numbers as
/// given, and the labels' values.
pub open spec fn row_spec(
    command: Seq<char>,
    numbers: Seq<Seq<char>>,
    ps: Seq<(String, String)>,
    names: Seq<Seq<char>>,
    relative: Seq<char>,
    relative_stddev: Seq<char>,
    labels: Seq<(String, String)>,
) -> Seq<Seq<char>> {
    seq![sanitized(command)] + numbers + param_cells(ps, names) + seq![relative, relative_stddev] + label_cells(labels)
}

fn push_prefixed(out: &mut Vec<String>, prefix: &str, names: &Vec<String>, Ghost(start): Ghost<Seq<Seq<char>>>)
    requires
        crate::text::views(old(out)@) == start,
    ensures
        crate::text::views(final(out)@) == start + prefixed(prefix@, crate::text::views(names@)),
{
    for k in 0..names.len()
        invariant
            crate::text::views(out@) == start + prefixed(prefix@, crate::text::views(names@).take(k as int)),
    {
        let mut s = String::new();
        push_str(&mut s, prefix);
        push_str(&mut s, names[k].as_str());
        let ghost before = out@;
        out.push(s);
        assert(crate::text::views(out@) =~= crate::text::views(before).push(s@));
        assert(prefixed(prefix@, crate::text::views(names@).take(k + 1)) =~= prefixed(prefix@,
            crate::text::views(names@).take(k as int)).push(prefix@ + names@[k as int]@));
    }
    assert(crate::text::views(names@).take(names@.len() as int) =~= crate::text::views(names@));
}

fn push_literal(out: &mut Vec<String>, lit: &str)
    ensures
        crate::text::views(final(out)@) == crate::text::views(old(out)@).push(lit@),
{
    let mut s = String::new();
    push_str(&mut s, lit);
    out.push(s);
    assert(crate::text::views(out@) =~= crate::text::views(old(out)@).push(lit@));
}

/// The value of parameter `name` among `ps`, or the empty text.
fn lookup<'a>(ps: &'a [(String, String)], name: &str) -> (r: &'a str)
    ensures
        r@ == param_value(ps@, name@),
{
    let mut k: usize = 0;
    assert(ps@.skip(0) =~= ps@);
    while k < ps.len()
        invariant
            k <= ps@.len(),
            param_value(ps@, name@) == param_value(ps@.skip(k as int), name@),
        decreases ps.len() - k,
    {
        assert(ps@.skip(k as int)[0] == ps@[k as int]);
        assert(ps@.skip(k as int).skip(1) =~= ps@.skip(k + 1));
        if crate::text::chars_eq(chars_of(ps[k].0.as_str()).as_slice(), chars_of(name).as_slice()) {
            return ps[k].1.as_str();
        }
        k += 1;
    }
    proof {
        reveal_strlit("");
    }
    ""
}

impl CsvExporter {
    /// The header of the CSV export, for the given parameter columns.
    pub fn header(&self, param_names: &Vec<String>) -> (h: Vec<String>)
        ensures
            crate::text::views(h@) == header_spec(crate::text::views(param_names@), self.labels@),
    {
        let mut h: Vec<String> = Vec::new();
        push_literal(&mut h, "command");
        push_literal(&mut h, "mean");
        push_literal(&mut h, "stddev");
        push_literal(&mut h, "median");
        push_literal(&mut h, "user");
        push_literal(&mut h, "system");
        push_literal(&mut h, "min");
        push_literal(&mut h, "max");
        assert(crate::text::views(h@) =~= fixed_columns());
        let ghost fixed = crate::text::views(h@);
        push_prefixed(&mut h, "parameter_", param_names, Ghost(fixed));
        push_literal(&mut h, "relative_speed");
        push_literal(&mut h, "relative_speed_stddev");
        let mut keys: Vec<String> = Vec::new();
        for k in 0..self.labels.len()
            invariant
                crate::text::views(keys@) == label_keys(self.labels@).take(k as int),
        {
            let ghost before = keys@;
            keys.push(self.labels[k].0.clone());
            assert(crate::text::views(keys@) =~= crate::text::views(before).push(self.labels@[k as int].0@));
            assert(label_keys(self.labels@).take(k + 1) =~= label_keys(self.labels@).take(k as int).push(self.labels@[k as int].0@));
        }
        assert(label_keys(self.labels@).take(self.labels@.len() as int) =~= label_keys(self.labels@));
        let ghost mid = crate::text::views(h@);
        push_prefixed(&mut h, "label_", &keys, Ghost(mid));
        assert(crate::text::views(h@) =~= header_spec(crate::text::views(param_names@), self.labels@));
        h
    }

    /// The cells of a result's row: its command, its numbers (already
    /// formatted: mean, stddev, median, user, system, min, max), its value
    /// of each parameter column, its relative speed and σ, and the labels.
    pub fn row(
        &self,
        command: &str,
        numbers: &Vec<String>,
        parameters: &[(String, String)],
        param_names: &Vec<String>,
        relative: &str,
        relative_stddev: &str,
    ) -> (r: Vec<String>)
        ensures
            crate::text::views(r@) == row_spec(command@, crate::text::views(numbers@), parameters@,
                crate::text::views(param_names@), relative@, relative_stddev@, self.labels@),
    {
        let mut r: Vec<String> = Vec::new();
        r.push(sanitized_string(command));
        assert(crate::text::views(r@) =~= seq![sanitized(command@)]);
        for k in 0..numbers.len()
            invariant
                crate::text::views(r@) == seq![sanitized(command@)] + crate::text::views(numbers@).take(k as int),
        {
            let ghost before = r@;
            r.push(numbers[k].clone());
            assert(crate::text::views(r@) =~= crate::text::views(before).push(numbers@[k as int]@));
            assert(crate::text::views(numbers@).take(k + 1) =~= crate::text::views(numbers@).take(k as int).push(numbers@[k as int]@));
        }
        assert(crate::text::views(numbers@).take(numbers@.len() as int) =~= crate::text::views(numbers@));
        let ghost start = crate::text::views(r@);
        for k in 0..param_names.len()
            invariant
                crate::text::views(r@) == start + param_cells(parameters@, crate::text::views(param_names@).take(k as int)),
        {
            let v = lookup(parameters, param_names[k].as_str());
            let ghost before = r@;
            let s = sanitized_string(v);
            r.push(s);
            assert(crate::text::views(r@) =~= crate::text::views(before).push(s@));
            assert(param_cells(parameters@, crate::text::views(param_names@).take(k + 1)) =~= param_cells(parameters@,
                crate::text::views(param_names@).take(k as int)).push(sanitized(param_value(parameters@, param_names@[k as int]@))));
        }
        assert(crate::text::views(param_names@).take(param_names@.len() as int) =~= crate::text::views(param_names@));
        push_literal(&mut r, relative);
        push_literal(&mut r, relative_stddev);
        let ghost mid = crate::text::views(r@);
        for k in 0..self.labels.len()
            invariant
                crate::text::views(r@) == mid + label_cells(self.labels@).take(k as int),
        {
            let ghost before = r@;
            let s = sanitized_string(self.labels[k].1.as_str());
            r.push(s);
            assert(crate::text::views(r@) =~= crate::text::views(before).push(s@));
            assert(label_cells(self.labels@).take(k + 1) =~= label_cells(self.labels@).take(k as int).push(sanitized(self.labels@[k as int].1@)));
        }
        assert(label_cells(self.labels@).take(self.labels@.len() as int) =~= label_cells(self.labels@));
        assert(crate::text::views(r@) =~= row_spec(command@, crate::text::views(numbers@), parameters@,
            crate::text::views(param_names@), relative@, relative_stddev@, self.labels@));
        r
    }
}

} // verus!

verus! {

// ------------------------------------------------------------------------
// Writing the records

/// The bytes that the `csv` crate writes for one record with these fields:
/// each field quoted where it needs to be, separated by commas, ended by a
/// newline.
pub uninterp spec fn csv_record_bytes(fields: Seq<Seq<char>>) -> Seq<u8>;

/// Calls `csv::Writer::write_record` on a fresh writer into memory and
/// takes the bytes (`into_inner`). Claimed: it succeeds (the crate fails
/// only on an I/O error, which a `Vec` never gives, or on records of
/// unequal lengths within one writer, and this writer writes one record),
/// and the bytes are `csv_record_bytes` of the fields (a function of them
/// alone).
#[verifier::external_body]
fn write_csv_record(fields: &Vec<String>) -> (r: Result<Vec<u8>, String>)
    ensures
        r is Ok,
        r matches Ok(b) ==> b@ == csv_record_bytes(crate::text::views(fields@)),
{
    let mut writer = csv::Writer::from_writer(Vec::new());
    writer.write_record(fields).map_err(|e| e.to_string())?;
    writer.into_inner().map_err(|e| e.to_string())
}

/// The bytes of the records, one after the other.
pub open spec fn csv_document_bytes(records: Seq<Vec<String>>) -> Seq<u8>
    decreases records.len(),
{
    if records.len() == 0 {
        Seq::empty()
    } else {
        csv_document_bytes(records.drop_last()) + csv_record_bytes(crate::text::views(records.last()@))
    }
}

/// The CSV export of the records (the header first): the bytes of each
/// record in turn.
pub fn csv_document(records: &Vec<Vec<String>>) -> (r: Vec<u8>)
    ensures
        r@ == csv_document_bytes(records@),
{
    let mut out: Vec<u8> = Vec::new();
    assert(records@.take(0) =~= Seq::<Vec<String>>::empty());
    for i in 0..records.len()
        invariant
            out@ == csv_document_bytes(records@.take(i as int)),
    {
        let bytes = match write_csv_record(&records[i]) {
            Ok(b) => b,
            Err(_) => {
                assert(false);
                Vec::new()
            },
        };
        let ghost before = out@;
        for j in 0..bytes.len()
            invariant
                out@ == before + bytes@.take(j as int),
        {
            out.push(bytes[j]);
            assert(out@ =~= before + bytes@.take(j + 1));
        }
        assert(bytes@.take(bytes@.len() as int) =~= bytes@);
        proof {
            let t = records@.take(i + 1);
            assert(t.drop_last() =~= records@.take(i as int));
            assert(t.last() == records@[i as int]);
        }
    }
    assert(records@.take(records@.len() as int) =~= records@);
    out
}

} // verus!

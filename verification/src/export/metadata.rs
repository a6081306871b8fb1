//! Run metadata attached to the machine-readable exports (JSON, CSV): the
//! labels, the start time and the CPU model.
use vstd::prelude::*;
use crate::text::{
    char_views, chars_eq, chars_of, chars_range, decimal, is_ws, lex_lt, lex_lt_exec, lines, lines_exec, push_char,
    push_decimal, push_str, push_zero_padded, string_from_chars, trim, trim_chars, zero_padded,
};

verus! {

/// Information about the invocation that produced an export.
#[derive(Debug, Clone, PartialEq)]
pub struct ExportMetadata {
    pub version: &'static str,
    pub command_line: Vec<String>,
    /// Start of the run, RFC 3339 in UTC
    pub started_at: String,
    /// `--label` pairs, sorted by key
    pub labels: Vec<(String, String)>,
    pub system: SystemInfo,
}

/// Environment the benchmarks ran in. Deliberately no hostname or user name.
#[derive(Debug, Clone, PartialEq)]
pub struct SystemInfo {
    pub os: &'static str,
    pub arch: &'static str,
    pub cpus: usize,
    /// CPU model name, if it can be determined
    pub cpu_model: Option<String>,
    /// Kernel / OS release (e.g. "6.8.0-45-generic", "24.1.0")
    pub kernel: Option<String>,
}

// ------------------------------------------------------------------------
// Labels

/// A character allowed in a label key.
pub open spec fn key_char(c: char) -> bool {
    ('a' <= c <= 'z') || ('A' <= c <= 'Z') || ('0' <= c <= '9') || c == '_' || c == '.' || c == '-'
}

/// The position of the first `c` in `s`.
pub open spec fn find_char(s: Seq<char>, c: char) -> Option<int>
    decreases s.len(),
{
    if s.len() == 0 {
        None
    } else if s[0] == c {
        Some(0)
    } else {
        match find_char(s.skip(1), c) {
            Some(i) => Some(i + 1),
            None => None,
        }
    }
}

/// The labels of `args` in order (key and value), or the first error.
pub open spec fn labels_spec(args: Seq<Seq<char>>) -> Result<Seq<(Seq<char>, Seq<char>)>, Seq<char>>
    decreases args.len(),
{
    if args.len() == 0 {
        Ok(Seq::empty())
    } else {
        match labels_spec(args.drop_last()) {
            Err(m) => Err(m),
            Ok(ls) => {
                let arg = args.last();
                match find_char(arg, '=') {
                    None => Err("Invalid label '"@ + arg + "': expected KEY=VALUE"@),
                    Some(i) => {
                        let key = arg.take(i);
                        let value = arg.skip(i + 1);
                        if key.len() == 0 || !(forall|k: int| 0 <= k < key.len() ==> key_char(#[trigger] key[k])) {
                            Err("Invalid label key '"@ + key + "': use letters, digits, '_', '.' or '-'"@)
                        } else if exists|j: int| 0 <= j < ls.len() && (#[trigger] ls[j]).0 == key {
                            Err("Duplicate label key '"@ + key + "'"@)
                        } else {
                            Ok(ls.push((key, value)))
                        }
                    },
                }
            },
        }
    }
}

/// The views of label pairs.
pub open spec fn label_views(v: Seq<(String, String)>) -> Seq<(Seq<char>, Seq<char>)> {
    v.map_values(|p: (String, String)| (p.0@, p.1@))
}

/// Keys strictly increasing.
pub open spec fn keys_sorted(v: Seq<(Seq<char>, Seq<char>)>) -> bool {
    forall|i: int, j: int| 0 <= i < j < v.len() ==> lex_lt(#[trigger] v[i].0, #[trigger] v[j].0)
}

/// Inserts a pair whose key is not in `v` at its place in key order.
fn insert_label(v: &mut Vec<(String, String)>, key: String, value: String)
    requires
        keys_sorted(label_views(old(v)@)),
        forall|j: int| 0 <= j < old(v)@.len() ==> (#[trigger] old(v)@[j]).0@ != key@,
    ensures
        keys_sorted(label_views(final(v)@)),
        forall|p: (Seq<char>, Seq<char>)| #[trigger] label_views(final(v)@).contains(p)
            <==> (label_views(old(v)@).contains(p) || p == (key@, value@)),
{
    let ghost vv = label_views(v@);
    let kc = chars_of(key.as_str());
    let mut p: usize = 0;
    while p < v.len() && lex_lt_exec(chars_of(v[p].0.as_str()).as_slice(), kc.as_slice())
        invariant
            p <= v@.len(),
            vv == label_views(v@),
            kc@ == key@,
            forall|k: int| 0 <= k < p ==> lex_lt(#[trigger] vv[k].0, key@),
        decreases v.len() - p,
    {
        p += 1;
    }
    proof {
        if p < vv.len() {
            crate::text::lemma_lex_total(vv[p as int].0, key@);
            assert(vv[p as int].0 == v@[p as int].0@);
        }
    }
    v.insert(p, (key, value));
    let ghost nv = label_views(v@);
    assert(nv =~= vv.insert(p as int, (key@, value@)));
    assert forall|i: int, j: int| 0 <= i < j < nv.len() implies lex_lt(#[trigger] nv[i].0, #[trigger] nv[j].0) by {
        if j < p {
        } else if j == p {
        } else if i < p {
            crate::text::lemma_lex_transitive(vv[i].0, key@, vv[p as int].0);
            if j - 1 > p {
                crate::text::lemma_lex_transitive(vv[i].0, vv[p as int].0, vv[j - 1].0);
            }
        } else if i == p {
            if j - 1 > p {
                crate::text::lemma_lex_transitive(key@, vv[p as int].0, vv[j - 1].0);
            }
        }
    }
    assert forall|q: (Seq<char>, Seq<char>)| #[trigger] nv.contains(q) <==> (vv.contains(q) || q == (key@, value@)) by {
        if nv.contains(q) {
            let k = choose|k: int| 0 <= k < nv.len() && nv[k] == q;
            if k < p {
                assert(vv[k] == q);
            } else if k > p {
                assert(vv[k - 1] == q);
            }
        }
        if vv.contains(q) {
            let k = choose|k: int| 0 <= k < vv.len() && vv[k] == q;
            if k < p {
                assert(nv[k] == q);
            } else {
                assert(nv[k + 1] == q);
            }
        }
        if q == (key@, value@) {
            assert(nv[p as int] == q);
        }
    }
}

/// Parse `--label KEY=VALUE` arguments. Keys may contain letters, digits,
/// `_`, `.` and `-`; duplicate keys are rejected. The labels come sorted by
/// key.
pub fn parse_labels(args: &[&str]) -> (r: Result<Vec<(String, String)>, String>)
    ensures
        match labels_spec(args@.map_values(|a: &str| a@)) {
            Err(m) => r matches Err(e) && e@ == m,
            Ok(ls) => r matches Ok(v) && keys_sorted(label_views(v@))
                && forall|p: (Seq<char>, Seq<char>)| #[trigger] label_views(v@).contains(p) <==> ls.contains(p),
        },
{
    let ghost av = args@.map_values(|a: &str| a@);
    let mut labels: Vec<(String, String)> = Vec::new();
    let ghost mut ls: Seq<(Seq<char>, Seq<char>)> = Seq::empty();
    assert(av.take(0) =~= Seq::<Seq<char>>::empty());
    for i in 0..args.len()
        invariant
            av == args@.map_values(|a: &str| a@),
            labels_spec(av.take(i as int)) == Ok::<Seq<(Seq<char>, Seq<char>)>, Seq<char>>(ls),
            keys_sorted(label_views(labels@)),
            forall|p: (Seq<char>, Seq<char>)| #[trigger] label_views(labels@).contains(p) <==> ls.contains(p),
    {
        let ghost t = av.take(i + 1);
        assert(t.drop_last() =~= av.take(i as int));
        assert(t.last() == args@[i as int]@);
        let cs = chars_of(args[i]);
        let mut eq: usize = 0;
        while eq < cs.len() && cs[eq] != '='
            invariant
                eq <= cs@.len(),
                forall|k: int| 0 <= k < eq ==> cs@[k] != '=',
            decreases cs.len() - eq,
        {
            eq += 1;
        }
        proof { lemma_find_char(cs@, '=', eq as int); }
        if eq == cs.len() {
            let mut m = String::new();
            push_str(&mut m, "Invalid label '");
            push_str(&mut m, args[i]);
            push_str(&mut m, "': expected KEY=VALUE");
            proof { lemma_labels_err(av, i + 1); }
            return Err(m);
        }
        let key = chars_range(cs.as_slice(), 0, eq);
        let value = chars_range(cs.as_slice(), eq + 1, cs.len());
        assert(key@ =~= cs@.take(eq as int));
        assert(value@ =~= cs@.skip(eq + 1));
        let mut ok = key.len() > 0;
        let mut k: usize = 0;
        while k < key.len() && ok
            invariant
                k <= key@.len(),
                ok ==> key@.len() > 0 && forall|j: int| 0 <= j < k ==> key_char(#[trigger] key@[j]),
                !ok ==> !(key@.len() > 0 && forall|j: int| 0 <= j < key@.len() ==> key_char(#[trigger] key@[j])),
            decreases key.len() - k + (if ok { 1int } else { 0int }),
        {
            let c = key[k];
            if !(('a' <= c && c <= 'z') || ('A' <= c && c <= 'Z') || ('0' <= c && c <= '9') || c == '_' || c == '.' || c == '-') {
                ok = false;
                assert(!key_char(key@[k as int]));
            }
            k += 1;
        }
        let key_text = string_from_chars(key.as_slice());
        if !ok {
            let mut m = String::new();
            push_str(&mut m, "Invalid label key '");
            push_str(&mut m, key_text.as_str());
            push_str(&mut m, "': use letters, digits, '_', '.' or '-'");
            proof { lemma_labels_err(av, i + 1); }
            return Err(m);
        }
        let mut dup = false;
        let mut j: usize = 0;
        while j < labels.len() && !dup
            invariant
                j <= labels@.len(),
                !dup ==> forall|q: int| 0 <= q < j ==> labels@[q].0@ != key@,
                dup ==> exists|q: int| 0 <= q < labels@.len() && labels@[q].0@ == key@,
            decreases labels.len() - j + (if dup { 0int } else { 1int }),
        {
            if chars_eq(chars_of(labels[j].0.as_str()).as_slice(), key.as_slice()) {
                dup = true;
            }
            j += 1;
        }
        proof {
            if dup {
                let q = choose|q: int| 0 <= q < labels@.len() && labels@[q].0@ == key@;
                assert(label_views(labels@).contains(label_views(labels@)[q]));
                assert(ls.contains(label_views(labels@)[q]));
                let w = choose|w: int| 0 <= w < ls.len() && ls[w] == label_views(labels@)[q];
                assert(ls[w].0 == key@);
            } else {
                assert forall|w: int| 0 <= w < ls.len() implies (#[trigger] ls[w]).0 != key@ by {
                    assert(ls.contains(ls[w]));
                    assert(label_views(labels@).contains(ls[w]));
                    let q = choose|q: int| 0 <= q < labels@.len() && label_views(labels@)[q] == ls[w];
                }
            }
        }
        if dup {
            let mut m = String::new();
            push_str(&mut m, "Duplicate label key '");
            push_str(&mut m, key_text.as_str());
            push_str(&mut m, "'");
            proof { lemma_labels_err(av, i + 1); }
            return Err(m);
        }
        let value_text = string_from_chars(value.as_slice());
        insert_label(&mut labels, key_text, value_text);
        proof {
            let old_ls = ls;
            ls = ls.push((key@, value@));
            assert forall|p: (Seq<char>, Seq<char>)| #[trigger] label_views(labels@).contains(p) <==> ls.contains(p) by {
                if ls.contains(p) {
                    let w = choose|w: int| 0 <= w < ls.len() && ls[w] == p;
                    if w < old_ls.len() {
                        assert(old_ls[w] == p);
                        assert(old_ls.contains(p));
                    }
                }
                if old_ls.contains(p) {
                    let w = choose|w: int| 0 <= w < old_ls.len() && old_ls[w] == p;
                    assert(ls[w] == p);
                }
                if p == (key@, value@) {
                    assert(ls[old_ls.len() as int] == p);
                }
            }
        }
    }
    assert(av.take(args@.len() as int) =~= av);
    Ok(labels)
}

proof fn lemma_find_char(s: Seq<char>, c: char, i: int)
    requires
        0 <= i <= s.len(),
        forall|k: int| 0 <= k < i ==> s[k] != c,
        i < s.len() ==> s[i] == c,
    ensures
        i < s.len() ==> find_char(s, c) == Some(i),
        i == s.len() ==> find_char(s, c) is None,
    decreases s.len(),
{
    if s.len() > 0 && i > 0 {
        lemma_find_char(s.skip(1), c, i - 1);
    }
}

proof fn lemma_labels_err(av: Seq<Seq<char>>, i: int)
    requires
        0 <= i <= av.len(),
        labels_spec(av.take(i)) is Err,
    ensures
        labels_spec(av) == labels_spec(av.take(i)),
    decreases av.len() - i,
{
    if i < av.len() {
        let t = av.take(i + 1);
        assert(t.drop_last() =~= av.take(i));
        lemma_labels_err(av, i + 1);
    } else {
        assert(av.take(i) =~= av);
    }
}

// ------------------------------------------------------------------------
// RFC 3339 dates

pub open spec fn is_leap(y: int) -> bool {
    y % 4 == 0 && (y % 100 != 0 || y % 400 == 0)
}

pub open spec fn year_len(y: int) -> nat {
    if is_leap(y) { 366 } else { 365 }
}

pub open spec fn month_len(y: int, m: nat) -> nat {
    if m == 2 {
        if is_leap(y) { 29 } else { 28 }
    } else if m == 4 || m == 6 || m == 9 || m == 11 {
        30
    } else {
        31
    }
}

/// The year and the day in it (from 0) of the day `d` counted from the
/// first of January of year `y`.
pub open spec fn civil_year(d: nat, y: int) -> (int, nat)
    decreases d,
{
    if d < year_len(y) { (y, d) } else { civil_year((d - year_len(y)) as nat, y + 1) }
}

/// The month (from `m`) and the day in it (from 0) of the day `d` of the
/// year `y`, counted from the first of month `m`.
pub open spec fn civil_month(d: nat, y: int, m: nat) -> (nat, nat)
    decreases 12 - m,
{
    if m >= 12 || d < month_len(y, m) { (m, d) } else { civil_month((d - month_len(y, m)) as nat, y, m + 1) }
}

/// `YYYY-MM-DDTHH:MM:SSZ` for `secs` seconds since the Unix epoch.
pub open spec fn rfc3339(secs: nat) -> Seq<char> {
    let rem = secs % 86400;
    let (y, doy) = civil_year(secs / 86400, 1970);
    let (m, dom) = civil_month(doy, y, 1);
    zero_padded(y as nat, 4) + seq!['-'] + zero_padded(m, 2) + seq!['-'] + zero_padded(dom + 1, 2) + seq!['T']
        + zero_padded(rem / 3600, 2) + seq![':'] + zero_padded((rem % 3600) / 60, 2) + seq![':']
        + zero_padded(rem % 60, 2) + seq!['Z']
}

fn is_leap_exec(y: u64) -> (r: bool)
    ensures
        r == is_leap(y as int),
{
    y % 4 == 0 && (y % 100 != 0 || y % 400 == 0)
}

proof fn lemma_civil_year_bound(d: nat, y: int)
    ensures
        civil_year(d, y).0 <= y + d,
        civil_year(d, y).0 >= y,
    decreases d,
{
    if d >= year_len(y) {
        lemma_civil_year_bound((d - year_len(y)) as nat, y + 1);
    }
}

/// Format seconds since the Unix epoch as `YYYY-MM-DDTHH:MM:SSZ`.
pub fn format_rfc3339_utc(secs: u64) -> (s: String)
    ensures
        s@ == rfc3339(secs as nat),
{
    let mut days = secs / 86_400;
    let rem = secs % 86_400;
    let mut y: u64 = 1970;
    proof { lemma_civil_year_bound(days as nat, 1970); }
    loop
        invariant
            civil_year(days as nat, y as int) == civil_year((secs / 86_400) as nat, 1970),
            y as int + days as int <= 1970 + (secs / 86_400) as int,
        ensures
            civil_year(days as nat, y as int) == civil_year((secs / 86_400) as nat, 1970),
            days < year_len(y as int),
        decreases days,
    {
        let len: u64 = if is_leap_exec(y) { 366 } else { 365 };
        if days < len {
            break;
        }
        days = days - len;
        y = y + 1;
    }
    let mut m: u64 = 1;
    let mut d = days;
    loop
        invariant
            1 <= m <= 12,
            civil_month(d as nat, y as int, m as nat) == civil_month(days as nat, y as int, 1),
            d <= days,
        ensures
            1 <= m <= 12,
            civil_month(d as nat, y as int, m as nat) == civil_month(days as nat, y as int, 1),
            m >= 12 || d < month_len(y as int, m as nat),
        decreases 12 - m,
    {
        let leap = is_leap_exec(y);
        let len: u64 = if m == 2 {
            if leap { 29 } else { 28 }
        } else if m == 4 || m == 6 || m == 9 || m == 11 {
            30
        } else {
            31
        };
        if m >= 12 || d < len {
            break;
        }
        d = d - len;
        m = m + 1;
    }
    let mut s = String::new();
    push_zero_padded(&mut s, y, 4);
    push_char(&mut s, '-');
    push_zero_padded(&mut s, m, 2);
    push_char(&mut s, '-');
    push_zero_padded(&mut s, d + 1, 2);
    push_char(&mut s, 'T');
    push_zero_padded(&mut s, rem / 3600, 2);
    push_char(&mut s, ':');
    push_zero_padded(&mut s, (rem % 3600) / 60, 2);
    push_char(&mut s, ':');
    push_zero_padded(&mut s, rem % 60, 2);
    push_char(&mut s, 'Z');
    s
}

// ------------------------------------------------------------------------
// The CPU model on Linux

/// A `key: value` line split at its first colon.
pub open spec fn colon_split(line: Seq<char>) -> Option<(Seq<char>, Seq<char>)> {
    match find_char(line, ':') {
        Some(i) => Some((line.take(i), line.skip(i + 1))),
        None => None,
    }
}

/// The value of the first line whose key is `name` (trimmed), unless it is
/// empty.
pub open spec fn field_in(ls: Seq<Seq<char>>, name: Seq<char>) -> Option<Seq<char>>
    decreases ls.len(),
{
    if ls.len() == 0 {
        None
    } else {
        match colon_split(ls[0]) {
            Some((k, v)) => if trim(k) == name {
                if trim(v).len() > 0 { Some(trim(v)) } else { None }
            } else {
                field_in(ls.skip(1), name)
            },
            None => field_in(ls.skip(1), name),
        }
    }
}

/// `s` without its leading `0x` prefixes.
pub open spec fn strip_0x(s: Seq<char>) -> Seq<char>
    decreases s.len(),
{
    if s.len() >= 2 && s[0] == '0' && s[1] == 'x' { strip_0x(s.skip(2)) } else { s }
}

/// The value of a hexadecimal digit.
pub open spec fn hex_digit_value(c: char) -> Option<nat> {
    if '0' <= c <= '9' {
        Some((c as nat - '0' as nat) as nat)
    } else if 'a' <= c <= 'f' {
        Some((c as nat - 'a' as nat + 10) as nat)
    } else if 'A' <= c <= 'F' {
        Some((c as nat - 'A' as nat + 10) as nat)
    } else {
        None
    }
}

/// The value of the hexadecimal digits `s`.
pub open spec fn hex_digits_value(s: Seq<char>) -> Option<nat>
    decreases s.len(),
{
    if s.len() == 0 {
        Some(0)
    } else {
        match (hex_digits_value(s.drop_last()), hex_digit_value(s.last())) {
            (Some(a), Some(d)) => Some(a * 16 + d),
            _ => None,
        }
    }
}

/// `u32::from_str_radix(s, 16)`: an optional `+` and at least one digit.
pub open spec fn hex_u32(s: Seq<char>) -> Option<u32> {
    let body = if s.len() > 0 && s[0] == '+' { s.skip(1) } else { s };
    if body.len() == 0 {
        None
    } else {
        match hex_digits_value(body) {
            Some(v) => if v <= u32::MAX { Some(v as u32) } else { None },
            None => None,
        }
    }
}

/// The number of a `CPU implementer` or `CPU part` field.
pub open spec fn hex_field(ls: Seq<Seq<char>>, name: Seq<char>) -> Option<u32> {
    match field_in(ls, name) {
        Some(v) => hex_u32(strip_0x(v)),
        None => None,
    }
}

/// `{n:#0Wx}`: `0x` and the hexadecimal digits, padded with zeros to `w`
/// characters in all.
pub open spec fn alt_hex(n: nat, w: nat) -> Seq<char> {
    "0x"@ + crate::text::pad_left(crate::util::sanitize::hex(n), (w - 2) as nat, '0')
}

/// The vendor of an ARM implementer number.
pub open spec fn vendor_of(implementer: u32) -> Option<Seq<char>> {
    if implementer == 0x41 { Some("ARM"@) }
    else if implementer == 0x42 { Some("Broadcom"@) }
    else if implementer == 0x43 { Some("Cavium"@) }
    else if implementer == 0x46 { Some("Fujitsu"@) }
    else if implementer == 0x48 { Some("HiSilicon"@) }
    else if implementer == 0x4e { Some("NVIDIA"@) }
    else if implementer == 0x51 { Some("Qualcomm"@) }
    else if implementer == 0x53 { Some("Samsung"@) }
    else if implementer == 0x61 { Some("Apple"@) }
    else if implementer == 0x6d { Some("Microsoft"@) }
    else if implementer == 0xc0 { Some("Ampere"@) }
    else { None }
}

/// The core of an implementer and part number.
pub open spec fn core_of(implementer: u32, part: Option<u32>) -> Option<Seq<char>> {
    match part {
        Some(p) => if implementer == 0x41 {
            if p == 0xd03 { Some("Cortex-A53"@) }
            else if p == 0xd05 { Some("Cortex-A55"@) }
            else if p == 0xd07 { Some("Cortex-A57"@) }
            else if p == 0xd08 { Some("Cortex-A72"@) }
            else if p == 0xd0b { Some("Cortex-A76"@) }
            else if p == 0xd0c { Some("Neoverse-N1"@) }
            else if p == 0xd40 { Some("Neoverse-V1"@) }
            else if p == 0xd49 { Some("Neoverse-N2"@) }
            else if p == 0xd4f { Some("Neoverse-V2"@) }
            else { None }
        } else if implementer == 0xc0 && p == 0xac3 {
            Some("Ampere-1"@)
        } else {
            None
        },
        None => None,
    }
}

/// Names for the MIDR implementer and part numbers of common ARM cores.
pub open spec fn arm_name(implementer: u32, part: Option<u32>) -> Seq<char> {
    match vendor_of(implementer) {
        None => "ARM CPU (implementer "@ + alt_hex(implementer as nat, 4) + ")"@,
        Some(vendor) => match core_of(implementer, part) {
            Some(core) => vendor + " "@ + core,
            None => match part {
                Some(p) => vendor + " CPU (part "@ + alt_hex(p as nat, 5) + ")"@,
                None => vendor + " CPU"@,
            },
        },
    }
}

/// `s` without trailing NUL characters.
pub open spec fn strip_nul(s: Seq<char>) -> Seq<char>
    decreases s.len(),
{
    if s.len() > 0 && s.last() == '\0' { strip_nul(s.drop_last()) } else { s }
}

/// The CPU model from `/proc/cpuinfo`: its `model name`, `Model` or
/// `Hardware`; else the device-tree board model; else the names of the CPU
/// implementer and part numbers.
pub open spec fn cpu_model_spec(cpuinfo: Seq<char>, board: Option<Seq<char>>) -> Option<Seq<char>> {
    let ls = lines(cpuinfo);
    if field_in(ls, "model name"@) is Some {
        field_in(ls, "model name"@)
    } else if field_in(ls, "Model"@) is Some {
        field_in(ls, "Model"@)
    } else if field_in(ls, "Hardware"@) is Some {
        field_in(ls, "Hardware"@)
    } else if board matches Some(b) && trim(strip_nul(b)).len() > 0 {
        Some(trim(strip_nul(board->0)))
    } else {
        match hex_field(ls, "CPU implementer"@) {
            Some(imp) => Some(arm_name(imp, hex_field(ls, "CPU part"@))),
            None => None,
        }
    }
}

/// The field `name` of the lines `ls` (see `field_in`).
fn find_field(ls: &Vec<Vec<char>>, name: &str) -> (r: Option<Vec<char>>)
    ensures
        match r {
            Some(v) => field_in(char_views(ls@), name@) == Some(v@),
            None => field_in(char_views(ls@), name@) is None,
        },
{
    let ghost lv = char_views(ls@);
    let nc = chars_of(name);
    assert(lv.skip(0) =~= lv);
    for i in 0..ls.len()
        invariant
            lv == char_views(ls@),
            nc@ == name@,
            field_in(lv, name@) == field_in(lv.skip(i as int), name@),
    {
        let line = &ls[i];
        assert(lv.skip(i as int)[0] == line@);
        assert(lv.skip(i as int).skip(1) =~= lv.skip(i + 1));
        let mut c: usize = 0;
        while c < line.len() && line[c] != ':'
            invariant
                c <= line@.len(),
                forall|k: int| 0 <= k < c ==> line@[k] != ':',
            decreases line.len() - c,
        {
            c += 1;
        }
        proof { lemma_find_char(line@, ':', c as int); }
        if c < line.len() {
            let key = chars_range(line.as_slice(), 0, c);
            let value = chars_range(line.as_slice(), c + 1, line.len());
            assert(key@ =~= line@.take(c as int));
            assert(value@ =~= line@.skip(c + 1));
            let tk = trim_chars(key.as_slice());
            if chars_eq(tk.as_slice(), nc.as_slice()) {
                let tv = trim_chars(value.as_slice());
                if tv.len() > 0 {
                    return Some(tv);
                } else {
                    return None;
                }
            }
        }
    }
    assert(lv.skip(ls@.len() as int) =~= Seq::<Seq<char>>::empty());
    None
}

/// `u32::from_str_radix(s, 16)` after dropping `0x` prefixes.
fn parse_hex(v: &Vec<char>) -> (r: Option<u32>)
    ensures
        r == hex_u32(strip_0x(v@)),
{
    let mut a: usize = 0;
    assert(v@.skip(0) =~= v@);
    while v.len() - a >= 2 && v[a] == '0' && v[a + 1] == 'x'
        invariant
            a <= v@.len(),
            strip_0x(v@) == strip_0x(v@.skip(a as int)),
        decreases v.len() - a,
    {
        assert(v@.skip(a as int).skip(2) =~= v@.skip(a + 2));
        a += 2;
    }
    let body = chars_range(v.as_slice(), a, v.len());
    assert(body@ =~= v@.skip(a as int));
    assert(strip_0x(body@) == body@);
    let mut b: usize = if body.len() > 0 && body[0] == '+' { 1 } else { 0 };
    let ghost digits = body@.skip(b as int);
    if b == body.len() {
        return None;
    }
    let mut value: u64 = 0;
    let start = b;
    assert(body@.skip(0) =~= body@);
    assert(digits == (if body@.len() > 0 && body@[0] == '+' { body@.skip(1) } else { body@ }));
    assert(digits.take(0) =~= Seq::<char>::empty());
    while b < body.len()
        invariant
            strip_0x(v@) == body@,
            start == (if body@.len() > 0 && body@[0] == '+' { 1usize } else { 0usize }),
            start <= b <= body@.len(),
            start < body@.len(),
            digits == body@.skip(start as int),
            digits == (if body@.len() > 0 && body@[0] == '+' { body@.skip(1) } else { body@ }),
            digits.len() > 0,
            hex_digits_value(digits.take(b - start)) == Some(value as nat),
            value <= u32::MAX,
        decreases body.len() - b,
    {
        let c = body[b];
        let d: u64 = if '0' <= c && c <= '9' {
            (c as u32 - '0' as u32) as u64
        } else if 'a' <= c && c <= 'f' {
            (c as u32 - 'a' as u32 + 10) as u64
        } else if 'A' <= c && c <= 'F' {
            (c as u32 - 'A' as u32 + 10) as u64
        } else {
            proof {
                let t = digits.take(b - start + 1);
                assert(t.drop_last() =~= digits.take(b - start));
                assert(t.last() == c);
                lemma_hex_none_extends(digits, b - start + 1);
            }
            return None;
        };
        proof {
            let t = digits.take(b - start + 1);
            assert(t.drop_last() =~= digits.take(b - start));
            assert(t.last() == c);
        }
        let next = value * 16 + d;
        if next > u32::MAX as u64 {
            proof { lemma_hex_big_extends(digits, b - start + 1); }
            return None;
        }
        value = next;
        b += 1;
    }
    assert(digits.take(body@.len() - start) =~= digits);
    Some(value as u32)
}

proof fn lemma_hex_none_extends(s: Seq<char>, i: int)
    requires
        0 <= i <= s.len(),
        hex_digits_value(s.take(i)) is None,
    ensures
        hex_digits_value(s) is None,
    decreases s.len() - i,
{
    if i < s.len() {
        let t = s.take(i + 1);
        assert(t.drop_last() =~= s.take(i));
        lemma_hex_none_extends(s, i + 1);
    } else {
        assert(s.take(i) =~= s);
    }
}

proof fn lemma_hex_big_extends(s: Seq<char>, i: int)
    requires
        0 <= i <= s.len(),
        hex_digits_value(s.take(i)) matches Some(v) && v > u32::MAX,
    ensures
        !(hex_digits_value(s) matches Some(v) && v <= u32::MAX),
    decreases s.len() - i,
{
    if i < s.len() {
        let t = s.take(i + 1);
        assert(t.drop_last() =~= s.take(i));
        if hex_digits_value(t) is None {
            lemma_hex_none_extends(s, i + 1);
        } else {
            lemma_hex_big_extends(s, i + 1);
        }
    } else {
        assert(s.take(i) =~= s);
    }
}

/// Appends `{n:#0Wx}`.
fn push_alt_hex(s: &mut String, n: u32, w: usize)
    requires
        w == 4 || w == 5,
    ensures
        final(s)@ == old(s)@ + alt_hex(n as nat, w as nat),
{
    push_str(s, "0x");
    let mut digits = String::new();
    crate::util::sanitize::push_hex(&mut digits, n);
    let dc = chars_of(digits.as_str());
    let mut k = dc.len();
    let ghost start = s@;
    while k < w - 2
        invariant
            w == 4 || w == 5,
            dc.len() <= k <= w - 2 || (k == dc.len() && dc.len() >= w - 2),
            s@ == start + Seq::new((k - dc@.len()) as nat, |_i: int| '0'),
        decreases w - 2 - k,
    {
        push_char(s, '0');
        k += 1;
        assert(s@ =~= start + Seq::new((k - dc@.len()) as nat, |_i: int| '0'));
    }
    push_str(s, digits.as_str());
    proof { reveal_strlit("0x"); }
    if dc.len() >= w - 2 {
        assert(Seq::new(0nat, |_i: int| '0') =~= Seq::<char>::empty());
        assert(s@ =~= start + crate::util::sanitize::hex(n as nat));
    } else {
        assert(s@ =~= start + (Seq::new((w - 2 - dc@.len()) as nat, |_i: int| '0') + crate::util::sanitize::hex(n as nat)));
    }
}

/// Names for the MIDR implementer and part numbers of common ARM cores.
pub fn arm_cpu_name(implementer: u32, part: Option<u32>) -> (r: String)
    ensures
        r@ == arm_name(implementer, part),
{
    let mut r = String::new();
    let vendor: &str = if implementer == 0x41 { "ARM" }
        else if implementer == 0x42 { "Broadcom" }
        else if implementer == 0x43 { "Cavium" }
        else if implementer == 0x46 { "Fujitsu" }
        else if implementer == 0x48 { "HiSilicon" }
        else if implementer == 0x4e { "NVIDIA" }
        else if implementer == 0x51 { "Qualcomm" }
        else if implementer == 0x53 { "Samsung" }
        else if implementer == 0x61 { "Apple" }
        else if implementer == 0x6d { "Microsoft" }
        else if implementer == 0xc0 { "Ampere" }
        else {
            push_str(&mut r, "ARM CPU (implementer ");
            push_alt_hex(&mut r, implementer, 4);
            push_str(&mut r, ")");
            return r;
        };
    let core: Option<&str> = match part {
        Some(p) => if implementer == 0x41 {
            if p == 0xd03 { Some("Cortex-A53") }
            else if p == 0xd05 { Some("Cortex-A55") }
            else if p == 0xd07 { Some("Cortex-A57") }
            else if p == 0xd08 { Some("Cortex-A72") }
            else if p == 0xd0b { Some("Cortex-A76") }
            else if p == 0xd0c { Some("Neoverse-N1") }
            else if p == 0xd40 { Some("Neoverse-V1") }
            else if p == 0xd49 { Some("Neoverse-N2") }
            else if p == 0xd4f { Some("Neoverse-V2") }
            else { None }
        } else if implementer == 0xc0 && p == 0xac3 {
            Some("Ampere-1")
        } else {
            None
        },
        None => None,
    };
    push_str(&mut r, vendor);
    match core {
        Some(c) => {
            push_str(&mut r, " ");
            push_str(&mut r, c);
        },
        None => match part {
            Some(p) => {
                push_str(&mut r, " CPU (part ");
                push_alt_hex(&mut r, p, 5);
                push_str(&mut r, ")");
            },
            None => push_str(&mut r, " CPU"),
        },
    }
    r
}

/// The CPU model from `/proc/cpuinfo` (and the device-tree board model, if
/// there is one). On ARM, where there is no model name, fall back to the
/// board model, then to the CPU implementer and part numbers (like `lscpu`).
pub fn linux_cpu_model(cpuinfo: &str, device_tree_model: Option<&str>) -> (r: Option<String>)
    ensures
        crate::command::opt_view(r) == cpu_model_spec(cpuinfo@, crate::parameter::str_opt_view(device_tree_model)),
{
    let cs = chars_of(cpuinfo);
    let ls = lines_exec(cs.as_slice());
    match find_field(&ls, "model name") {
        Some(v) => return Some(string_from_chars(v.as_slice())),
        None => {},
    }
    match find_field(&ls, "Model") {
        Some(v) => return Some(string_from_chars(v.as_slice())),
        None => {},
    }
    match find_field(&ls, "Hardware") {
        Some(v) => return Some(string_from_chars(v.as_slice())),
        None => {},
    }
    match device_tree_model {
        Some(m) => {
            let mc = chars_of(m);
            let mut e = mc.len();
            assert(mc@.take(e as int) =~= mc@);
            while e > 0 && mc[e - 1] == '\0'
                invariant
                    e <= mc@.len(),
                    strip_nul(mc@) == strip_nul(mc@.take(e as int)),
                decreases e,
            {
                assert(mc@.take(e as int).drop_last() =~= mc@.take(e - 1));
                e -= 1;
            }
            let kept = chars_range(mc.as_slice(), 0, e);
            assert(kept@ =~= mc@.take(e as int));
            let t = trim_chars(kept.as_slice());
            if t.len() > 0 {
                return Some(string_from_chars(t.as_slice()));
            }
        },
        None => {},
    }
    let imp = match find_field(&ls, "CPU implementer") {
        Some(v) => parse_hex(&v),
        None => None,
    };
    match imp {
        None => None,
        Some(i) => {
            let part = match find_field(&ls, "CPU part") {
                Some(v) => parse_hex(&v),
                None => None,
            };
            Some(arm_cpu_name(i, part))
        },
    }
}

} // verus!

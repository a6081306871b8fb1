//! `--affinity`: pin benchmarked processes to a set of CPUs.
use vstd::prelude::*;
use crate::text::{char_views, chars_of, chars_range, is_digit, push_decimal, push_str, split_char, split_chars, string_from_chars, trim, trim_chars, unsigned_value};
use crate::util::platform::Os;

verus! {

/// `usize::from_str`.
pub open spec fn usize_of(s: Seq<char>) -> Option<nat> {
    match unsigned_value(s) {
        Some(v) => if v <= usize::MAX { Some(v) } else { None },
        None => None,
    }
}

/// The position of the first `-` in `s`, if any.
pub open spec fn dash_at(s: Seq<char>) -> Option<int>
    decreases s.len(),
{
    if s.len() == 0 {
        None
    } else if s[0] == '-' {
        Some(0)
    } else {
        match dash_at(s.skip(1)) {
            Some(i) => Some(i + 1),
            None => None,
        }
    }
}

/// `invalid CPU '{cpu}' in '{list}'`
pub open spec fn invalid_cpu(cpu: Seq<char>, list: Seq<char>) -> Seq<char> {
    "invalid CPU '"@ + cpu + "' in '"@ + list + "'"@
}

/// The range of CPUs of one entry of `list` (a number or `first-last`), or
/// the error message.
pub open spec fn cpu_entry(part: Seq<char>, list: Seq<char>) -> Result<(nat, nat), Seq<char>> {
    let t = trim(part);
    if t.len() == 0 {
        Err("empty entry in CPU list '"@ + list + "'"@)
    } else {
        match dash_at(t) {
            Some(i) => {
                let first = t.take(i);
                let last = t.skip(i + 1);
                match usize_of(trim(first)) {
                    None => Err(invalid_cpu(first, list)),
                    Some(a) => match usize_of(trim(last)) {
                        None => Err(invalid_cpu(last, list)),
                        Some(b) => if a <= b {
                            Ok((a, b))
                        } else {
                            Err("invalid CPU range '"@ + t + "' in '"@ + list + "'"@)
                        },
                    },
                }
            },
            None => match usize_of(t) {
                None => Err(invalid_cpu(t, list)),
                Some(v) => Ok((v, v)),
            },
        }
    }
}

/// The ranges of the entries `parts`, or the error of the first invalid one.
pub open spec fn cpu_ranges(parts: Seq<Seq<char>>, list: Seq<char>) -> Result<Seq<(nat, nat)>, Seq<char>>
    decreases parts.len(),
{
    if parts.len() == 0 {
        Ok(Seq::empty())
    } else {
        match cpu_ranges(parts.drop_last(), list) {
            Err(m) => Err(m),
            Ok(rs) => match cpu_entry(parts.last(), list) {
                Err(m) => Err(m),
                Ok(r) => Ok(rs.push(r)),
            },
        }
    }
}

/// The number of CPUs the ranges name, with repetitions.
pub open spec fn ranges_size(rs: Seq<(nat, nat)>) -> nat
    decreases rs.len(),
{
    if rs.len() == 0 {
        0
    } else {
        ranges_size(rs.drop_last()) + (rs.last().1 - rs.last().0 + 1) as nat
    }
}

/// `x` is in one of the ranges.
pub open spec fn in_ranges(rs: Seq<(nat, nat)>, x: nat) -> bool {
    exists|k: int| 0 <= k < rs.len() && (#[trigger] rs[k]).0 <= x <= rs[k].1
}

/// Strictly increasing.
pub open spec fn increasing(v: Seq<usize>) -> bool {
    forall|i: int, j: int| 0 <= i < j < v.len() ==> v[i] < v[j]
}

/// `usize::from_str` on characters.
fn parse_usize_chars(cs: &Vec<char>) -> (r: Option<usize>)
    ensures
        r matches Some(v) ==> usize_of(cs@) == Some(v as nat),
        r is None ==> usize_of(cs@) is None,
{
    let s = string_from_chars(cs.as_slice());
    match crate::text::parse_usize(s.as_str()) {
        Some(v) => Some(v),
        None => None,
    }
}

/// The error message `invalid CPU '{cpu}' in '{list}'`.
fn invalid_cpu_message(cpu: &Vec<char>, list: &str) -> (m: String)
    ensures
        m@ == invalid_cpu(cpu@, list@),
{
    let mut m = String::new();
    push_str(&mut m, "invalid CPU '");
    let c = string_from_chars(cpu.as_slice());
    push_str(&mut m, c.as_str());
    push_str(&mut m, "' in '");
    push_str(&mut m, list);
    push_str(&mut m, "'");
    m
}

/// The range of one entry (see `cpu_entry`).
fn parse_entry(part: &Vec<char>, list: &str) -> (r: Result<(usize, usize), String>)
    ensures
        match cpu_entry(part@, list@) {
            Err(m) => r matches Err(e) && e@ == m,
            Ok((a, b)) => r matches Ok((x, y)) && x == a && y == b,
        },
{
    let t = trim_chars(part.as_slice());
    if t.len() == 0 {
        let mut m = String::new();
        push_str(&mut m, "empty entry in CPU list '");
        push_str(&mut m, list);
        push_str(&mut m, "'");
        return Err(m);
    }
    let mut i: usize = 0;
    while i < t.len() && t[i] != '-'
        invariant
            i <= t@.len(),
            forall|k: int| 0 <= k < i ==> t@[k] != '-',
        decreases t.len() - i,
    {
        i += 1;
    }
    proof { lemma_dash_at(t@, i as int); }
    if i < t.len() {
        let first = chars_range(t.as_slice(), 0, i);
        let last = chars_range(t.as_slice(), i + 1, t.len());
        assert(first@ =~= t@.take(i as int));
        assert(last@ =~= t@.skip(i + 1));
        let a = match parse_usize_chars(&trim_chars(first.as_slice())) {
            Some(a) => a,
            None => return Err(invalid_cpu_message(&first, list)),
        };
        let b = match parse_usize_chars(&trim_chars(last.as_slice())) {
            Some(b) => b,
            None => return Err(invalid_cpu_message(&last, list)),
        };
        if a > b {
            let mut m = String::new();
            push_str(&mut m, "invalid CPU range '");
            let ts = string_from_chars(t.as_slice());
            push_str(&mut m, ts.as_str());
            push_str(&mut m, "' in '");
            push_str(&mut m, list);
            push_str(&mut m, "'");
            return Err(m);
        }
        Ok((a, b))
    } else {
        match parse_usize_chars(&t) {
            Some(v) => Ok((v, v)),
            None => Err(invalid_cpu_message(&t, list)),
        }
    }
}

proof fn lemma_dash_at(t: Seq<char>, i: int)
    requires
        0 <= i <= t.len(),
        forall|k: int| 0 <= k < i ==> t[k] != '-',
        i < t.len() ==> t[i] == '-',
    ensures
        i < t.len() ==> dash_at(t) == Some(i),
        i == t.len() ==> dash_at(t) is None,
    decreases t.len(),
{
    if t.len() > 0 && i > 0 {
        lemma_dash_at(t.skip(1), i - 1);
    }
}

/// Inserts `x` into the increasing `v`, unless it is there.
fn insert_cpu(v: &mut Vec<usize>, x: usize)
    requires
        increasing(old(v)@),
    ensures
        increasing(final(v)@),
        forall|y: usize| #[trigger] final(v)@.contains(y) <==> (old(v)@.contains(y) || y == x),
{
    let ghost vv = v@;
    let mut p: usize = 0;
    while p < v.len() && v[p] < x
        invariant
            p <= v@.len(),
            vv == v@,
            forall|k: int| 0 <= k < p ==> v@[k] < x,
        decreases v.len() - p,
    {
        p += 1;
    }
    if p < v.len() && v[p] == x {
        assert(vv.contains(x));
        return;
    }
    v.insert(p, x);
    assert(v@ =~= vv.insert(p as int, x));
    assert forall|y: usize| #[trigger] v@.contains(y) <==> (vv.contains(y) || y == x) by {
        if v@.contains(y) {
            let k = choose|k: int| 0 <= k < v@.len() && v@[k] == y;
            if k < p {
                assert(vv[k] == y);
            } else if k > p {
                assert(vv[k - 1] == y);
            }
        }
        if vv.contains(y) {
            let k = choose|k: int| 0 <= k < vv.len() && vv[k] == y;
            if k < p {
                assert(v@[k] == y);
            } else {
                assert(v@[k + 1] == y);
            }
        }
        if y == x {
            assert(v@[p as int] == y);
        }
    }
}

/// Parse a CPU list such as `2`, `0-3` or `0,2,4-5` into sorted, unique CPU
/// indices.
pub fn parse_cpu_list(list: &str) -> (r: Result<Vec<usize>, String>)
    requires
        cpu_ranges(split_char(list@, ','), list@) matches Ok(rs) ==> ranges_size(rs) <= usize::MAX,
    ensures
        match cpu_ranges(split_char(list@, ','), list@) {
            Err(m) => r matches Err(e) && e@ == m,
            Ok(rs) => r matches Ok(v) && increasing(v@)
                && forall|x: usize| #[trigger] v@.contains(x) <==> in_ranges(rs, x as nat),
        },
{
    let cs = chars_of(list);
    let parts = split_chars(cs.as_slice(), ',');
    let ghost pv = char_views(parts@);
    let mut cpus: Vec<usize> = Vec::new();
    let ghost mut rs: Seq<(nat, nat)> = Seq::empty();
    for i in 0..parts.len()
        invariant
            pv == char_views(parts@),
            pv == split_char(list@, ','),
            cpu_ranges(pv.take(i as int), list@) == Ok::<Seq<(nat, nat)>, Seq<char>>(rs),
            increasing(cpus@),
            forall|x: usize| #[trigger] cpus@.contains(x) <==> in_ranges(rs, x as nat),
    {
        let ghost t = pv.take(i + 1);
        assert(t.drop_last() =~= pv.take(i as int));
        assert(t.last() == parts@[i as int]@);
        match parse_entry(&parts[i], list) {
            Err(m) => {
                proof { lemma_ranges_err_extends(pv, i + 1, list@); }
                return Err(m);
            },
            Ok((a, b)) => {
                let ghost old_rs = rs;
                let mut x = a;
                loop
                    invariant_except_break
                        forall|y: usize| #[trigger] cpus@.contains(y) <==> (in_ranges(old_rs, y as nat) || (a <= y < x)),
                    invariant
                        a <= x <= b,
                        increasing(cpus@),
                    ensures
                        increasing(cpus@),
                        forall|y: usize| #[trigger] cpus@.contains(y) <==> (in_ranges(old_rs, y as nat) || (a <= y <= b)),
                    decreases b - x,
                {
                    insert_cpu(&mut cpus, x);
                    if x == b {
                        break;
                    }
                    x += 1;
                }
                proof {
                    rs = old_rs.push((a as nat, b as nat));
                    assert forall|y: usize| #[trigger] cpus@.contains(y) <==> in_ranges(rs, y as nat) by {
                        if in_ranges(old_rs, y as nat) {
                            let k = choose|k: int| 0 <= k < old_rs.len() && (#[trigger] old_rs[k]).0 <= y <= old_rs[k].1;
                            assert(rs[k] == old_rs[k]);
                        }
                        if a <= y <= b {
                            assert(rs[old_rs.len() as int] == (a as nat, b as nat));
                        }
                        if in_ranges(rs, y as nat) {
                            let k = choose|k: int| 0 <= k < rs.len() && (#[trigger] rs[k]).0 <= y <= rs[k].1;
                            if k < old_rs.len() {
                                assert(old_rs[k] == rs[k]);
                            }
                        }
                    }
                }
            },
        }
    }
    assert(pv.take(parts@.len() as int) =~= pv);
    Ok(cpus)
}

proof fn lemma_ranges_err_extends(pv: Seq<Seq<char>>, i: int, list: Seq<char>)
    requires
        0 <= i <= pv.len(),
        cpu_ranges(pv.take(i), list) is Err,
    ensures
        cpu_ranges(pv, list) == cpu_ranges(pv.take(i), list),
    decreases pv.len() - i,
{
    if i < pv.len() {
        let t = pv.take(i + 1);
        assert(t.drop_last() =~= pv.take(i));
        lemma_ranges_err_extends(pv, i + 1, list);
    } else {
        assert(pv.take(i) =~= pv);
    }
}

/// Check that the CPUs exist (the system has `available` of them) and that
/// pinning is supported on this platform.
pub fn validate(cpus: &[usize], os: Os, available: usize) -> (r: Result<(), String>)
    requires
        available >= 1,
    ensures
        !(os == Os::Linux || os == Os::Windows) ==> (r matches Err(m)
            && m@ == "'--affinity' is only supported on Linux and Windows (this OS has no API to pin a process to CPUs)"@),
        (os == Os::Linux || os == Os::Windows) ==> {
            (exists|i: int| 0 <= i < cpus@.len() && cpus@[i] >= available) ==> (r matches Err(m) && exists|i: int|
                0 <= i < cpus@.len() && cpus@[i] >= available
                && (forall|k: int| 0 <= k < i ==> cpus@[k] < available)
                && m@ == "CPU "@ + crate::text::decimal(cpus@[i] as nat) + " does not exist: this system has CPUs 0-"@
                    + crate::text::decimal((available - 1) as nat))
        },
        (os == Os::Linux || os == Os::Windows) && (forall|i: int| 0 <= i < cpus@.len() ==> cpus@[i] < available) ==> {
            if os == Os::Windows && exists|i: int| 0 <= i < cpus@.len() && cpus@[i] >= usize::BITS {
                r matches Err(m) && m@ == "'--affinity' supports CPUs 0-"@ + crate::text::decimal((usize::BITS - 1) as nat) + " on Windows"@
            } else {
                r is Ok
            }
        },
{
    if !(os == Os::Linux || os == Os::Windows) {
        let mut m = String::new();
        push_str(&mut m, "'--affinity' is only supported on Linux and Windows (this OS has no API to pin a process to CPUs)");
        return Err(m);
    }
    for i in 0..cpus.len()
        invariant
            available >= 1,
            os == Os::Linux || os == Os::Windows,
            forall|k: int| 0 <= k < i ==> cpus@[k] < available,
    {
        if cpus[i] >= available {
            let mut m = String::new();
            push_str(&mut m, "CPU ");
            push_decimal(&mut m, cpus[i] as u64);
            push_str(&mut m, " does not exist: this system has CPUs 0-");
            push_decimal(&mut m, (available - 1) as u64);
            return Err(m);
        }
    }
    if os == Os::Windows {
        for i in 0..cpus.len()
            invariant
                os == Os::Windows,
                forall|k: int| 0 <= k < cpus@.len() ==> cpus@[k] < available,
                forall|k: int| 0 <= k < i ==> cpus@[k] < usize::BITS,
        {
            if cpus[i] >= usize::BITS as usize {
                let mut m = String::new();
                push_str(&mut m, "'--affinity' supports CPUs 0-");
                push_decimal(&mut m, (usize::BITS - 1) as u64);
                push_str(&mut m, " on Windows");
                return Err(m);
            }
        }
    }
    Ok(())
}

/// The bit mask with the bits of `cpus` set.
pub open spec fn cpu_mask(cpus: Seq<usize>) -> usize
    decreases cpus.len(),
{
    if cpus.len() == 0 {
        0
    } else {
        cpu_mask(cpus.drop_last()) | (1usize << cpus.last())
    }
}

/// Affinity mask for `SetProcessAffinityMask` (Windows).
pub fn windows_mask(cpus: &[usize]) -> (mask: usize)
    requires
        forall|i: int| 0 <= i < cpus@.len() ==> cpus@[i] < usize::BITS,
    ensures
        mask == cpu_mask(cpus@),
{
    let mut mask: usize = 0;
    for i in 0..cpus.len()
        invariant
            forall|k: int| 0 <= k < cpus@.len() ==> cpus@[k] < usize::BITS,
            mask == cpu_mask(cpus@.take(i as int)),
    {
        let ghost t = cpus@.take(i + 1);
        assert(t.drop_last() =~= cpus@.take(i as int));
        mask = mask | (1usize << cpus[i]);
    }
    assert(cpus@.take(cpus@.len() as int) =~= cpus@);
    mask
}

proof fn lemma_or_bit(x: usize, c: usize, b: usize)
    requires
        c < usize::BITS,
        b < usize::BITS,
    ensures
        (((x | (1usize << c)) >> b) & 1usize == 1usize) <==> (((x >> b) & 1usize == 1usize) || b == c),
{
    assert((((x | (1usize << c)) >> b) & 1usize == 1usize) <==> (((x >> b) & 1usize == 1usize) || b == c))
        by (bit_vector)
        requires
            c < usize::BITS,
            b < usize::BITS,
    ;
}

/// Bit `b` of the affinity mask is set exactly when CPU `b` is in the list.
pub proof fn lemma_cpu_mask_bits(cpus: Seq<usize>, b: usize)
    requires
        forall|i: int| 0 <= i < cpus.len() ==> cpus[i] < usize::BITS,
        b < usize::BITS,
    ensures
        (((cpu_mask(cpus) >> b) & 1usize) == 1usize) <==> cpus.contains(b),
    decreases cpus.len(),
{
    if cpus.len() == 0 {
        assert(((0usize >> b) & 1usize) == 0usize) by (bit_vector);
    } else {
        let rest = cpus.drop_last();
        lemma_cpu_mask_bits(rest, b);
        lemma_or_bit(cpu_mask(rest), cpus.last(), b);
        if cpus.contains(b) && !rest.contains(b) {
            let k = choose|k: int| 0 <= k < cpus.len() && cpus[k] == b;
            if k < cpus.len() - 1 {
                assert(rest[k] == b);
            }
        }
        if rest.contains(b) {
            let k = choose|k: int| 0 <= k < rest.len() && rest[k] == b;
            assert(cpus[k] == b);
        }
    }
}

} // verus!

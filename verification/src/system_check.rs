//! `--check-system`: report environment conditions that make benchmark results
//! noisy or irreproducible (CPU frequency scaling, turbo boost, load, battery,
//! thermal throttling) before benchmarking, with a hint for each problem.
use vstd::prelude::*;
use crate::text::{char_views, chars_eq, chars_of, contains_exec, contains_seq, is_ws, is_ws_exec, lines, lines_exec, parse_u64, push_decimal, push_str, split_char, split_chars, string_from_chars, trim, trim_chars, views};

verus! {

#[derive(Debug, Clone, Copy, PartialEq, Eq, Structural)]
pub enum Status {
    /// Nothing to worry about
    Pass,
    /// A condition that often adds noise (load, battery, heat)
    Warn,
    /// A setting that is known to add noise (frequency scaling, turbo boost)
    Fail,
}

#[derive(Debug, Clone, PartialEq, Eq)]
pub struct Check {
    pub name: &'static str,
    pub status: Status,
    pub detail: String,
    pub hint: Option<String>,
}

impl Check {
    pub fn new(name: &'static str, status: Status, detail: String) -> (c: Check)
        ensures
            c.name == name,
            c.status == status,
            c.detail == detail,
            c.hint is None,
    {
        Check { name, status, detail, hint: None }
    }

    /// The hint is kept only for a check that did not pass.
    pub fn with_hint(self, hint: String) -> (c: Check)
        ensures
            c.name == self.name,
            c.status == self.status,
            c.detail == self.detail,
            c.hint == if self.status == Status::Pass { self.hint } else { Some(hint) },
    {
        if self.status != Status::Pass {
            Check { hint: Some(hint), ..self }
        } else {
            self
        }
    }

    /// The line of the report (`Display`), with the symbol of the status:
    /// the name padded to 16 characters, the detail and the hint.
    pub fn line(&self, symbol: &str) -> (s: String)
        ensures
            s@ == check_line(*self, symbol@),
    {
        let mut s = String::new();
        push_str(&mut s, "  ");
        push_str(&mut s, symbol);
        push_str(&mut s, " ");
        push_str(&mut s, self.name);
        let n = chars_of(self.name).len();
        let mut k = n;
        let ghost start = s@;
        while k < 16
            invariant
                n <= k <= 16 || (k == n && n >= 16),
                n == self.name@.len(),
                s@ == start + Seq::new((k - n) as nat, |_i: int| ' '),
            decreases 16 - k,
        {
            crate::text::push_char(&mut s, ' ');
            k += 1;
            assert(s@ =~= start + Seq::new((k - n) as nat, |_i: int| ' '));
        }
        proof {
            if n >= 16 {
                assert(Seq::new(0nat, |_i: int| ' ') =~= Seq::<char>::empty());
            }
        }
        let ghost before = s@;
        push_str(&mut s, " ");
        push_str(&mut s, self.detail.as_str());
        match &self.hint {
            Some(h) => {
                push_str(&mut s, "  → ");
                push_str(&mut s, h.as_str());
            },
            None => {},
        }
        s
    }
}

/// The line of a check in the report.
pub open spec fn check_line(c: Check, symbol: Seq<char>) -> Seq<char> {
    "  "@ + symbol + " "@ + pad_right(c.name@, 16) + " "@ + c.detail@
        + match c.hint { Some(h) => "  → "@ + h@, None => Seq::empty() }
}

/// `s` padded on the right with spaces to at least `w` characters.
pub open spec fn pad_right(s: Seq<char>, w: nat) -> Seq<char> {
    if s.len() >= w { s } else { s + Seq::new((w - s.len()) as nat, |_i: int| ' ') }
}

/// The symbol of a status.
pub open spec fn symbol_of(st: Status, symbols: Seq<&str>) -> Seq<char> {
    match st {
        Status::Pass => symbols[0]@,
        Status::Warn => symbols[1]@,
        Status::Fail => symbols[2]@,
    }
}

/// The lines of the checks (each ends with a newline).
pub open spec fn report_lines(checks: Seq<Check>, symbols: Seq<&str>) -> Seq<char>
    decreases checks.len(),
{
    if checks.len() == 0 {
        Seq::empty()
    } else {
        let c = checks.last();
        report_lines(checks.drop_last(), symbols) + check_line(c, symbol_of(c.status, symbols)) + "\n"@
    }
}

/// The report shown before benchmarking, with the symbols (in the terminal's
/// colors) for passed, warned and failed checks.
pub fn report(checks: &[Check], symbols: &[&str; 3]) -> (s: String)
    ensures
        s@ == "System check:\n"@ + (if checks@.len() == 0 { "  (no checks are available on this platform)\n"@ } else { Seq::empty() })
            + report_lines(checks@, symbols@),
{
    let mut s = String::new();
    push_str(&mut s, "System check:\n");
    if checks.len() == 0 {
        push_str(&mut s, "  (no checks are available on this platform)\n");
    }
    let ghost start = s@;
    assert(checks@.take(0) =~= Seq::<Check>::empty());
    for i in 0..checks.len()
        invariant
            s@ == start + report_lines(checks@.take(i as int), symbols@),
    {
        let c = &checks[i];
        let symbol = match c.status {
            Status::Pass => symbols[0],
            Status::Warn => symbols[1],
            Status::Fail => symbols[2],
        };
        let line = c.line(symbol);
        let ghost before = s@;
        push_str(&mut s, line.as_str());
        push_str(&mut s, "\n");
        proof {
            let t = checks@.take(i + 1);
            assert(t.drop_last() =~= checks@.take(i as int));
            assert(t.last() == *c);
            assert(symbol@ == symbol_of(c.status, symbols@));
            assert(report_lines(t, symbols@) == report_lines(checks@.take(i as int), symbols@)
                + check_line(*c, symbol@) + "\n"@);
            assert(s@ =~= before + line@ + "\n"@);
        }
        assert(s@ =~= start + report_lines(checks@.take(i + 1), symbols@));
    }
    assert(checks@.take(checks@.len() as int) =~= checks@);
    s
}

/// Whether every check passed.
pub fn all_passed(checks: &[Check]) -> (r: bool)
    ensures
        r == forall|i: int| 0 <= i < checks@.len() ==> (#[trigger] checks@[i]).status == Status::Pass,
{
    for i in 0..checks.len()
        invariant
            forall|k: int| 0 <= k < i ==> (#[trigger] checks@[k]).status == Status::Pass,
    {
        if checks[i].status != Status::Pass {
            return false;
        }
    }
    true
}

// ------------------------------------------------------------------------
// CPU governors

/// How often `g` occurs in `gs`.
pub open spec fn count_in(gs: Seq<Seq<char>>, g: Seq<char>) -> nat
    decreases gs.len(),
{
    if gs.len() == 0 { 0 } else { count_in(gs.drop_last(), g) + if gs.last() == g { 1nat } else { 0nat } }
}

/// The distinct values of `gs`, in the order of their first occurrence.
pub open spec fn distinct_firsts(gs: Seq<Seq<char>>) -> Seq<Seq<char>>
    decreases gs.len(),
{
    if gs.len() == 0 {
        Seq::empty()
    } else {
        let d = distinct_firsts(gs.drop_last());
        if d.contains(gs.last()) { d } else { d.push(gs.last()) }
    }
}

/// `powersave on 6 CPUs, performance on 2 CPUs`
pub open spec fn governor_text(names: Seq<Seq<char>>, gs: Seq<Seq<char>>) -> Seq<char>
    decreases names.len(),
{
    if names.len() == 0 {
        Seq::empty()
    } else {
        let g = names.last();
        let n = count_in(gs, g);
        let part = g + " on "@ + crate::text::decimal(n) + " CPU"@ + (if n == 1 { Seq::empty() } else { "s"@ });
        if names.len() == 1 { part } else { governor_text(names.drop_last(), gs) + ", "@ + part }
    }
}

proof fn lemma_count_bound(gs: Seq<Seq<char>>, g: Seq<char>)
    ensures
        count_in(gs, g) <= gs.len(),
    decreases gs.len(),
{
    if gs.len() > 0 {
        lemma_count_bound(gs.drop_last(), g);
    }
}

/// All CPUs should use the `performance` governor.
pub fn governor_check(governors: &[String]) -> (r: Option<Check>)
    ensures
        governors@.len() == 0 <==> r is None,
        r matches Some(c) ==> c.name@ == "CPU governor"@
            && c.detail@ == governor_text(distinct_firsts(views(governors@)), views(governors@))
            && (c.status == if (forall|i: int| 0 <= i < governors@.len() ==> (#[trigger] governors@[i])@ == "performance"@) {
                Status::Pass } else { Status::Fail })
            && (c.hint is Some <==> c.status != Status::Pass)
            && (c.hint matches Some(h) ==> h@ == "sudo cpupower frequency-set -g performance"@),
{
    if governors.len() == 0 {
        return None;
    }
    let ghost gs = views(governors@);
    let mut names: Vec<String> = Vec::new();
    let mut counts: Vec<usize> = Vec::new();
    assert(gs.take(0) =~= Seq::<Seq<char>>::empty());
    for i in 0..governors.len()
        invariant
            gs == views(governors@),
            views(names@) == distinct_firsts(gs.take(i as int)),
            counts@.len() == names@.len(),
            forall|k: int| 0 <= k < counts@.len() ==> counts@[k] == count_in(gs.take(i as int), #[trigger] views(names@)[k]),
            forall|k: int| 0 <= k < counts@.len() ==> counts@[k] <= i,
    {
        let ghost t = gs.take(i + 1);
        assert(t.drop_last() =~= gs.take(i as int));
        assert(t.last() == governors@[i as int]@);
        let g = &governors[i];
        let mut k: usize = 0;
        let mut found = false;
        while k < names.len() && !found
            invariant
                k <= names@.len(),
                !found ==> forall|q: int| 0 <= q < k ==> views(names@)[q] != g@,
                found ==> k >= 1 && views(names@)[k - 1] == g@,
            decreases names.len() - k + (if found { 0int } else { 1int }),
        {
            if names[k] == *g {
                found = true;
            }
            k += 1;
        }
        let ghost old_names = views(names@);
        let ghost old_counts = counts@;
        if found {
            counts.set(k - 1, counts[k - 1] + 1);
            proof {
                assert(old_names.contains(g@));
                assert forall|q: int| 0 <= q < counts@.len() implies counts@[q] == count_in(t, #[trigger] views(names@)[q]) by {
                    if q == k - 1 {
                    } else {
                        assert(views(names@)[q] != g@) by {
                            if views(names@)[q] == g@ {
                                crate::system_check::lemma_distinct_unique(gs.take(i as int), q, (k - 1) as int);
                            }
                        }
                    }
                }
            }
        } else {
            proof {
                assert(!old_names.contains(g@));
            }
            names.push(g.clone());
            counts.push(1);
            proof {
                assert(views(names@) =~= old_names.push(g@));
                lemma_count_absent(gs.take(i as int), g@);
                assert forall|q: int| 0 <= q < counts@.len() implies counts@[q] == count_in(t, #[trigger] views(names@)[q]) by {
                    if q < old_counts.len() {
                        assert(views(names@)[q] == old_names[q]);
                    }
                }
            }
        }
    }
    assert(gs.take(governors@.len() as int) =~= gs);
    let mut detail = String::new();
    assert(views(names@).take(0) =~= Seq::<Seq<char>>::empty());
    for k in 0..names.len()
        invariant
            views(names@) == distinct_firsts(gs),
            counts@.len() == names@.len(),
            forall|q: int| 0 <= q < counts@.len() ==> counts@[q] == count_in(gs, #[trigger] views(names@)[q]),
            detail@ == governor_text(views(names@).take(k as int), gs),
    {
        let ghost t = views(names@).take(k + 1);
        assert(t.drop_last() =~= views(names@).take(k as int));
        assert(t.last() == names@[k as int]@);
        if k > 0 {
            push_str(&mut detail, ", ");
        }
        push_str(&mut detail, names[k].as_str());
        push_str(&mut detail, " on ");
        push_decimal(&mut detail, counts[k] as u64);
        push_str(&mut detail, " CPU");
        if counts[k] != 1 {
            push_str(&mut detail, "s");
        }
    }
    assert(views(names@).take(names@.len() as int) =~= views(names@));
    let mut ok = true;
    for i in 0..governors.len()
        invariant
            ok == forall|q: int| 0 <= q < i ==> (#[trigger] governors@[q])@ == "performance"@,
    {
        let p = chars_of("performance");
        if !chars_eq(chars_of(governors[i].as_str()).as_slice(), p.as_slice()) {
            ok = false;
        }
    }
    let status = if ok { Status::Pass } else { Status::Fail };
    let mut hint = String::new();
    push_str(&mut hint, "sudo cpupower frequency-set -g performance");
    Some(Check::new("CPU governor", status, detail).with_hint(hint))
}

proof fn lemma_count_absent(gs: Seq<Seq<char>>, g: Seq<char>)
    requires
        !distinct_firsts(gs).contains(g),
    ensures
        count_in(gs, g) == 0,
    decreases gs.len(),
{
    if gs.len() > 0 {
        let d = distinct_firsts(gs.drop_last());
        if d.contains(g) {
            let k = choose|k: int| 0 <= k < d.len() && d[k] == g;
            if !d.contains(gs.last()) {
                assert(d.push(gs.last())[k] == g);
            }
        }
        lemma_count_absent(gs.drop_last(), g);
        if gs.last() == g {
            if d.contains(gs.last()) {
            } else {
                assert(d.push(gs.last())[d.len() as int] == g);
            }
        }
    }
}

/// The distinct values are distinct.
pub proof fn lemma_distinct_unique(gs: Seq<Seq<char>>, a: int, b: int)
    requires
        0 <= a < distinct_firsts(gs).len(),
        0 <= b < distinct_firsts(gs).len(),
        distinct_firsts(gs)[a] == distinct_firsts(gs)[b],
    ensures
        a == b,
    decreases gs.len(),
{
    if gs.len() > 0 {
        let d = distinct_firsts(gs.drop_last());
        if d.contains(gs.last()) {
            lemma_distinct_unique(gs.drop_last(), a, b);
        } else {
            if a < d.len() && b < d.len() {
                lemma_distinct_unique(gs.drop_last(), a, b);
            } else if a < d.len() {
                assert(d[a] == gs.last());
            } else if b < d.len() {
                assert(d[b] == gs.last());
            }
        }
    }
}

// ------------------------------------------------------------------------
// Turbo boost and power

fn text_is(s: &str, lit: &str) -> (r: bool)
    ensures
        r == (s@ == lit@),
{
    chars_eq(chars_of(s).as_slice(), chars_of(lit).as_slice())
}

/// Turbo boost makes the clock depend on temperature and load: Intel's
/// `no_turbo` is `0`, or else the `cpufreq/boost` is `1`.
pub fn turbo_check(intel_no_turbo: Option<&str>, boost: Option<&str>) -> (r: Option<Check>)
    ensures
        (intel_no_turbo is None && boost is None) <==> r is None,
        r matches Some(c) ==> {
            let enabled = match intel_no_turbo { Some(n) => n@ == "0"@, None => boost->0@ == "1"@ };
            &&& c.name@ == "Turbo boost"@
            &&& c.status == if enabled { Status::Fail } else { Status::Pass }
            &&& c.detail@ == if enabled { "enabled"@ } else { "disabled"@ }
            &&& (c.hint is Some <==> enabled)
            &&& (c.hint matches Some(h) ==> h@ == if intel_no_turbo is Some {
                "echo 1 | sudo tee /sys/devices/system/cpu/intel_pstate/no_turbo"@ } else {
                "echo 0 | sudo tee /sys/devices/system/cpu/cpufreq/boost"@ })
        },
{
    let (enabled, hint_text) = match intel_no_turbo {
        Some(no_turbo) => (text_is(no_turbo, "0"), "echo 1 | sudo tee /sys/devices/system/cpu/intel_pstate/no_turbo"),
        None => match boost {
            Some(b) => (text_is(b, "1"), "echo 0 | sudo tee /sys/devices/system/cpu/cpufreq/boost"),
            None => return None,
        },
    };
    let mut detail = String::new();
    push_str(&mut detail, if enabled { "enabled" } else { "disabled" });
    let mut hint = String::new();
    push_str(&mut hint, hint_text);
    Some(Check::new("Turbo boost", if enabled { Status::Fail } else { Status::Pass }, detail).with_hint(hint))
}

/// The power source check: on battery, CPUs are often clocked down.
pub fn power_check(on_battery: bool) -> (c: Check)
    ensures
        c.name@ == "Power source"@,
        c.status == if on_battery { Status::Warn } else { Status::Pass },
        c.detail@ == if on_battery { "battery"@ } else { "AC"@ },
        c.hint is Some <==> on_battery,
        c.hint matches Some(h) ==> h@ == "connect the power adapter (on battery, CPUs are often clocked down)"@,
{
    let mut detail = String::new();
    push_str(&mut detail, if on_battery { "battery" } else { "AC" });
    let mut hint = String::new();
    push_str(&mut hint, "connect the power adapter (on battery, CPUs are often clocked down)");
    Check::new("Power source", if on_battery { Status::Warn } else { Status::Pass }, detail).with_hint(hint)
}

/// `(type, online)` of each `/sys/class/power_supply` entry: no check
/// without a `Mains` supply; on battery when no `Mains` supply is online.
pub fn power_check_linux(supplies: &[(String, String)]) -> (r: Option<Check>)
    ensures
        r is None <==> !exists|i: int| 0 <= i < supplies@.len() && (#[trigger] supplies@[i]).0@ == "Mains"@,
        r matches Some(c) ==> {
            let on_battery = forall|i: int| 0 <= i < supplies@.len() && (#[trigger] supplies@[i]).0@ == "Mains"@
                ==> supplies@[i].1@ == "0"@;
            &&& c.name@ == "Power source"@
            &&& c.status == if on_battery { Status::Warn } else { Status::Pass }
            &&& c.detail@ == if on_battery { "battery"@ } else { "AC"@ }
        },
{
    let mut any = false;
    let mut all_off = true;
    for i in 0..supplies.len()
        invariant
            any == exists|k: int| 0 <= k < i && (#[trigger] supplies@[k]).0@ == "Mains"@,
            all_off == forall|k: int| 0 <= k < i && (#[trigger] supplies@[k]).0@ == "Mains"@ ==> supplies@[k].1@ == "0"@,
    {
        if text_is(supplies[i].0.as_str(), "Mains") {
            any = true;
            if !text_is(supplies[i].1.as_str(), "0") {
                all_off = false;
            }
        }
    }
    if !any {
        return None;
    }
    Some(power_check(all_off))
}

// ------------------------------------------------------------------------
// macOS `pmset`

/// The first line of `ls` that contains `p`.
pub open spec fn first_containing(ls: Seq<Seq<char>>, p: Seq<char>) -> Option<Seq<char>>
    decreases ls.len(),
{
    if ls.len() == 0 { None } else if contains_seq(ls[0], p) { Some(ls[0]) } else { first_containing(ls.skip(1), p) }
}

/// The first line of `ls` whose first word is `w`.
pub open spec fn first_starting(ls: Seq<Seq<char>>, w: Seq<char>) -> Option<Seq<char>>
    decreases ls.len(),
{
    if ls.len() == 0 {
        None
    } else if crate::text::words(ls[0]).len() > 0 && crate::text::words(ls[0])[0] == w {
        Some(ls[0])
    } else {
        first_starting(ls.skip(1), w)
    }
}

fn find_containing(ls: &Vec<Vec<char>>, p: &str) -> (r: Option<usize>)
    ensures
        match first_containing(char_views(ls@), p@) {
            Some(l) => r matches Some(i) && i < ls@.len() && ls@[i as int]@ == l,
            None => r is None,
        },
{
    let pc = chars_of(p);
    let ghost lv = char_views(ls@);
    assert(lv.skip(0) =~= lv);
    for i in 0..ls.len()
        invariant
            pc@ == p@,
            lv == char_views(ls@),
            first_containing(lv, p@) == first_containing(lv.skip(i as int), p@),
    {
        assert(lv.skip(i as int)[0] == ls@[i as int]@);
        assert(lv.skip(i as int).skip(1) =~= lv.skip(i + 1));
        if contains_exec(ls[i].as_slice(), pc.as_slice()) {
            return Some(i);
        }
    }
    assert(lv.skip(ls@.len() as int) =~= Seq::<Seq<char>>::empty());
    None
}

/// `pmset -g batt`: "Now drawing from 'Battery Power'" / "'AC Power'".
pub fn parse_pmset_batt(output: &str) -> (r: Option<bool>)
    ensures
        r == match first_containing(lines(output@), "drawing from"@) {
            Some(l) => Some(contains_seq(l, "Battery Power"@)),
            None => None,
        },
{
    let ls = lines_exec(chars_of(output).as_slice());
    match find_containing(&ls, "drawing from") {
        None => None,
        Some(i) => Some(contains_exec(ls[i].as_slice(), chars_of("Battery Power").as_slice())),
    }
}

/// `pmset -g`: " lowpowermode         1"
pub fn parse_pmset_low_power(output: &str) -> (r: Option<bool>)
    ensures
        r == match first_starting(lines(output@), "lowpowermode"@) {
            Some(l) => if crate::text::words(l).len() >= 2 { Some(crate::text::words(l)[1] == "1"@) } else { None },
            None => None,
        },
{
    let ls = lines_exec(chars_of(output).as_slice());
    let ghost lv = char_views(ls@);
    let key = chars_of("lowpowermode");
    assert(lv.skip(0) =~= lv);
    for i in 0..ls.len()
        invariant
            key@ == "lowpowermode"@,
            lv == char_views(ls@),
            lv == lines(output@),
            first_starting(lv, "lowpowermode"@) == first_starting(lv.skip(i as int), "lowpowermode"@),
    {
        assert(lv.skip(i as int)[0] == ls@[i as int]@);
        assert(lv.skip(i as int).skip(1) =~= lv.skip(i + 1));
        let ws = crate::text::words_exec(ls[i].as_slice());
        if ws.len() > 0 && chars_eq(ws[0].as_slice(), key.as_slice()) {
            assert(char_views(ws@)[0] == ws@[0]@);
            if ws.len() >= 2 {
                assert(char_views(ws@)[1] == ws@[1]@);
                return Some(chars_eq(ws[1].as_slice(), chars_of("1").as_slice()));
            }
            return None;
        }
        proof {
            if ws@.len() > 0 {
                assert(char_views(ws@)[0] == ws@[0]@);
            }
        }
    }
    assert(lv.skip(ls@.len() as int) =~= Seq::<Seq<char>>::empty());
    None
}

/// `u32::from_str`.
pub open spec fn parse_u32_spec(s: Seq<char>) -> Option<u32> {
    match crate::text::unsigned_value(s) {
        Some(v) => if v <= u32::MAX { Some(v as u32) } else { None },
        None => None,
    }
}

/// `pmset -g therm`: "CPU_Speed_Limit \t= 100" (absent if never throttled).
pub fn parse_pmset_speed_limit(output: &str) -> (r: Option<u32>)
    ensures
        r == match first_containing(lines(output@), "CPU_Speed_Limit"@) {
            Some(l) => if split_char(l, '=').len() >= 2 { parse_u32_spec(trim(split_char(l, '=')[1])) } else { None },
            None => None,
        },
{
    let ls = lines_exec(chars_of(output).as_slice());
    match find_containing(&ls, "CPU_Speed_Limit") {
        None => None,
        Some(i) => {
            let parts = split_chars(ls[i].as_slice(), '=');
            if parts.len() < 2 {
                return None;
            }
            assert(char_views(parts@)[1] == parts@[1]@);
            let t = trim_chars(parts[1].as_slice());
            let text = string_from_chars(t.as_slice());
            match parse_u64(text.as_str()) {
                Some(v) => if v <= 0xffff_ffff { Some(v as u32) } else { None },
                None => None,
            }
        },
    }
}

} // verus!

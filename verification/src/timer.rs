//! Reading the output of benchmarked commands: waiting for a pattern
//! (`--until`) and keeping the last bytes (`--show-output-on-failure`).
use vstd::prelude::*;

verus! {

/// The last bytes of a run's stdout and stderr (`--show-output-on-failure`)
#[derive(Debug, Clone, Default, PartialEq, Eq)]
pub struct CapturedOutput {
    pub stdout: Vec<u8>,
    pub stderr: Vec<u8>,
}

/// How many bytes of each stream `--show-output-on-failure` keeps
pub const CAPTURE_LIMIT: usize = 65536;

/// `p` occurs in `s` at `i`.
pub open spec fn bytes_at(s: Seq<u8>, i: int, p: Seq<u8>) -> bool {
    0 <= i && i + p.len() <= s.len() && s.subrange(i, i + p.len()) == p
}

/// `p` occurs in `s`.
pub open spec fn bytes_contain(s: Seq<u8>, p: Seq<u8>) -> bool {
    exists|i: int| #[trigger] bytes_at(s, i, p)
}

/// The last `n` elements of `s` (all of them if it is shorter).
pub open spec fn last_n(s: Seq<u8>, n: nat) -> Seq<u8> {
    if s.len() <= n { s } else { s.skip(s.len() - n) }
}

/// Whether `p` occurs in `s` at `i`.
fn bytes_at_exec(s: &Vec<u8>, i: usize, p: &Vec<u8>) -> (r: bool)
    ensures
        r == bytes_at(s@, i as int, p@),
{
    if i > s.len() || p.len() > s.len() - i {
        return false;
    }
    let mut k: usize = 0;
    while k < p.len()
        invariant
            i + p@.len() <= s@.len(),
            s@.len() == s.len(),
            k <= p@.len(),
            forall|j: int| 0 <= j < k ==> s@[i + j] == p@[j],
        decreases p.len() - k,
    {
        assert(i + k < s.len());
        if s[i + k] != p[k] {
            assert(s@.subrange(i as int, i + p@.len())[k as int] != p@[k as int]);
            return false;
        }
        k += 1;
    }
    assert(s@.subrange(i as int, i + p@.len()) =~= p@);
    true
}

proof fn lemma_contain_extends(a: Seq<u8>, b: Seq<u8>, p: Seq<u8>)
    requires
        bytes_contain(a, p),
    ensures
        bytes_contain(a + b, p),
{
    let k = choose|k: int| #[trigger] bytes_at(a, k, p);
    assert((a + b).subrange(k, k + p.len()) =~= a.subrange(k, k + p.len()));
    assert(bytes_at(a + b, k, p));
}

/// A match in `old + chunk` that is not in `old` lies within the last
/// `p.len() - 1` bytes of `old` and the chunk.
proof fn lemma_window(old: Seq<u8>, chunk: Seq<u8>, p: Seq<u8>, carry: Seq<u8>)
    requires
        p.len() > 0,
        carry == last_n(old, (p.len() - 1) as nat),
    ensures
        bytes_contain(old + chunk, p) <==> (bytes_contain(old, p) || bytes_contain(carry + chunk, p)),
{
    let n = old + chunk;
    let ws = old.len() - carry.len();
    assert(carry + chunk =~= n.skip(ws));
    let w = carry + chunk;
    if bytes_contain(w, p) {
        let j = choose|j: int| #[trigger] bytes_at(w, j, p);
        assert(n.subrange(ws + j, ws + j + p.len()) =~= w.subrange(j, j + p.len()));
        assert(bytes_at(n, ws + j, p));
    }
    if bytes_contain(old, p) {
        lemma_contain_extends(old, chunk, p);
    }
    if bytes_contain(n, p) && !bytes_contain(old, p) {
        let k = choose|k: int| #[trigger] bytes_at(n, k, p);
        if k + p.len() <= old.len() {
            assert(old.subrange(k, k + p.len()) =~= n.subrange(k, k + p.len()));
            assert(bytes_at(old, k, p));
        } else {
            assert(w.subrange(k - ws, k - ws + p.len()) =~= n.subrange(k, k + p.len()));
            assert(bytes_at(w, k - ws, p));
        }
    }
}

/// Keeping the last `m` bytes of the kept bytes and the chunk is keeping
/// the last `m` bytes of all data.
proof fn lemma_last_n_window(old: Seq<u8>, chunk: Seq<u8>, carry: Seq<u8>, m: nat)
    requires
        carry == last_n(old, m),
    ensures
        last_n(carry + chunk, m) == last_n(old + chunk, m),
{
    let n = old + chunk;
    let ws = old.len() - carry.len();
    assert(carry + chunk =~= n.skip(ws));
    assert(last_n(carry + chunk, m) =~= last_n(n, m));
}

/// How many of the last bytes a scanner for a pattern of `n` bytes keeps.
pub open spec fn kept_len(n: nat) -> nat {
    if n > 0 { (n - 1) as nat } else { 0 }
}

/// Looks for a byte pattern in data that arrives in chunks: it keeps the
/// last `needle.len() - 1` bytes, so that a match split across chunks is
/// found. An empty pattern is found at once.
pub struct UntilScanner {
    needle: Vec<u8>,
    carry: Vec<u8>,
    found: bool,
    seen: Ghost<Seq<u8>>,
}

impl UntilScanner {
    #[verifier::type_invariant]
    closed spec fn wf(self) -> bool {
        &&& self.carry@ == last_n(self.seen@, kept_len(self.needle@.len()))
        &&& self.found == bytes_contain(self.seen@, self.needle@)
    }

    /// All data fed so far.
    pub closed spec fn seen(self) -> Seq<u8> {
        self.seen@
    }

    /// The pattern.
    pub closed spec fn needle(self) -> Seq<u8> {
        self.needle@
    }

    /// A scanner for a pattern that has seen no data.
    pub fn new(needle: &[u8]) -> (s: UntilScanner)
        ensures
            s.needle() == needle@,
            s.seen() == Seq::<u8>::empty(),
    {
        let mut n: Vec<u8> = Vec::new();
        for i in 0..needle.len()
            invariant
                n@ == needle@.take(i as int),
        {
            n.push(needle[i]);
            assert(n@ =~= needle@.take(i + 1));
        }
        assert(needle@.take(needle@.len() as int) =~= needle@);
        let empty = needle.len() == 0;
        assert(Seq::<u8>::empty() =~= last_n(Seq::<u8>::empty(), kept_len(needle@.len())));
        if empty {
            assert(Seq::<u8>::empty().subrange(0, 0) =~= needle@);
            assert(bytes_at(Seq::<u8>::empty(), 0, needle@));
        } else {
            assert(!bytes_contain(Seq::<u8>::empty(), needle@));
        }
        UntilScanner { needle: n, carry: Vec::new(), found: empty, seen: Ghost(Seq::empty()) }
    }

    /// `feed` for the empty pattern, which every data contains.
    fn feed_empty_pattern(&mut self, chunk: &[u8]) -> (r: bool)
        requires
            old(self).needle().len() == 0,
        ensures
            final(self).needle() == old(self).needle(),
            final(self).seen() == old(self).seen() + chunk@,
            r == bytes_contain(final(self).seen(), final(self).needle()),
    {
        let ghost new_seen = self.seen@ + chunk@;
        let ghost nv = self.needle@;
        assert(new_seen.subrange(0, 0) =~= nv);
        assert(bytes_at(new_seen, 0, nv));
        assert(Seq::<u8>::empty() =~= last_n(new_seen, kept_len(0)));
        let nd: Vec<u8> = Vec::new();
        assert(nd@ =~= nv);
        *self = UntilScanner { needle: nd, carry: Vec::new(), found: true, seen: Ghost(new_seen) };
        true
    }

    /// Feeds the next chunk of data; whether the pattern occurs in all the
    /// data fed so far.
    pub fn feed(&mut self, chunk: &[u8]) -> (r: bool)
        ensures
            final(self).needle() == old(self).needle(),
            final(self).seen() == old(self).seen() + chunk@,
            r == bytes_contain(final(self).seen(), final(self).needle()),
    {
        proof { use_type_invariant(&*self); }
        let ghost old_seen = self.seen@;
        let ghost new_seen = old_seen + chunk@;
        let ghost needle = self.needle@;
        let nl = self.needle.len();
        if nl == 0 {
            return self.feed_empty_pattern(chunk);
        }
        let ghost ws: int = old_seen.len() - self.carry@.len();
        // the window: the kept bytes and the chunk
        let mut buf: Vec<u8> = Vec::new();
        for i in 0..self.carry.len()
            invariant
                buf@ == self.carry@.take(i as int),
        {
            buf.push(self.carry[i]);
            assert(buf@ =~= self.carry@.take(i + 1));
        }
        assert(self.carry@.take(self.carry@.len() as int) =~= self.carry@);
        let ghost cl = buf@.len();
        for i in 0..chunk.len()
            invariant
                buf@ == self.carry@ + chunk@.take(i as int),
        {
            buf.push(chunk[i]);
            assert(buf@ =~= self.carry@ + chunk@.take(i + 1));
        }
        assert(chunk@.take(chunk@.len() as int) =~= chunk@);
        assert(buf@ =~= new_seen.skip(ws));
        let mut found = self.found;
        let mut i: usize = 0;
        while i < buf.len() && !found
            invariant
                i <= buf@.len(),
                !found ==> forall|j: int| 0 <= j < i ==> !bytes_at(buf@, j, self.needle@),
                found ==> self.found || exists|j: int| #[trigger] bytes_at(buf@, j, self.needle@),
                self.found ==> found,
            decreases buf.len() - i + (if found { 0int } else { 1int }),
        {
            if bytes_at_exec(&buf, i, &self.needle) {
                found = true;
            }
            i += 1;
        }
        assert(buf@ == self.carry@ + chunk@);
        assert(self.found == bytes_contain(old_seen, needle));
        proof {
            if found && !self.found {
                assert(bytes_contain(buf@, needle));
            }
            if !found {
                assert forall|j: int| !#[trigger] bytes_at(buf@, j, needle) by {
                    if bytes_at(buf@, j, needle) {
                        assert(j < buf@.len());
                    }
                }
            }
            lemma_window(old_seen, chunk@, needle, self.carry@);
            if self.found {
                lemma_contain_extends(old_seen, chunk@, needle);
            }
        }
        let found_all = found;
        assert(found_all == bytes_contain(new_seen, needle));
        // keep the last `nl - 1` bytes
        let keep = if buf.len() < nl - 1 { buf.len() } else { nl - 1 };
        let mut carry: Vec<u8> = Vec::new();
        let start = buf.len() - keep;
        for k in start..buf.len()
            invariant
                start <= buf@.len(),
                carry@ == buf@.subrange(start as int, k as int),
        {
            carry.push(buf[k]);
            assert(carry@ =~= buf@.subrange(start as int, k + 1));
        }
        assert(carry@ =~= last_n(buf@, (nl - 1) as nat));
        proof { lemma_last_n_window(old_seen, chunk@, self.carry@, (nl - 1) as nat); }
        let mut nd: Vec<u8> = Vec::new();
        for k in 0..self.needle.len()
            invariant
                nd@ == self.needle@.take(k as int),
        {
            nd.push(self.needle[k]);
            assert(nd@ =~= self.needle@.take(k + 1));
        }
        assert(self.needle@.take(nl as int) =~= self.needle@);
        assert(nd@ == needle);
        assert(carry@ == last_n(new_seen, (nd@.len() - 1) as nat));
        *self = UntilScanner { needle: nd, carry, found: found_all, seen: Ghost(new_seen) };
        found_all
    }
}

/// Keeps the last `limit` bytes of data that arrives in chunks.
pub struct TailBuffer {
    limit: usize,
    tail: Vec<u8>,
    seen: Ghost<Seq<u8>>,
}

impl TailBuffer {
    #[verifier::type_invariant]
    closed spec fn wf(self) -> bool {
        self.tail@ == last_n(self.seen@, self.limit as nat)
    }

    /// All data fed so far.
    pub closed spec fn seen(self) -> Seq<u8> {
        self.seen@
    }

    pub closed spec fn limit(self) -> nat {
        self.limit as nat
    }

    pub fn new(limit: usize) -> (t: TailBuffer)
        ensures
            t.seen() == Seq::<u8>::empty(),
            t.limit() == limit,
    {
        let t = TailBuffer { limit, tail: Vec::new(), seen: Ghost(Seq::empty()) };
        assert(t.tail@ =~= last_n(Seq::<u8>::empty(), limit as nat));
        t
    }

    /// Feeds the next chunk of data.
    pub fn feed(&mut self, chunk: &[u8])
        ensures
            final(self).limit() == old(self).limit(),
            final(self).seen() == old(self).seen() + chunk@,
    {
        proof { use_type_invariant(&*self); }
        let ghost new_seen = self.seen@ + chunk@;
        let mut buf: Vec<u8> = Vec::new();
        for i in 0..self.tail.len()
            invariant
                buf@ == self.tail@.take(i as int),
        {
            buf.push(self.tail[i]);
            assert(buf@ =~= self.tail@.take(i + 1));
        }
        assert(self.tail@.take(self.tail@.len() as int) =~= self.tail@);
        for i in 0..chunk.len()
            invariant
                buf@ == self.tail@ + chunk@.take(i as int),
        {
            buf.push(chunk[i]);
            assert(buf@ =~= self.tail@ + chunk@.take(i + 1));
        }
        assert(chunk@.take(chunk@.len() as int) =~= chunk@);
        let limit = self.limit;
        let keep = if buf.len() < limit { buf.len() } else { limit };
        let start = buf.len() - keep;
        let mut tail: Vec<u8> = Vec::new();
        for k in start..buf.len()
            invariant
                start <= buf@.len(),
                tail@ == buf@.subrange(start as int, k as int),
        {
            tail.push(buf[k]);
            assert(tail@ =~= buf@.subrange(start as int, k + 1));
        }
        assert(tail@ =~= last_n(new_seen, limit as nat));
        *self = TailBuffer { limit, tail, seen: Ghost(new_seen) };
    }

    /// The last `limit` bytes of all data fed.
    pub fn into_tail(self) -> (r: Vec<u8>)
        ensures
            r@ == last_n(self.seen(), self.limit()),
    {
        proof { use_type_invariant(&self); }
        self.tail
    }
}

/// The data of a stream read in chunks: the chunks up to the first empty
/// one, which marks the end of the stream.
pub open spec fn stream_data(chunks: Seq<&[u8]>) -> Seq<u8>
    decreases chunks.len(),
{
    if chunks.len() == 0 || chunks[0]@.len() == 0 {
        Seq::empty()
    } else {
        chunks[0]@ + stream_data(chunks.skip(1))
    }
}

/// What `read_until` decides for a stream whose reads give these chunks:
/// whether the `needle` byte pattern occurs in the stream (also across
/// chunk boundaries); an empty needle is found at once.
pub fn read_until_chunks(chunks: &[&[u8]], needle: &[u8]) -> (r: bool)
    ensures
        needle@.len() == 0 ==> r,
        needle@.len() > 0 ==> r == bytes_contain(stream_data(chunks@), needle@),
{
    if needle.len() == 0 {
        return true;
    }
    let mut scanner = UntilScanner::new(needle);
    assert(chunks@.skip(0) =~= chunks@);
    assert(Seq::<u8>::empty() + stream_data(chunks@) =~= stream_data(chunks@));
    for i in 0..chunks.len()
        invariant
            scanner.needle() == needle@,
            needle@.len() > 0,
            stream_data(chunks@) == scanner.seen() + stream_data(chunks@.skip(i as int)),
            !bytes_contain(scanner.seen(), needle@),
    {
        let chunk = chunks[i];
        let ghost rest = chunks@.skip(i as int);
        assert(rest[0] == chunk);
        assert(rest.skip(1) =~= chunks@.skip(i + 1));
        if chunk.len() == 0 {
            assert(stream_data(rest) =~= Seq::<u8>::empty());
            assert(stream_data(chunks@) =~= scanner.seen());
            return false;
        }
        let ghost before = scanner.seen();
        let found = scanner.feed(chunk);
        assert(stream_data(chunks@) =~= scanner.seen() + stream_data(chunks@.skip(i + 1)));
        if found {
            proof { lemma_contain_extends(scanner.seen(), stream_data(chunks@.skip(i + 1)), needle@); }
            return true;
        }
    }
    assert(stream_data(chunks@.skip(chunks@.len() as int)) =~= Seq::<u8>::empty());
    assert(stream_data(chunks@) =~= scanner.seen());
    false
}

} // verus!

verus! {

// ------------------------------------------------------------------------
// CPU time of the child processes

/// A snapshot of the CPU time used by the finished child processes, and
/// their peak memory.
#[derive(Debug, Clone, Copy, PartialEq, Eq, Structural)]
pub struct CPUTimes {
    /// Total time spent in user mode, in microseconds
    pub user_usec: i64,
    /// Total time spent in kernel mode, in microseconds
    pub system_usec: i64,
    /// Peak resident memory, in bytes
    pub memory_usage_byte: u64,
}

/// Measures the CPU time used by child processes from a starting snapshot.
pub struct CPUTimer {
    pub start_cpu: CPUTimes,
}

impl CPUTimer {
    /// A timer from the snapshot taken now.
    pub fn start(start_cpu: CPUTimes) -> (t: CPUTimer)
        ensures
            t.start_cpu == start_cpu,
    {
        CPUTimer { start_cpu }
    }

    /// The user and system time (in microseconds) used since the start, and
    /// the peak memory, from the snapshot taken at the end.
    pub fn stop(&self, end_cpu: &CPUTimes) -> (r: (i128, i128, u64))
        ensures
            r.0 == end_cpu.user_usec - self.start_cpu.user_usec,
            r.1 == end_cpu.system_usec - self.start_cpu.system_usec,
            r.2 == end_cpu.memory_usage_byte,
    {
        (
            end_cpu.user_usec as i128 - self.start_cpu.user_usec as i128,
            end_cpu.system_usec as i128 - self.start_cpu.system_usec as i128,
            end_cpu.memory_usage_byte,
        )
    }
}

} // verus!

use vstd::prelude::*;
use crate::memory::{Memory, RegionInfo, pattern_matches_at, match_addresses, region_matches, region_is_scannable};

verus! {

/// How many results a scan keeps: one when it does not return several, the
/// stop value when that is positive, and no limit otherwise.
pub open spec fn scan_cap(return_multiple: bool, stop_at_value: usize) -> Option<nat> {
    if !return_multiple {
        Some(1)
    } else if stop_at_value > 0 {
        Some(stop_at_value as nat)
    } else {
        None
    }
}

/// Whether `len` results fill the cap.
pub open spec fn cap_reached(len: nat, cap: Option<nat>) -> bool {
    match cap {
        Some(c) => len >= c,
        None => false,
    }
}

/// The first `cap` elements of `s` (all of them when there is no cap).
pub open spec fn capped(s: Seq<usize>, cap: Option<nat>) -> Seq<usize> {
    match cap {
        Some(c) => if s.len() <= c { s } else { s.take(c as int) },
        None => s,
    }
}

/// Where a scan stands, and so what it asks for next.
#[derive(Clone, Copy, Debug, PartialEq, Eq, Structural)]
pub enum ScanStep {
    /// Ask which region holds this address.
    QueryRegion { address: usize },
    /// Read this region's bytes.
    ReadRegion { base: usize, size: usize },
    /// The scan is over.
    Finished,
}

/// The mathematical state of a scan: the pattern, the cap on results, the
/// match addresses of every region read so far (`seen`), the results kept
/// (`found`) and the next step.
pub struct ScanModel {
    pub pattern: Seq<u8>,
    pub cap: Option<nat>,
    pub seen: Seq<usize>,
    pub found: Seq<usize>,
    pub step: ScanStep,
}

impl ScanModel {
    /// The invariant of a scan: the results are the first `cap` matches
    /// seen; a scan that goes on has a pattern and room for more results;
    /// a region to read ends inside the address space.
    pub open spec fn wf(self) -> bool {
        &&& self.found == capped(self.seen, self.cap)
        &&& self.step !is Finished ==> {
            &&& self.pattern.len() > 0
            &&& !cap_reached(self.seen.len(), self.cap)
        }
        &&& (self.step matches ScanStep::ReadRegion { base, size } ==> base + size <= usize::MAX)
    }
}

/// The scan after the answer to a region query: no region ends it; a
/// scannable region is read next; any other region is skipped.
pub open spec fn after_region(m: ScanModel, region: Option<RegionInfo>) -> ScanModel {
    match region {
        None => ScanModel { step: ScanStep::Finished, ..m },
        Some(r) => if region_is_scannable(r.state, r.protect) {
            ScanModel { step: ScanStep::ReadRegion { base: r.base_address, size: r.region_size }, ..m }
        } else {
            ScanModel {
                step: ScanStep::QueryRegion { address: (r.base_address + r.region_size) as usize },
                ..m
            }
        },
    }
}

/// The scan after reading the current region: a failed read, or one of
/// fewer bytes than the pattern, skips the region; otherwise its matches
/// are added, and the scan ends once the cap is reached.
pub open spec fn after_read(m: ScanModel, bytes: Option<Seq<u8>>) -> ScanModel {
    match m.step {
        ScanStep::ReadRegion { base, size } => {
            let next = ScanStep::QueryRegion { address: (base + size) as usize };
            match bytes {
                Some(b) => if b.len() >= m.pattern.len() {
                    let seen = m.seen + region_matches(m.pattern, base as int, b);
                    ScanModel {
                        seen,
                        found: capped(seen, m.cap),
                        step: if cap_reached(seen.len(), m.cap) { ScanStep::Finished } else { next },
                        ..m
                    }
                } else {
                    ScanModel { step: next, ..m }
                },
                None => ScanModel { step: next, ..m },
            }
        },
        _ => m,
    }
}

/// A running array-of-bytes scan over a process's address space. It says
/// what it needs next (`next_step`) and is told what came back
/// (`on_region`, `on_read`).
pub struct AobScan {
    pattern: Vec<u8>,
    return_multiple: bool,
    stop_at_value: usize,
    results: Vec<usize>,
    seen: Ghost<Seq<usize>>,
    step: ScanStep,
}

impl View for AobScan {
    type V = ScanModel;

    closed spec fn view(&self) -> ScanModel {
        ScanModel {
            pattern: self.pattern@,
            cap: scan_cap(self.return_multiple, self.stop_at_value),
            seen: self.seen@,
            found: self.results@,
            step: self.step,
        }
    }
}

/// Offsets at or past `n - pattern.len() + 1` hold no match.
proof fn lemma_no_match_past_end(pattern: Seq<u8>, base: int, buf: Seq<u8>, k: int)
    requires
        pattern.len() > 0,
        buf.len() - pattern.len() + 1 <= k <= buf.len(),
        0 <= buf.len() - pattern.len() + 1,
    ensures
        match_addresses(pattern, base, buf, k) == match_addresses(
            pattern,
            base,
            buf,
            buf.len() - pattern.len() + 1,
        ),
    decreases k,
{
    if k > buf.len() - pattern.len() + 1 {
        lemma_no_match_past_end(pattern, base, buf, k - 1);
    }
}

/// The matches below `k` are a prefix of those below `n` when `k <= n`.
proof fn lemma_match_addresses_prefix(pattern: Seq<u8>, base: int, buf: Seq<u8>, k: int, n: int)
    requires
        0 <= k <= n,
    ensures
        match_addresses(pattern, base, buf, k).len() <= match_addresses(pattern, base, buf, n).len(),
        match_addresses(pattern, base, buf, k) == match_addresses(pattern, base, buf, n).take(
            match_addresses(pattern, base, buf, k).len() as int,
        ),
    decreases n - k,
{
    if k < n {
        lemma_match_addresses_prefix(pattern, base, buf, k, n - 1);
        let a = match_addresses(pattern, base, buf, k);
        let b = match_addresses(pattern, base, buf, n - 1);
        let c = match_addresses(pattern, base, buf, n);
        assert(c.take(a.len() as int) =~= b.take(a.len() as int));
    } else {
        let a = match_addresses(pattern, base, buf, k);
        assert(a.take(a.len() as int) =~= a);
    }
}

/// Whether the pattern matches `buf` at offset `i`.
fn matches_at(pattern: &Vec<u8>, buf: &[u8], i: usize) -> (r: bool)
    requires
        pattern.len() > 0,
        i + pattern.len() <= buf.len(),
    ensures
        r == pattern_matches_at(pattern@, buf@, i as int),
{
    if buf[i] != pattern[0] {
        return false;
    }
    let plen = pattern.len();
    let mut j: usize = 1;
    while j < plen
        invariant
            1 <= j <= plen,
            plen == pattern.len(),
            i + plen <= buf.len(),
            buf@[i as int] == pattern@[0],
            forall|k: int| 1 <= k < j ==> #[trigger] pattern@[k] == 0u8 || buf@[i + k] == pattern@[k],
        decreases plen - j,
    {
        if pattern[j] != 0 && pattern[j] != buf[i + j] {
            assert(!(pattern@[j as int] == 0u8 || buf@[i + j] == pattern@[j as int]));
            return false;
        }
        j = j + 1;
    }
    true
}

/// Scans one region read at `base` and adds its matches to `results`, up
/// to the cap; says whether the cap was reached.
fn scan_region(
    pattern: &Vec<u8>,
    base: usize,
    buf: &[u8],
    results: &mut Vec<usize>,
    return_multiple: bool,
    stop_at_value: usize,
) -> (reached: bool)
    requires
        pattern.len() > 0,
        pattern.len() <= buf.len(),
        base + buf.len() <= usize::MAX,
        !cap_reached(old(results)@.len(), scan_cap(return_multiple, stop_at_value)),
    ensures
        final(results)@ == capped(
            old(results)@ + region_matches(pattern@, base as int, buf@),
            scan_cap(return_multiple, stop_at_value),
        ),
        reached == cap_reached(
            (old(results)@ + region_matches(pattern@, base as int, buf@)).len(),
            scan_cap(return_multiple, stop_at_value),
        ),
{
    let ghost cap = scan_cap(return_multiple, stop_at_value);
    let ghost start = old(results)@;
    let ghost all = region_matches(pattern@, base as int, buf@);
    let plen = pattern.len();
    let n = buf.len();
    let last = n - plen;
    let mut i: usize = 0;
    while i <= last
        invariant
            plen == pattern.len(),
            n == buf.len(),
            last == n - plen,
            plen > 0,
            i <= last + 1,
            base + n <= usize::MAX,
            cap == scan_cap(return_multiple, stop_at_value),
            start == old(results)@,
            all == region_matches(pattern@, base as int, buf@),
            results@ == start + match_addresses(pattern@, base as int, buf@, i as int),
            !cap_reached(results@.len(), cap),
        decreases last + 1 - i,
    {
        if matches_at(pattern, buf, i) {
            results.push(base + i);
            assert(results@ == start + match_addresses(pattern@, base as int, buf@, i + 1)) by {
                assert(match_addresses(pattern@, base as int, buf@, i + 1) == match_addresses(
                    pattern@,
                    base as int,
                    buf@,
                    i as int,
                ).push((base + i) as usize));
            }
            if !return_multiple || (stop_at_value > 0 && results.len() >= stop_at_value) {
                proof {
                    let part = match_addresses(pattern@, base as int, buf@, i + 1);
                    lemma_match_addresses_prefix(pattern@, base as int, buf@, i + 1, n as int);
                    assert(cap_reached(results@.len(), cap));
                    let c = cap->0;
                    assert(results@.len() == c);
                    assert((start + all).take(c as int) =~= start + part);
                    assert((start + all).len() >= c);
                    assert(capped(start + all, cap) == results@);
                }
                return true;
            }
        }
        i = i + 1;
    }
    proof {
        lemma_no_match_past_end(pattern@, base as int, buf@, n as int);
    }
    false
}

/// The match addresses below `n` lie in `[base, base + n)`, each marks an
/// offset where the pattern matches, every such offset below `n` is listed,
/// and the addresses rise strictly.
proof fn lemma_match_addresses_props(pattern: Seq<u8>, base: int, buf: Seq<u8>, n: int)
    requires
        0 <= base,
        0 <= n,
        base + n <= usize::MAX,
    ensures
        forall|k: int|
            0 <= k < match_addresses(pattern, base, buf, n).len() ==> {
                let a = #[trigger] match_addresses(pattern, base, buf, n)[k];
                &&& base <= a < base + n
                &&& pattern_matches_at(pattern, buf, a - base)
            },
        forall|i: int|
            0 <= i < n && #[trigger] pattern_matches_at(pattern, buf, i) ==> match_addresses(
                pattern,
                base,
                buf,
                n,
            ).contains((base + i) as usize),
        forall|k1: int, k2: int|
            0 <= k1 < k2 < match_addresses(pattern, base, buf, n).len() ==> match_addresses(
                pattern,
                base,
                buf,
                n,
            )[k1] < match_addresses(pattern, base, buf, n)[k2],
    decreases n,
{
    if n > 0 {
        lemma_match_addresses_props(pattern, base, buf, n - 1);
        let prev = match_addresses(pattern, base, buf, n - 1);
        let cur = match_addresses(pattern, base, buf, n);
        if pattern_matches_at(pattern, buf, n - 1) {
            assert(cur == prev.push((base + n - 1) as usize));
            assert forall|i: int|
                0 <= i < n && #[trigger] pattern_matches_at(pattern, buf, i) implies cur.contains(
                (base + i) as usize,
            ) by {
                if i < n - 1 {
                    let k = choose|k: int| 0 <= k < prev.len() && prev[k] == (base + i) as usize;
                    assert(cur[k] == prev[k]);
                } else {
                    assert(cur[prev.len() as int] == (base + i) as usize);
                }
            }
        }
    }
}

/// The matches reported for a region read at `base` are exactly the
/// offsets at which the pattern matches: every reported address is
/// `base + i` for such an offset `i`, every such offset is reported, and
/// the addresses come in strictly increasing order.
pub proof fn lemma_region_matches_exact(pattern: Seq<u8>, base: int, buf: Seq<u8>)
    requires
        0 <= base,
        base + buf.len() <= usize::MAX,
    ensures
        forall|k: int|
            0 <= k < region_matches(pattern, base, buf).len() ==> {
                let a = #[trigger] region_matches(pattern, base, buf)[k];
                &&& base <= a < base + buf.len()
                &&& pattern_matches_at(pattern, buf, a - base)
            },
        forall|i: int|
            #[trigger] pattern_matches_at(pattern, buf, i) ==> region_matches(
                pattern,
                base,
                buf,
            ).contains((base + i) as usize),
        forall|k1: int, k2: int|
            0 <= k1 < k2 < region_matches(pattern, base, buf).len() ==> region_matches(
                pattern,
                base,
                buf,
            )[k1] < region_matches(pattern, base, buf)[k2],
{
    lemma_match_addresses_props(pattern, base, buf, buf.len() as int);
}

/// Without zero bytes after the first, the pattern matches exactly where
/// the bytes equal it.
pub proof fn lemma_match_without_wildcards(pattern: Seq<u8>, buf: Seq<u8>, i: int)
    requires
        pattern.len() > 0,
        forall|j: int| 1 <= j < pattern.len() ==> #[trigger] pattern[j] != 0u8,
        0 <= i,
        i + pattern.len() <= buf.len(),
    ensures
        pattern_matches_at(pattern, buf, i) <==> buf.subrange(i, i + pattern.len()) == pattern,
{
    if buf.subrange(i, i + pattern.len()) == pattern {
        assert forall|j: int| 1 <= j < pattern.len() implies #[trigger] pattern[j] == 0u8 || buf[i
            + j] == pattern[j] by {
            assert(buf.subrange(i, i + pattern.len())[j] == buf[i + j]);
        }
        assert(buf.subrange(i, i + pattern.len())[0] == buf[i]);
    }
    if pattern_matches_at(pattern, buf, i) {
        assert forall|j: int| 0 <= j < pattern.len() implies buf.subrange(i, i + pattern.len())[j]
            == pattern[j] by {
            if j > 0 {
                assert(pattern[j] != 0u8);
            }
        }
        assert(buf.subrange(i, i + pattern.len()) =~= pattern);
    }
}

/// What a region answer does: no region ends the scan; a committed region
/// with a plain readable protection (`0x02`, `0x04`, `0x20`, `0x40`) is read
/// next; any other region is passed over by asking next for the address just
/// past its end. The results never change.
pub proof fn lemma_region_answer(m: ScanModel, region: Option<RegionInfo>)
    requires
        m.wf(),
        m.step is QueryRegion,
        region matches Some(r) ==> r.base_address + r.region_size <= usize::MAX,
    ensures
        after_region(m, region).found == m.found,
        after_region(m, region).pattern == m.pattern,
        after_region(m, region).cap == m.cap,
        region is None ==> after_region(m, region).step is Finished,
        region matches Some(r) ==> {
            if r.state == 0x1000u32 && (r.protect == 0x02u32 || r.protect == 0x04u32 || r.protect
                == 0x20u32 || r.protect == 0x40u32) {
                after_region(m, region).step == ScanStep::ReadRegion {
                    base: r.base_address,
                    size: r.region_size,
                }
            } else {
                &&& after_region(m, region).step == ScanStep::QueryRegion {
                    address: (r.base_address + r.region_size) as usize,
                }
                &&& after_region(m, region).step->address == r.base_address + r.region_size
            }
        },
{
    if let Some(r) = region {
        crate::memory::lemma_scannable_regions(r.state, r.protect);
    }
}

/// What a region read does: the scan ends only when the results reach the
/// cap; otherwise, whatever the region held (a match or none, a failed or
/// a short read), it goes on by asking for the address just past the
/// region. Without a cap, a read of at least the pattern's length adds
/// every match of the region to the results, after those already kept; any
/// other read adds nothing.
pub proof fn lemma_read_answer(m: ScanModel, bytes: Option<Seq<u8>>)
    requires
        m.wf(),
        m.step is ReadRegion,
        bytes matches Some(b) ==> b.len() <= m.step->size,
    ensures
        ({
            let r = after_read(m, bytes);
            let base = m.step->base;
            let size = m.step->size;
            &&& r.pattern == m.pattern
            &&& r.cap == m.cap
            &&& (r.step is Finished <==> (m.cap matches Some(c) && r.found.len() == c))
            &&& r.step !is Finished ==> r.step == ScanStep::QueryRegion {
                address: (base + size) as usize,
            }
            &&& r.step !is Finished ==> r.step->address == base + size
            &&& m.cap is None ==> r.found == (match bytes {
                Some(b) => if b.len() >= m.pattern.len() {
                    m.found + region_matches(m.pattern, base as int, b)
                } else {
                    m.found
                },
                None => m.found,
            })
            &&& (bytes matches Some(b) && b.len() < m.pattern.len()) ==> r.found == m.found
            &&& bytes is None ==> r.found == m.found
        }),
{
    let r = after_read(m, bytes);
    assert(m.found == m.seen);
    lemma_after_read_keeps_invariant(m, bytes);
    if let Some(c) = m.cap {
        if let Some(b) = bytes {
            if b.len() >= m.pattern.len() {
                let seen = m.seen + region_matches(m.pattern, m.step->base as int, b);
                if seen.len() > c {
                    assert(seen.take(c as int).len() == c);
                }
            }
        }
    }
}

/// Answering a region query keeps the scan's invariant, and never changes
/// its results.
pub proof fn lemma_after_region_keeps_invariant(m: ScanModel, region: Option<RegionInfo>)
    requires
        m.wf(),
        m.step is QueryRegion,
        region matches Some(r) ==> r.base_address + r.region_size <= usize::MAX,
    ensures
        after_region(m, region).wf(),
        after_region(m, region).found == m.found,
        after_region(m, region).seen == m.seen,
{
}

/// Reading a region keeps the scan's invariant; the results already kept
/// stay, in order, at the front of the new results; and the results never
/// outnumber the cap.
pub proof fn lemma_after_read_keeps_invariant(m: ScanModel, bytes: Option<Seq<u8>>)
    requires
        m.wf(),
        m.step is ReadRegion,
        bytes matches Some(b) ==> b.len() <= m.step->size,
    ensures
        after_read(m, bytes).wf(),
        m.found.len() <= after_read(m, bytes).found.len(),
        after_read(m, bytes).found.take(m.found.len() as int) == m.found,
        after_read(m, bytes).cap matches Some(c) ==> after_read(m, bytes).found.len() <= c,
{
    let r = after_read(m, bytes);
    assert(m.found == m.seen);
    if let Some(b) = bytes {
        if b.len() >= m.pattern.len() {
            let seen = m.seen + region_matches(m.pattern, m.step->base as int, b);
            assert(seen.take(m.seen.len() as int) =~= m.seen);
            if let Some(c) = m.cap {
                if seen.len() > c {
                    assert(seen.take(c as int).take(m.seen.len() as int) =~= m.seen);
                }
            }
        }
    }
    assert(r.found.take(m.found.len() as int) =~= m.found);
}

/// A scan at its start: nothing seen or kept; an empty pattern is over at
/// once, any other asks first for the region at address zero.
pub open spec fn scan_start(pattern: Seq<u8>, cap: Option<nat>) -> ScanModel {
    ScanModel {
        pattern,
        cap,
        seen: Seq::empty(),
        found: Seq::empty(),
        step: if pattern.len() == 0 {
            ScanStep::Finished
        } else {
            ScanStep::QueryRegion { address: 0 }
        },
    }
}

/// A scan starts with nothing seen or kept; with an empty pattern it is
/// over at once, otherwise it first asks for the region at address zero.
pub proof fn lemma_scan_start(pattern: Seq<u8>, cap: Option<nat>)
    ensures
        scan_start(pattern, cap).pattern == pattern,
        scan_start(pattern, cap).cap == cap,
        scan_start(pattern, cap).found.len() == 0,
        scan_start(pattern, cap).seen.len() == 0,
        pattern.len() == 0 ==> (scan_start(pattern, cap).step is Finished),
        pattern.len() > 0 ==> scan_start(pattern, cap).step == (ScanStep::QueryRegion { address: 0 }),
{
}

/// One step of a scan against a fixed target memory: `query` is what a
/// region query at an address answers, `read` what reading a region (by
/// base and size) gives back.
pub open spec fn scan_env_step(
    m: ScanModel,
    query: spec_fn(usize) -> Option<RegionInfo>,
    read: spec_fn(usize, usize) -> Option<Seq<u8>>,
) -> ScanModel {
    match m.step {
        ScanStep::QueryRegion { address } => after_region(m, query(address)),
        ScanStep::ReadRegion { base, size } => after_read(m, read(base, size)),
        ScanStep::Finished => m,
    }
}

/// The scan after `steps` steps against a fixed target memory.
pub open spec fn run_scan(
    m: ScanModel,
    query: spec_fn(usize) -> Option<RegionInfo>,
    read: spec_fn(usize, usize) -> Option<Seq<u8>>,
    steps: nat,
) -> ScanModel
    decreases steps,
{
    if steps == 0 {
        m
    } else {
        run_scan(scan_env_step(m, query, read), query, read, (steps - 1) as nat)
    }
}

/// How a capped scan `c` stands to the uncapped scan `u` of the same
/// memory: both have kept what their caps allow of what they have seen,
/// what `c` has seen starts what `u` has seen, and either the two are at
/// the same step having seen the same, or `c` is over with its cap full.
pub open spec fn capped_follows(c: ScanModel, u: ScanModel) -> bool {
    &&& c.pattern == u.pattern
    &&& u.cap is None
    &&& u.found == u.seen
    &&& c.found == capped(c.seen, c.cap)
    &&& c.seen.len() <= u.seen.len()
    &&& u.seen.take(c.seen.len() as int) == c.seen
    &&& ((c.step == u.step && c.seen == u.seen) || (c.step is Finished && cap_reached(
        c.seen.len(),
        c.cap,
    )))
}

/// A step of both scans keeps the relation.
proof fn lemma_capped_follows_step(
    c: ScanModel,
    u: ScanModel,
    query: spec_fn(usize) -> Option<RegionInfo>,
    read: spec_fn(usize, usize) -> Option<Seq<u8>>,
)
    requires
        capped_follows(c, u),
    ensures
        capped_follows(scan_env_step(c, query, read), scan_env_step(u, query, read)),
        scan_env_step(c, query, read).cap == c.cap,
{
    let c2 = scan_env_step(c, query, read);
    let u2 = scan_env_step(u, query, read);
    assert(u2.seen.len() >= u.seen.len() && u2.seen.take(u.seen.len() as int) == u.seen) by {
        if let ScanStep::ReadRegion { base, size } = u.step {
            if let Some(b) = read(base, size) {
                if b.len() >= u.pattern.len() {
                    assert((u.seen + region_matches(u.pattern, base as int, b)).take(
                        u.seen.len() as int,
                    ) =~= u.seen);
                }
            }
        }
        assert(u.seen.take(u.seen.len() as int) =~= u.seen);
    }
    assert(u2.seen.take(c2.seen.len() as int) =~= c2.seen) by {
        if c.step == u.step && c.seen == u.seen {
            if c2.seen.len() == u2.seen.len() {
                assert(c2.seen == u2.seen);
            }
        } else {
            assert(u2.seen.take(c.seen.len() as int) =~= u.seen.take(c.seen.len() as int));
        }
    }
}

/// Running both scans for the same number of steps keeps the relation.
proof fn lemma_capped_follows_run(
    c: ScanModel,
    u: ScanModel,
    query: spec_fn(usize) -> Option<RegionInfo>,
    read: spec_fn(usize, usize) -> Option<Seq<u8>>,
    steps: nat,
)
    requires
        capped_follows(c, u),
    ensures
        capped_follows(run_scan(c, query, read, steps), run_scan(u, query, read, steps)),
        run_scan(c, query, read, steps).cap == c.cap,
    decreases steps,
{
    if steps > 0 {
        lemma_capped_follows_step(c, u, query, read);
        lemma_capped_follows_run(
            scan_env_step(c, query, read),
            scan_env_step(u, query, read),
            query,
            read,
            (steps - 1) as nat,
        );
    }
}

/// Against the same target memory, a scan capped at one result, or at a
/// positive stop value, ends no later than the full scan and returns the
/// first results of the full scan: the first of them (none when it found
/// none) when it does not return several, whatever the stop value; the
/// first `min(stop_at_value, n)` of its `n` results otherwise.
pub proof fn lemma_capped_scan_is_prefix_of_full_scan(
    pattern: Seq<u8>,
    return_multiple: bool,
    stop_at_value: usize,
    query: spec_fn(usize) -> Option<RegionInfo>,
    read: spec_fn(usize, usize) -> Option<Seq<u8>>,
    steps: nat,
)
    requires
        run_scan(scan_start(pattern, None), query, read, steps).step is Finished,
    ensures
        ({
            let full = run_scan(scan_start(pattern, None), query, read, steps).found;
            let part = run_scan(
                scan_start(pattern, scan_cap(return_multiple, stop_at_value)),
                query,
                read,
                steps,
            );
            &&& part.step is Finished
            &&& part.found == capped(full, scan_cap(return_multiple, stop_at_value))
            &&& !return_multiple ==> part.found == full.take(
                if full.len() < 1 { full.len() as int } else { 1 },
            )
            &&& (return_multiple && stop_at_value > 0) ==> part.found == full.take(
                if full.len() < stop_at_value { full.len() as int } else { stop_at_value as int },
            )
        }),
{
    let cap = scan_cap(return_multiple, stop_at_value);
    let c0 = scan_start(pattern, cap);
    let u0 = scan_start(pattern, None);
    assert(u0.seen.take(0) =~= c0.seen);
    assert(capped(c0.seen, cap) =~= c0.found);
    lemma_capped_follows_run(c0, u0, query, read, steps);
    let c = run_scan(c0, query, read, steps);
    let u = run_scan(u0, query, read, steps);
    if !(c.step == u.step && c.seen == u.seen) {
        assert(cap is Some);
        let k = cap->0;
        assert(c.seen.len() >= k);
        assert forall|i: int| 0 <= i < k implies u.seen[i] == c.seen[i] by {
            assert(u.seen.take(c.seen.len() as int)[i] == u.seen[i]);
        }
        assert(u.seen.take(k as int) =~= c.seen.take(k as int));
        assert(c.seen.take(k as int) =~= c.seen.take(k as int));
        if c.seen.len() == k {
            assert(c.seen.take(k as int) =~= c.seen);
        }
        if u.seen.len() == k {
            assert(u.seen.take(k as int) =~= u.seen);
        }
        assert(c.found == capped(u.seen, cap));
    }
    let full = u.found;
    assert(full.take(full.len() as int) =~= full);
}

/// A scan that does not return several results keeps at most one, and any
/// scan keeps no more results than its stop value when that is positive.
pub proof fn lemma_results_within_cap(m: ScanModel, return_multiple: bool, stop_at_value: usize)
    requires
        m.wf(),
        m.cap == scan_cap(return_multiple, stop_at_value),
    ensures
        !return_multiple ==> m.found.len() <= 1,
        stop_at_value > 0 ==> m.found.len() <= stop_at_value,
{
}

impl AobScan {
    /// A scan for `pattern` that keeps one result, or with
    /// `return_multiple` up to `stop_at_value` results (all when that is
    /// zero). An empty pattern finds nothing and the scan is over at once;
    /// otherwise it starts by asking for the region at address zero.
    pub fn new(pattern: Vec<u8>, return_multiple: bool, stop_at_value: usize) -> (s: Self)
        ensures
            s@.wf(),
            s@ == scan_start(pattern@, scan_cap(return_multiple, stop_at_value)),
    {
        let step = if pattern.len() == 0 {
            ScanStep::Finished
        } else {
            ScanStep::QueryRegion { address: 0 }
        };
        AobScan {
            pattern,
            return_multiple,
            stop_at_value,
            results: Vec::new(),
            seen: Ghost(Seq::empty()),
            step,
        }
    }

    /// What the scan needs next.
    pub fn next_step(&self) -> (step: ScanStep)
        ensures
            step == self@.step,
    {
        self.step
    }

    /// The results kept so far.
    pub fn results(&self) -> (r: &Vec<usize>)
        ensures
            r@ == self@.found,
    {
        &self.results
    }

    /// The results of the scan.
    pub fn into_results(self) -> (r: Vec<usize>)
        ensures
            r@ == self@.found,
    {
        self.results
    }

    /// Takes the answer to the pending region query (`None` when there is
    /// no region at or above the address).
    pub fn on_region(&mut self, region: Option<RegionInfo>)
        requires
            old(self)@.wf(),
            old(self)@.step is QueryRegion,
            region matches Some(r) ==> r.base_address + r.region_size <= usize::MAX,
        ensures
            final(self)@ == after_region(old(self)@, region),
            final(self)@.wf(),
    {
        match region {
            None => {
                self.step = ScanStep::Finished;
            },
            Some(r) => {
                if r.is_scannable() {
                    self.step = ScanStep::ReadRegion { base: r.base_address, size: r.region_size };
                } else {
                    self.step = ScanStep::QueryRegion { address: r.base_address + r.region_size };
                }
            },
        }
    }

    /// Takes the bytes read from the pending region (`None` when the read
    /// failed).
    pub fn on_read(&mut self, bytes: Option<&[u8]>)
        requires
            old(self)@.wf(),
            old(self)@.step is ReadRegion,
            bytes matches Some(b) ==> b@.len() <= old(self)@.step->size,
        ensures
            final(self)@ == after_read(old(self)@, match bytes {
                Some(b) => Some(b@),
                None => None,
            }),
            final(self)@.wf(),
    {
        let (base, size) = match self.step {
            ScanStep::ReadRegion { base, size } => (base, size),
            _ => (0, 0),
        };
        let next = ScanStep::QueryRegion { address: base + size };
        match bytes {
            Some(b) => {
                if b.len() >= self.pattern.len() {
                    let ghost new_seen = self.seen@ + region_matches(self.pattern@, base as int, b@);
                    let reached = scan_region(
                        &self.pattern,
                        base,
                        b,
                        &mut self.results,
                        self.return_multiple,
                        self.stop_at_value,
                    );
                    self.seen = Ghost(new_seen);
                    if reached {
                        self.step = ScanStep::Finished;
                    } else {
                        self.step = next;
                    }
                } else {
                    self.step = next;
                }
            },
            None => {
                self.step = next;
            },
        }
    }
}

impl Memory {
    /// Starts a scan of the process's memory for the bytes of `pattern`
    /// (see `AobScan::new`).
    pub fn aob_scan(&self, pattern: &str, return_multiple: bool, stop_at_value: usize) -> (s: AobScan)
        ensures
            s@.wf(),
            s@ == scan_start(vstd::utf8::encode_utf8(pattern@), scan_cap(return_multiple, stop_at_value)),
    {
        let bytes = self.string_to_pattern(pattern);
        AobScan::new(bytes, return_multiple, stop_at_value)
    }
}

} // verus!

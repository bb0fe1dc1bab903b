use vstd::prelude::*;

verus! {

/// `State` of a region whose pages are committed.
pub const MEM_COMMIT: u32 = 0x1000;
/// Page protection: read only.
pub const PAGE_READONLY: u32 = 0x02;
/// Page protection: read and write.
pub const PAGE_READWRITE: u32 = 0x04;
/// Page protection: execute and read.
pub const PAGE_EXECUTE_READ: u32 = 0x20;
/// Page protection: execute, read and write.
pub const PAGE_EXECUTE_READWRITE: u32 = 0x40;

/// A process whose memory is read: its handle, held as the handle's
/// numeric value, and the base address of its main module.
pub struct Memory {
    process_handle: usize,
    module_base: usize,
}

/// What a query of the address space reports of one region.
#[derive(Clone, Copy, Debug, PartialEq, Eq, Structural)]
pub struct RegionInfo {
    pub base_address: usize,
    pub region_size: usize,
    pub state: u32,
    pub protect: u32,
}

/// A region is scanned when its pages are committed and readable with a
/// plain protection.
pub open spec fn region_is_scannable(state: u32, protect: u32) -> bool {
    &&& state == MEM_COMMIT
    &&& (protect == PAGE_EXECUTE_READ || protect == PAGE_EXECUTE_READWRITE || protect
        == PAGE_READWRITE || protect == PAGE_READONLY)
}

impl RegionInfo {
    /// Whether the region is one that the scan reads.
    pub fn is_scannable(&self) -> (r: bool)
        ensures
            r == region_is_scannable(self.state, self.protect),
    {
        self.state == MEM_COMMIT && (self.protect == PAGE_EXECUTE_READ || self.protect
            == PAGE_EXECUTE_READWRITE || self.protect == PAGE_READWRITE || self.protect
            == PAGE_READONLY)
    }
}

/// The pattern matches `buf` at offset `i`: the first byte is equal, and
/// every later byte is equal or is a zero byte of the pattern, which
/// matches anything.
pub open spec fn pattern_matches_at(pattern: Seq<u8>, buf: Seq<u8>, i: int) -> bool {
    &&& pattern.len() > 0
    &&& 0 <= i
    &&& i + pattern.len() <= buf.len()
    &&& buf[i] == pattern[0]
    &&& forall|j: int| 1 <= j < pattern.len() ==> #[trigger] pattern[j] == 0u8 || buf[i + j] == pattern[j]
}

/// The addresses `base + i`, in increasing order, of the offsets `i < n`
/// at which the pattern matches `buf`.
pub open spec fn match_addresses(pattern: Seq<u8>, base: int, buf: Seq<u8>, n: int) -> Seq<usize>
    decreases n,
{
    if n <= 0 {
        Seq::empty()
    } else {
        let prev = match_addresses(pattern, base, buf, n - 1);
        if pattern_matches_at(pattern, buf, n - 1) {
            prev.push((base + n - 1) as usize)
        } else {
            prev
        }
    }
}

/// Every address at which the pattern matches a region read at `base`.
pub open spec fn region_matches(pattern: Seq<u8>, base: int, buf: Seq<u8>) -> Seq<usize> {
    match_addresses(pattern, base, buf, buf.len() as int)
}

/// The pattern matches at offset `i` of a buffer it fits in exactly when
/// the byte at `i` equals the pattern's first byte and, at every later
/// position whose pattern byte is not zero, the buffer byte equals the
/// pattern byte. The bytes under zero pattern bytes after the first, the
/// last one included, are never looked at.
pub proof fn lemma_match_condition(pattern: Seq<u8>, buf: Seq<u8>, i: int)
    requires
        pattern.len() > 0,
        0 <= i,
        i + pattern.len() <= buf.len(),
    ensures
        pattern_matches_at(pattern, buf, i) <==> (buf[i] == pattern[0] && forall|j: int|
            1 <= j < pattern.len() && pattern[j] != 0u8 ==> buf[i + j] == #[trigger] pattern[j]),
{
    if buf[i] == pattern[0] && forall|j: int|
        1 <= j < pattern.len() && pattern[j] != 0u8 ==> buf[i + j] == #[trigger] pattern[j] {
        assert forall|j: int| 1 <= j < pattern.len() implies #[trigger] pattern[j] == 0u8 || buf[i + j]
            == pattern[j] by {
            if pattern[j] != 0u8 {
                assert(buf[i + j] == pattern[j]);
            }
        }
    }
}

/// Changing the buffer only at positions under zero pattern bytes after
/// the first never changes whether the pattern matches there.
pub proof fn lemma_wildcard_bytes_ignored(pattern: Seq<u8>, buf: Seq<u8>, other: Seq<u8>, i: int)
    requires
        pattern.len() > 0,
        0 <= i,
        i + pattern.len() <= buf.len(),
        other.len() == buf.len(),
        forall|k: int|
            0 <= k < buf.len() && #[trigger] other[k] != buf[k] ==> i < k < i + pattern.len()
                && pattern[k - i] == 0u8,
    ensures
        pattern_matches_at(pattern, buf, i) <==> pattern_matches_at(pattern, other, i),
{
    lemma_match_condition(pattern, buf, i);
    lemma_match_condition(pattern, other, i);
    if other[i] != buf[i] {
        assert(false);
    }
    assert forall|j: int| 1 <= j < pattern.len() && pattern[j] != 0u8 implies buf[i + j] == other[i
        + j] by {
        if other[i + j] != buf[i + j] {
            assert(pattern[(i + j) - i] == 0u8);
        }
    }
}

/// A region is read exactly when its state is committed (`0x1000`) and its
/// protection is read-only (`0x02`), read-write (`0x04`), execute-read
/// (`0x20`) or execute-read-write (`0x40`); copy-on-write, execute-only,
/// guard or no-access pages are not read.
pub proof fn lemma_scannable_regions(state: u32, protect: u32)
    ensures
        region_is_scannable(state, protect) <==> (state == 0x1000u32 && (protect == 0x02u32
            || protect == 0x04u32 || protect == 0x20u32 || protect == 0x40u32)),
        region_is_scannable(state, protect) ==> protect != 0x01u32 && protect != 0x08u32
            && protect != 0x10u32 && protect != 0x80u32,
{
}

impl Memory {
    /// A process to read, by its handle and the base of its main module.
    pub fn new(process_handle: usize, module_base: usize) -> (m: Self)
        ensures
            m.process_handle_spec() == process_handle,
            m.module_base_spec() == module_base,
    {
        Memory { process_handle, module_base }
    }

    pub closed spec fn process_handle_spec(&self) -> usize {
        self.process_handle
    }

    pub closed spec fn module_base_spec(&self) -> usize {
        self.module_base
    }

    /// The handle through which the process is read.
    pub fn process_handle(&self) -> (h: usize)
        ensures
            h == self.process_handle_spec(),
    {
        self.process_handle
    }

    /// The base address of the process's main module.
    pub fn module_base(&self) -> (b: usize)
        ensures
            b == self.module_base_spec(),
    {
        self.module_base
    }

    /// The bytes searched for: the pattern text's UTF-8 encoding.
    pub fn string_to_pattern(&self, pattern: &str) -> (bytes: Vec<u8>)
        ensures
            bytes@ == vstd::utf8::encode_utf8(pattern@),
    {
        vstd::slice::slice_to_vec(pattern.as_bytes())
    }
}

} // verus!

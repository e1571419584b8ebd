//! Contract storage as the VM sees it: slots of bytes, cut into 32-byte pages.
//!
//! Pages the contract wrote during this execution live in an overlay (a
//! persistent red-black tree, so that snapshots are cheap); everything else is
//! read from the host. Reads combine both, writes only ever touch the overlay.

use vstd::prelude::*;

use crate::calldata::Address;
use crate::host::SlotID;

verus! {

/// Number of bytes in a storage page.
pub const PAGE_SIZE: u64 = 32;

/// Number of addressable bytes of one slot: page numbers are 32-bit.
pub const SLOT_BYTES: u64 = 0x20_0000_0000;

/// Identifier of one page of a storage slot: the slot and the page's number.
#[derive(Debug, Clone, Copy, PartialEq, Eq, Hash)]
pub struct PageID(pub SlotID, pub u32);

/// The four little-endian bytes of a `u32`.
pub open spec fn le_bytes_u32(v: u32) -> Seq<u8> {
    seq![
        (v % 256) as u8,
        ((v / 256) % 256) as u8,
        ((v / 65536) % 256) as u8,
        (v / 16777216) as u8,
    ]
}

impl PageID {
    /// The key under which the overlay keeps this page.
    pub open spec fn key(self) -> ([u8; 32], u32) {
        (self.0.0, self.1)
    }

    /// The slot's bytes followed by the page number in little-endian order.
    pub fn to_bytes(&self) -> (r: [u8; 36])
        ensures
            r@ == self.0.0@ + le_bytes_u32(self.1),
    {
        let mut res = [0u8; 36];
        let slot = self.0.raw();
        let mut i: usize = 0;
        while i < 32
            invariant
                0 <= i <= 32,
                res@.len() == 36,
                forall|j: int| 0 <= j < i ==> res@[j] == slot@[j],
                forall|j: int| 32 <= j < 36 ==> res@[j] == 0,
            decreases 32 - i,
        {
            res[i] = slot[i];
            i += 1;
        }
        let v = self.1;
        res[32] = (v % 256) as u8;
        res[33] = ((v / 256) % 256) as u8;
        res[34] = ((v / 65536) % 256) as u8;
        res[35] = (v / 16777216) as u8;
        assert(res@ =~= self.0.0@ + le_bytes_u32(self.1));
        res
    }
}

/// Key of a page in the overlay: the slot's bytes and the page's number.
pub type PageKey = ([u8; 32], u32);

/// The overlay's contents: pages by key.
pub type Overlay = Map<([u8; 32], u32), [u8; 32]>;

/// The persistent red-black tree that holds the overlay. Its contents are
/// known to proofs only through [`overlay_pages`].
#[verifier::external_body]
pub struct PageTree {
    tree: rpds::RedBlackTreeMap<([u8; 32], u32), [u8; 32]>,
}

/// The pages an overlay tree holds, by slot and page number.
pub uninterp spec fn overlay_pages(m: PageTree) -> Map<([u8; 32], u32), [u8; 32]>;

/// What a map holds under a key, if anything.
pub open spec fn map_get<K, V>(m: Map<K, V>, k: K) -> Option<V> {
    if m.dom().contains(k) {
        Some(m[k])
    } else {
        None
    }
}

/// `RedBlackTreeMap::new`: a tree that holds no page.
#[verifier::external_body]
fn tree_new() -> (r: PageTree)
    ensures
        overlay_pages(r) == Overlay::empty(),
{
    PageTree { tree: rpds::RedBlackTreeMap::new() }
}

/// `RedBlackTreeMap::get`: the page stored under `key`, if any (keys are
/// compared by their total order, which agrees with equality).
#[verifier::external_body]
fn tree_get(m: &PageTree, key: &([u8; 32], u32)) -> (r:
    Option<[u8; 32]>)
    ensures
        r == map_get(overlay_pages(*m), *key),
{
    m.tree.get(key).cloned()
}

/// `RedBlackTreeMap::insert`: a new tree equal to `m` but for `key`, which
/// now holds `value`; `m` itself is left as it was.
#[verifier::external_body]
fn tree_insert(
    m: &PageTree,
    key: ([u8; 32], u32),
    value: [u8; 32],
) -> (r: PageTree)
    ensures
        overlay_pages(r) == overlay_pages(*m).insert(key, value),
{
    PageTree { tree: m.tree.insert(key, value) }
}

/// Access to the storage the host keeps. Implemented by whoever embeds the VM.
pub trait HostStorage {
    /// The host's storage: byte `pos` of slot `slot` is
    /// `contents()(slot, pos)`. Reading does not change it. An implementor
    /// verified in Verus must define it (and `reads`) so that `storage_read`
    /// meets its contract; the default body exists only so that implementors
    /// written outside Verus, which cannot name spec functions, compile.
    open spec fn contents(&self) -> spec_fn(SlotID, int) -> u8 {
        vstd::pervasive::arbitrary()
    }

    /// How many reads the host has answered so far. An implementor verified
    /// in Verus defines it; one outside Verus leaves it open.
    open spec fn reads(&self) -> nat {
        vstd::pervasive::arbitrary()
    }

    /// Fills `buf` with the bytes of slot `slot_id` starting at byte `index`;
    /// each call is one read of the host.
    fn storage_read(&mut self, slot_id: SlotID, index: u32, buf: &mut [u8]) -> (r: Result<(), String>)
        ensures
            final(self).contents() == old(self).contents(),
            final(self).reads() == old(self).reads() + 1,
            final(buf)@.len() == old(buf)@.len(),
            r is Ok ==> forall|i: int|
                0 <= i < old(buf)@.len() ==> #[trigger] final(buf)@[i] == (old(self).contents())(slot_id, index + i),
    ;
}

/// Overlay key of the page that holds byte `pos` of a slot.
pub open spec fn pos_key(slot: SlotID, pos: int) -> ([u8; 32], u32) {
    (slot.0, (pos / 32) as u32)
}

/// Overlay key of page number `p` of a slot.
pub open spec fn page_key(slot: SlotID, p: int) -> ([u8; 32], u32) {
    (slot.0, p as u32)
}

/// Whether the overlay holds the page of byte `pos`.
pub open spec fn has_pos(m: Overlay, slot: SlotID, pos: int) -> bool {
    m.dom().contains(pos_key(slot, pos))
}

/// The byte at `pos` as the overlay has it.
pub open spec fn overlay_byte(m: Overlay, slot: SlotID, pos: int) -> u8 {
    m[pos_key(slot, pos)][pos % 32]
}

/// Whether the overlay holds every page of the bytes `start .. start + len`.
pub open spec fn covered(m: Overlay, slot: SlotID, start: int, len: int) -> bool {
    forall|i: int| 0 <= i < len ==> #[trigger] has_pos(m, slot, start + i)
}

/// The bytes `start .. start + len` as the overlay has them.
pub open spec fn overlay_bytes(m: Overlay, slot: SlotID, start: int, len: nat) -> Seq<u8> {
    Seq::new(len, |i: int| overlay_byte(m, slot, start + i))
}

/// First page from `p` on, up to `last + 1`, that the overlay lacks.
pub open spec fn first_absent(m: Overlay, slot: SlotID, p: int, last: int) -> int
    decreases last + 1 - p,
{
    if p > last {
        p
    } else if m.dom().contains(page_key(slot, p)) {
        first_absent(m, slot, p + 1, last)
    } else {
        p
    }
}

/// Last page from `p` down, to `first - 1`, that the overlay lacks.
pub open spec fn last_absent(m: Overlay, slot: SlotID, p: int, first: int) -> int
    decreases p + 1 - first,
{
    if p < first {
        p
    } else if m.dom().contains(page_key(slot, p)) {
        last_absent(m, slot, p - 1, first)
    } else {
        p
    }
}

/// `first_absent` stays within `p ..= last + 1`, where the overlay lacks it
/// unless it is `last + 1`, and the overlay holds every page before it.
pub proof fn lemma_first_absent(m: Overlay, slot: SlotID, p: int, last: int)
    requires
        p <= last + 1,
    ensures
        p <= first_absent(m, slot, p, last) <= last + 1,
        first_absent(m, slot, p, last) <= last ==> !m.dom().contains(
            page_key(slot, first_absent(m, slot, p, last)),
        ),
        forall|q: int| p <= q < first_absent(m, slot, p, last) ==> m.dom().contains(#[trigger] page_key(slot, q)),
    decreases last + 1 - p,
{
    if p <= last && m.dom().contains(page_key(slot, p)) {
        lemma_first_absent(m, slot, p + 1, last);
    }
}

/// `last_absent` stays within `first - 1 ..= p`, where the overlay lacks it
/// unless it is `first - 1`, and the overlay holds every page after it.
pub proof fn lemma_last_absent(m: Overlay, slot: SlotID, p: int, first: int)
    requires
        first - 1 <= p,
    ensures
        first - 1 <= last_absent(m, slot, p, first) <= p,
        last_absent(m, slot, p, first) >= first ==> !m.dom().contains(
            page_key(slot, last_absent(m, slot, p, first)),
        ),
        forall|q: int| last_absent(m, slot, p, first) < q <= p ==> m.dom().contains(#[trigger] page_key(slot, q)),
    decreases p + 1 - first,
{
    if p >= first && m.dom().contains(page_key(slot, p)) {
        lemma_last_absent(m, slot, p - 1, first);
    }
}

/// The bytes `start .. end` that a read of `start .. end` asks the host for:
/// the requested range without its leading and trailing pages that the
/// overlay holds. Empty (`lo >= hi`) when the overlay holds all of them.
pub open spec fn host_range(m: Overlay, slot: SlotID, start: int, end: int) -> (int, int) {
    let sp = start / 32;
    let ep = (end - 1) / 32;
    let fa = first_absent(m, slot, sp, ep);
    let la = last_absent(m, slot, ep, sp);
    (if fa == sp { start } else { 32 * fa }, if la == ep { end } else { 32 * (la + 1) })
}

/// Whether page `p` of a slot holds, after a write of `data` at byte `start`,
/// the written bytes where the write reached it and its former overlay bytes
/// elsewhere (where the overlay had it before).
pub open spec fn page_written(
    old: Overlay,
    new: Overlay,
    slot: SlotID,
    start: int,
    data: Seq<u8>,
    p: int,
) -> bool {
    &&& new.dom().contains(page_key(slot, p))
    &&& forall|j: int|
        0 <= j < 32 ==> {
            let pos = 32 * p + j;
            &&& (start <= pos < start + data.len() ==> #[trigger] new[page_key(slot, p)][j] == data[pos
                - start])
            &&& (!(start <= pos < start + data.len()) && old.dom().contains(page_key(slot, p))
                ==> new[page_key(slot, p)][j] == old[page_key(slot, p)][j])
        }
}

/// Whether the overlays agree on a key.
pub open spec fn same_at(
    old: Overlay,
    new: Overlay,
    k: ([u8; 32], u32),
) -> bool {
    map_get(old, k) == map_get(new, k)
}

/// Whether key `k` is a page of `slot` between `sp` and `ep`.
pub open spec fn in_pages(slot: SlotID, sp: int, ep: int, k: ([u8; 32], u32)) -> bool {
    k.0 == slot.0 && sp <= k.1 <= ep
}

/// Whether a page is only partly covered by the bytes `start .. end`.
pub open spec fn partial_page(start: int, end: int, p: int) -> bool {
    start > 32 * p || end < 32 * p + 32
}

/// The pages a write of `len` bytes at `start` touches, as (first, last).
pub open spec fn touched(start: int, len: int) -> (int, int) {
    (start / 32, (start + len - 1) / 32)
}

/// Whether a write of bytes `start .. end` must read page `p` of `slot` from
/// the host first: it covers the page only in part, and the overlay lacks it.
pub open spec fn page_needs_host(m: Overlay, slot: SlotID, start: int, end: int, p: int) -> bool {
    partial_page(start, end, p) && !m.dom().contains(page_key(slot, p))
}

/// How many host reads a write of `len` bytes at `start` of `slot` needs:
/// one for each of its first and last page that needs the host (only those
/// two can be covered in part).
pub open spec fn host_reads_needed(m: Overlay, slot: SlotID, start: int, len: int) -> nat {
    let (sp, ep) = touched(start, len);
    (if page_needs_host(m, slot, start, start + len, sp) { 1nat } else { 0nat }) + (if ep != sp
        && page_needs_host(m, slot, start, start + len, ep) {
        1nat
    } else {
        0nat
    })
}

/// A successful write of `data` at `start`: every touched page is written and
/// every other key keeps what it held.
pub open spec fn write_done(
    old: Overlay,
    new: Overlay,
    slot: SlotID,
    start: int,
    data: Seq<u8>,
) -> bool {
    let (sp, ep) = touched(start, data.len() as int);
    &&& forall|k: ([u8; 32], u32)| !in_pages(slot, sp, ep, k) ==> #[trigger] same_at(old, new, k)
    &&& forall|p: int| sp <= p <= ep ==> #[trigger] page_written(old, new, slot, start, data, p)
}

/// A failed write: every touched page is either written or as it was, and
/// every other key keeps what it held.
pub open spec fn write_partial(
    old: Overlay,
    new: Overlay,
    slot: SlotID,
    start: int,
    data: Seq<u8>,
) -> bool {
    let (sp, ep) = touched(start, data.len() as int);
    &&& forall|k: ([u8; 32], u32)| !in_pages(slot, sp, ep, k) ==> #[trigger] same_at(old, new, k)
    &&& forall|p: int|
        sp <= p <= ep ==> #[trigger] page_written(old, new, slot, start, data, p) || same_at(
            old,
            new,
            page_key(slot, p),
        )
}

/// Whether a write of `len` bytes at `start` can be done from the overlay
/// alone: every page it only partly covers is already there.
pub open spec fn write_needs_no_host(
    m: Overlay,
    slot: SlotID,
    start: int,
    len: int,
) -> bool {
    let (sp, ep) = touched(start, len);
    forall|p: int|
        sp <= p <= ep && #[trigger] partial_page(start, start + len, p) ==> m.dom().contains(
            page_key(slot, p),
        )
}

/// Writing part of `data` into page `p` writes `data` there: the part is the
/// overlap of `data` (at `start`) with the page.
pub proof fn lemma_page_written_sub(
    old: Overlay,
    new: Overlay,
    slot: SlotID,
    start: int,
    data: Seq<u8>,
    p: int,
)
    requires
        32 * p <= start + data.len() - 1,
        start <= 32 * p + 31,
        ({
            let lo = if start > 32 * p { start } else { 32 * p };
            let hi = if start + data.len() < 32 * p + 32 { start + data.len() } else { 32 * p + 32 };
            page_written(old, new, slot, lo, data.subrange(lo - start, hi - start), p)
        }),
    ensures
        page_written(old, new, slot, start, data, p),
{
    let lo = if start > 32 * p { start } else { 32 * p };
    let hi = if start + data.len() < 32 * p + 32 { start + data.len() } else { 32 * p + 32 };
    let d2 = data.subrange(lo - start, hi - start);
    assert forall|j: int| 0 <= j < 32 implies {
        let pos = 32 * p + j;
        &&& (start <= pos < start + data.len() ==> #[trigger] new[page_key(slot, p)][j] == data[pos
            - start])
        &&& (!(start <= pos < start + data.len()) && old.dom().contains(page_key(slot, p))
            ==> new[page_key(slot, p)][j] == old[page_key(slot, p)][j])
    } by {
        let pos = 32 * p + j;
        if start <= pos < start + data.len() {
            assert(lo <= pos < lo + d2.len());
            assert(d2[pos - lo] == data[pos - start]);
        }
    }
}

/// A page written over an intermediate overlay that still had the page as
/// the first overlay did counts as written over the first overlay.
pub proof fn lemma_page_written_same_base(
    m0: Overlay,
    m1: Overlay,
    m2: Overlay,
    slot: SlotID,
    start: int,
    data: Seq<u8>,
    p: int,
)
    requires
        same_at(m0, m1, page_key(slot, p)),
        page_written(m1, m2, slot, start, data, p),
    ensures
        page_written(m0, m2, slot, start, data, p),
{
}

/// A page replaced whole by the bytes of `data` that fall on it is written.
pub proof fn lemma_full_page_written(
    m0: Overlay,
    m1: Overlay,
    m2: Overlay,
    slot: SlotID,
    start: int,
    data: Seq<u8>,
    p: int,
    page: [u8; 32],
)
    requires
        start <= 32 * p,
        32 * p + 32 <= start + data.len(),
        m2 == m1.insert(page_key(slot, p), page),
        forall|j: int| 0 <= j < 32 ==> page@[j] == data[32 * p + j - start],
    ensures
        page_written(m0, m2, slot, start, data, p),
{
    assert forall|j: int| 0 <= j < 32 implies {
        let pos = 32 * p + j;
        &&& (start <= pos < start + data.len() ==> #[trigger] m2[page_key(slot, p)][j] == data[pos
            - start])
        &&& (!(start <= pos < start + data.len()) && m0.dom().contains(page_key(slot, p))
            ==> m2[page_key(slot, p)][j] == m0[page_key(slot, p)][j])
    } by {
        assert(page@[j] == data[32 * p + j - start]);
    }
}

/// A page written over one overlay stays written when another key is set.
pub proof fn lemma_page_kept(
    m0: Overlay,
    m1: Overlay,
    m2: Overlay,
    slot: SlotID,
    start: int,
    data: Seq<u8>,
    q: int,
    k: PageKey,
)
    requires
        page_written(m0, m1, slot, start, data, q),
        page_key(slot, q) != k,
        forall|k2: PageKey| k2 != k ==> #[trigger] same_at(m1, m2, k2),
    ensures
        page_written(m0, m2, slot, start, data, q),
{
    assert(same_at(m1, m2, page_key(slot, q)));
}

/// Whether page `q` has been written by the time the page loop of a write is
/// at page `p`: the partial first and last pages are written before the loop.
/// Whether page `p`, where a write of `data` at byte `start` brought it
/// into the overlay, holds the host's bytes at the positions the write did
/// not reach.
pub open spec fn page_filled(
    old: Overlay,
    new: Overlay,
    host: spec_fn(SlotID, int) -> u8,
    slot: SlotID,
    start: int,
    data: Seq<u8>,
    p: int,
) -> bool {
    !old.dom().contains(page_key(slot, p)) && new.dom().contains(page_key(slot, p)) ==> forall|j: int|
        0 <= j < 32 && !(start <= 32 * p + j < start + data.len()) ==> #[trigger] new[page_key(slot, p)][j]
            == host(slot, 32 * p + j)
}

/// A page the overlay keeps as it was stays filled.
pub proof fn lemma_filled_kept(
    m0: Overlay,
    m1: Overlay,
    m2: Overlay,
    host: spec_fn(SlotID, int) -> u8,
    slot: SlotID,
    start: int,
    data: Seq<u8>,
    q: int,
)
    requires
        page_filled(m0, m1, host, slot, start, data, q),
        same_at(m1, m2, page_key(slot, q)),
    ensures
        page_filled(m0, m2, host, slot, start, data, q),
{
    let k = page_key(slot, q);
    if m1.dom().contains(k) {
        assert(map_get(m1, k) == Some(m1[k]));
    } else {
        assert(map_get(m1, k) is None);
    }
}

/// A page the overlay has not changed is filled, there being nothing new.
pub proof fn lemma_filled_same(
    m0: Overlay,
    m1: Overlay,
    host: spec_fn(SlotID, int) -> u8,
    slot: SlotID,
    start: int,
    data: Seq<u8>,
    q: int,
)
    requires
        same_at(m0, m1, page_key(slot, q)),
    ensures
        page_filled(m0, m1, host, slot, start, data, q),
{
    let k = page_key(slot, q);
    if m0.dom().contains(k) {
        assert(map_get(m0, k) == Some(m0[k]));
    } else {
        assert(map_get(m0, k) is None);
    }
}

/// Filled against an overlay that agrees on the page with an earlier one
/// is filled against the earlier one.
pub proof fn lemma_filled_rebase(
    m0: Overlay,
    m1: Overlay,
    m2: Overlay,
    host: spec_fn(SlotID, int) -> u8,
    slot: SlotID,
    start: int,
    data: Seq<u8>,
    q: int,
)
    requires
        same_at(m0, m1, page_key(slot, q)),
        page_filled(m1, m2, host, slot, start, data, q),
    ensures
        page_filled(m0, m2, host, slot, start, data, q),
{
    let k = page_key(slot, q);
    if m0.dom().contains(k) {
        assert(map_get(m0, k) == Some(m0[k]));
    } else {
        assert(map_get(m0, k) is None);
    }
}

/// A page the write covers whole has no position left to fill.
pub proof fn lemma_filled_full(
    m0: Overlay,
    m1: Overlay,
    host: spec_fn(SlotID, int) -> u8,
    slot: SlotID,
    start: int,
    data: Seq<u8>,
    q: int,
)
    requires
        start <= 32 * q,
        32 * q + 32 <= start + data.len(),
    ensures
        page_filled(m0, m1, host, slot, start, data, q),
{
}

/// A page filled for part of a write is filled for the whole write, where
/// the part reaches every position of the page the whole does.
pub proof fn lemma_filled_sub(
    m0: Overlay,
    m1: Overlay,
    host: spec_fn(SlotID, int) -> u8,
    slot: SlotID,
    start: int,
    data: Seq<u8>,
    s2: int,
    d2: Seq<u8>,
    q: int,
)
    requires
        page_filled(m0, m1, host, slot, s2, d2, q),
        forall|j: int| 0 <= j < 32 && s2 <= #[trigger] (32 * q + j) < s2 + d2.len() ==> start <= 32 * q + j < start
            + data.len(),
    ensures
        page_filled(m0, m1, host, slot, start, data, q),
{
    if !m0.dom().contains(page_key(slot, q)) && m1.dom().contains(page_key(slot, q)) {
        assert forall|j: int| 0 <= j < 32 && !(start <= 32 * q + j < start + data.len()) implies #[trigger] m1[page_key(
            slot,
            q,
        )][j] == host(slot, 32 * q + j) by {
            assert(!(s2 <= 32 * q + j < s2 + d2.len()));
        }
    }
}

pub open spec fn done_page(q: int, p: int, sp: int, ep: int, partial_first: bool, partial_last: bool) -> bool {
    q < p || (q == sp && partial_first) || (q == ep && partial_last)
}

/// Read after write: once a write of `data` at byte `index` of a slot has
/// succeeded, the overlay holds every page of those bytes, and they are
/// exactly `data` — so a read of the same bytes succeeds and returns `data`,
/// whatever the host holds, without reading the host.
pub proof fn read_after_write(old: Overlay, new: Overlay, slot: SlotID, index: int, data: Seq<u8>)
    requires
        0 <= index,
        data.len() > 0,
        index + data.len() <= SLOT_BYTES,
        write_done(old, new, slot, index, data),
    ensures
        covered(new, slot, index, data.len() as int),
        overlay_bytes(new, slot, index, data.len()) == data,
{
    let (sp, ep) = touched(index, data.len() as int);
    assert forall|i: int| 0 <= i < data.len() implies #[trigger] has_pos(new, slot, index + i)
        && overlay_byte(new, slot, index + i) == data[i] by {
        let pos = index + i;
        let q = pos / 32;
        assert(sp <= q <= ep);
        assert(page_written(old, new, slot, index, data, q));
        assert(pos_key(slot, pos) == page_key(slot, q));
        let j = pos - 32 * q;
        assert(0 <= j < 32);
        assert(pos % 32 == j);
        assert(new[page_key(slot, q)][j] == data[32 * q + j - index]);
    }
    assert forall|i: int| 0 <= i < data.len() implies #[trigger] overlay_bytes(new, slot, index, data.len())[i]
        == data[i] by {
        assert(has_pos(new, slot, index + i));
    }
    assert(overlay_bytes(new, slot, index, data.len()) =~= data);
}

/// A write, finished or not, leaves every byte outside the written range as
/// the overlay had it: in other slots, and in the same slot before and after
/// the range.
pub proof fn write_keeps_other_bytes(
    old: Overlay,
    new: Overlay,
    slot: SlotID,
    index: int,
    data: Seq<u8>,
    other: SlotID,
    pos: int,
)
    requires
        0 <= index,
        0 <= pos < SLOT_BYTES,
        index + data.len() <= SLOT_BYTES,
        write_done(old, new, slot, index, data) || write_partial(old, new, slot, index, data),
        other != slot || !(index <= pos < index + data.len()),
        has_pos(old, other, pos),
    ensures
        has_pos(new, other, pos),
        overlay_byte(new, other, pos) == overlay_byte(old, other, pos),
{
    let (sp, ep) = touched(index, data.len() as int);
    let k = pos_key(other, pos);
    let q = pos / 32;
    if in_pages(slot, sp, ep, k) {
        assert(other.0 == slot.0);
        assert(other == slot);
        assert(k == page_key(slot, q));
        if write_done(old, new, slot, index, data) {
            assert(page_written(old, new, slot, index, data, q));
        } else {
            assert(page_written(old, new, slot, index, data, q) || same_at(old, new, page_key(slot, q)));
        }
        let j = pos - 32 * q;
        assert(pos % 32 == j);
    } else {
        assert(same_at(old, new, k));
    }
}

/// The 32 bytes of `buf` from `off` on.
fn full_page(buf: &[u8], off: usize) -> (r: [u8; 32])
    requires
        off + 32 <= buf@.len(),
    ensures
        forall|j: int| 0 <= j < 32 ==> r@[j] == buf@[off + j],
{
    let mut page = [0u8; 32];
    let n = buf.len();
    let mut j: usize = 0;
    while j < 32
        invariant
            j <= 32,
            n == buf@.len(),
            off + 32 <= n,
            forall|t: int| 0 <= t < j ==> page@[t] == buf@[off + t],
        decreases 32 - j,
    {
        page[j] = buf[off + j];
        j = j + 1;
    }
    page
}

/// A storage view of one contract: the overlay of pages written so far, over
/// the host's storage.
pub struct Storage<HS: HostStorage> {
    pub address: Address,
    host: HS,
    pages: PageTree,
}

impl<HS: HostStorage> Storage<HS> {

    /// The pages written so far.
    pub closed spec fn overlay(&self) -> Overlay {
        overlay_pages(self.pages)
    }

    /// The contract the storage belongs to.
    pub closed spec fn addr(&self) -> Address {
        self.address
    }

    /// The host's storage under the overlay.
    pub closed spec fn host_contents(&self) -> spec_fn(SlotID, int) -> u8 {
        self.host.contents()
    }

    /// How many times the host has been read through this storage's host.
    pub closed spec fn host_reads(&self) -> nat {
        self.host.reads()
    }

    pub fn new(address: Address, host: HS) -> (s: Self)
        ensures
            s.addr() == address,
            s.overlay() == Overlay::empty(),
            s.host_contents() == host.contents(),
            s.host_reads() == host.reads(),
    {
        Storage { address, host, pages: tree_new() }
    }

    /// The page the overlay holds for `key`, if any.
    pub fn read_page_override(&self, key: PageID) -> (r: Option<[u8; 32]>)
        ensures
            r == map_get(self.overlay(), key.key()),
    {
        tree_get(&self.pages, &(key.0.0, key.1))
    }

    /// Puts a whole page into the overlay.
    pub fn write_page(&mut self, key: PageID, value: [u8; 32])
        ensures
            final(self).addr() == old(self).addr(),
            final(self).overlay() == old(self).overlay().insert(key.key(), value),
            final(self).host_contents() == old(self).host_contents(),
            final(self).host_reads() == old(self).host_reads(),
    {
        self.pages = tree_insert(&self.pages, (key.0.0, key.1), value);
    }

    /// First page in `sp ..= ep` the overlay lacks (`ep + 1` if none).
    fn first_absent_page(&self, slot: SlotID, sp: u64, ep: u64) -> (r: u64)
        requires
            sp <= ep < 0x1_0000_0000,
        ensures
            r == first_absent(self.overlay(), slot, sp as int, ep as int),
    {
        let mut p = sp;
        while p <= ep && tree_get(&self.pages, &(slot.0, p as u32)).is_some()
            invariant
                sp <= p <= ep + 1,
                ep < 0x1_0000_0000,
                first_absent(self.overlay(), slot, sp as int, ep as int) == first_absent(
                    self.overlay(),
                    slot,
                    p as int,
                    ep as int,
                ),
            decreases ep + 1 - p,
        {
            p = p + 1;
        }
        p
    }

    /// One past the last page in `sp ..= ep` the overlay lacks (`sp` if none).
    fn last_absent_page(&self, slot: SlotID, sp: u64, ep: u64) -> (r: u64)
        requires
            sp <= ep < 0x1_0000_0000,
        ensures
            r == last_absent(self.overlay(), slot, ep as int, sp as int) + 1,
    {
        let mut q = ep + 1;
        while q > sp && tree_get(&self.pages, &(slot.0, (q - 1) as u32)).is_some()
            invariant
                sp <= q <= ep + 1,
                ep < 0x1_0000_0000,
                last_absent(self.overlay(), slot, ep as int, sp as int) == last_absent(
                    self.overlay(),
                    slot,
                    q - 1,
                    sp as int,
                ),
            decreases q,
        {
            q = q - 1;
        }
        q
    }

    /// The part of `index .. index + len` that must come from the host: see
    /// [`host_range`]. Empty when `lo >= hi`.
    pub fn host_read_range(&self, slot_id: SlotID, index: u32, len: u64) -> (r: (u64, u64))
        requires
            0 < len,
            index + len <= SLOT_BYTES,
        ensures
            r.0 == host_range(self.overlay(), slot_id, index as int, index + len).0,
            r.1 == host_range(self.overlay(), slot_id, index as int, index + len).1,
    {
        let start = index as u64;
        let end = start + len;
        let sp = start / 32;
        let ep = (end - 1) / 32;
        let fa = self.first_absent_page(slot_id, sp, ep);
        let la1 = self.last_absent_page(slot_id, sp, ep);
        proof {
            lemma_first_absent(self.overlay(), slot_id, sp as int, ep as int);
            lemma_last_absent(self.overlay(), slot_id, ep as int, sp as int);
        }
        let lo = if fa == sp {
            start
        } else {
            32 * fa
        };
        let hi = if la1 == ep + 1 {
            end
        } else {
            32 * la1
        };
        (lo, hi)
    }

    /// Replaces each byte of `buf` (which holds bytes `index ..` of the slot)
    /// whose page the overlay holds by the overlay's byte.
    pub fn apply_overrides(&self, slot_id: SlotID, index: u32, buf: &mut [u8])
        requires
            index + old(buf)@.len() <= SLOT_BYTES,
        ensures
            final(buf)@.len() == old(buf)@.len(),
            forall|i: int|
                0 <= i < old(buf)@.len() ==> #[trigger] final(buf)@[i] == if has_pos(
                    self.overlay(),
                    slot_id,
                    index + i,
                ) {
                    overlay_byte(self.overlay(), slot_id, index + i)
                } else {
                    old(buf)@[i]
                },
    {
        let len = buf.len();
        if len == 0 {
            return ;
        }
        let start = index as u64;
        let end = start + len as u64;
        let sp = start / 32;
        let ep = (end - 1) / 32;
        let ghost m = self.overlay();
        let ghost orig = buf@;
        let mut p = sp;
        while p <= ep
            invariant
                sp <= p <= ep + 1,
                sp == start / 32,
                ep == (end - 1) / 32,
                start == index,
                end == start + len,
                len == orig.len(),
                end <= SLOT_BYTES,
                m == self.overlay(),
                buf@.len() == orig.len(),
                forall|i: int|
                    0 <= i < len ==> #[trigger] buf@[i] == if (start + i) / 32 < p && has_pos(
                        m,
                        slot_id,
                        start + i,
                    ) {
                        overlay_byte(m, slot_id, start + i)
                    } else {
                        orig[i]
                    },
            decreases ep + 1 - p,
        {
            let page = tree_get(&self.pages, &(slot_id.0, p as u32));
            if let Some(page_data) = page {
                let page_start = p * 32;
                let page_end = page_start + 32;
                let lo = if start > page_start {
                    start
                } else {
                    page_start
                };
                let hi = if end < page_end {
                    end
                } else {
                    page_end
                };
                let mut pos = lo;
                while pos < hi
                    invariant
                        lo <= pos <= hi,
                        lo == if start > page_start { start } else { page_start },
                        hi == if end < page_end { end } else { page_end },
                        page_start == p * 32,
                        page_end == page_start + 32,
                        sp <= p <= ep,
                        sp == start / 32,
                        ep == (end - 1) / 32,
                        end == start + len,
                        len == orig.len(),
                        end <= SLOT_BYTES,
                        m == self.overlay(),
                        map_get(m, (slot_id.0, p as u32)) == Some(page_data),
                        buf@.len() == orig.len(),
                        forall|i: int|
                            0 <= i < len ==> #[trigger] buf@[i] == if ((start + i) / 32 < p || (
                            (start + i) / 32 == p && start + i < pos)) && has_pos(
                                m,
                                slot_id,
                                start + i,
                            ) {
                                overlay_byte(m, slot_id, start + i)
                            } else {
                                orig[i]
                            },
                    decreases hi - pos,
                {
                    let off = (pos - page_start) as usize;
                    let dst = (pos - start) as usize;
                    proof {
                        assert((start + dst) / 32 == p as int);
                        assert(pos_key(slot_id, start + dst) == (slot_id.0, p as u32));
                        assert((start + dst) % 32 == off as int);
                    }
                    buf[dst] = page_data[off];
                    pos = pos + 1;
                }
            } else {
                proof {
                    assert forall|i: int| 0 <= i < len && (start + i) / 32 == p implies !#[trigger] has_pos(
                        m,
                        slot_id,
                        start + i,
                    ) by {
                        assert(pos_key(slot_id, start + i) == (slot_id.0, p as u32));
                    }
                }
            }
            p = p + 1;
        }
        proof {
            assert forall|i: int| 0 <= i < len implies #[trigger] buf@[i] == if has_pos(
                m,
                slot_id,
                start + i,
            ) {
                overlay_byte(m, slot_id, start + i)
            } else {
                orig[i]
            } by {
                assert((start + i) / 32 < p);
            }
        }
    }

    /// Reads bytes `index .. index + buf.len()` of a slot into `buf`: the
    /// pages the overlay holds from the overlay, the rest from the host (one
    /// host read, of the range [`host_read_range`] gives).
    pub fn read(&mut self, slot_id: SlotID, index: u32, buf: &mut [u8]) -> (r: Result<(), String>)
        requires
            index + old(buf)@.len() <= SLOT_BYTES,
        ensures
            final(self).overlay() == old(self).overlay(),
            final(self).addr() == old(self).addr(),
            final(buf)@.len() == old(buf)@.len(),
            covered(old(self).overlay(), slot_id, index as int, old(buf)@.len() as int) ==> r is Ok,
            r is Ok ==> forall|i: int|
                0 <= i < old(buf)@.len() && #[trigger] has_pos(old(self).overlay(), slot_id, index + i)
                    ==> final(buf)@[i] == overlay_byte(old(self).overlay(), slot_id, index + i),
            r is Ok && index + old(buf)@.len() <= u32::MAX ==> forall|i: int|
                0 <= i < old(buf)@.len() && !#[trigger] has_pos(old(self).overlay(), slot_id, index + i)
                    ==> final(buf)@[i] == (old(self).host_contents())(slot_id, index + i),
            final(self).host_contents() == old(self).host_contents(),
            final(self).host_reads() <= old(self).host_reads() + 1,
            covered(old(self).overlay(), slot_id, index as int, old(buf)@.len() as int) ==> final(self).host_reads()
                == old(self).host_reads(),
    {
        let len = buf.len();
        if len == 0 {
            return Ok(());
        }
        let ghost m = self.overlay();
        let start = index as u64;
        let end = start + len as u64;
        let (lo, hi) = self.host_read_range(slot_id, index, len as u64);
        proof {
            let sp = start / 32;
            let ep = (end - 1) / 32;
            lemma_first_absent(m, slot_id, sp as int, ep as int);
            lemma_last_absent(m, slot_id, ep as int, sp as int);
            if covered(m, slot_id, index as int, len as int) {
                let fa = first_absent(m, slot_id, sp as int, ep as int);
                if fa <= ep {
                    let i = if 32 * fa > start { 32 * fa - start } else { 0 };
                    assert(has_pos(m, slot_id, start + i));
                    assert(pos_key(slot_id, start + i) == page_key(slot_id, fa));
                }
                let la = last_absent(m, slot_id, ep as int, sp as int);
                if la >= sp {
                    let i = if 32 * la > start { 32 * la - start } else { 0 };
                    assert(has_pos(m, slot_id, start + i));
                    assert(pos_key(slot_id, start + i) == page_key(slot_id, la));
                }
            }
        }
        let ghost h = self.host_contents();
        proof {
            let sp = start / 32;
            let ep = (end - 1) / 32;
            assert forall|i: int| 0 <= i < len && !#[trigger] has_pos(m, slot_id, start + i) implies lo <= start
                + i < hi by {
                let q = (start + i) / 32;
                assert(pos_key(slot_id, start + i) == page_key(slot_id, q));
                assert(sp <= q <= ep);
                let fa = first_absent(m, slot_id, sp as int, ep as int);
                let la = last_absent(m, slot_id, ep as int, sp as int);
                if start + i < lo {
                    assert(fa != sp);
                    assert(q < fa);
                }
                if start + i >= hi {
                    assert(la != ep);
                    assert(q > la);
                }
            }
        }
        if lo < hi {
            let n = (hi - lo) as usize;
            let off = (lo - start) as usize;
            let mut tmp: Vec<u8> = Vec::new();
            let mut k: usize = 0;
            while k < n
                invariant
                    k <= n,
                    tmp@.len() == k,
                decreases n - k,
            {
                tmp.push(0u8);
                k = k + 1;
            }
            let res = self.host.storage_read(slot_id, lo as u32, tmp.as_mut_slice());
            if let Err(e) = res {
                return Err(e);
            }
            let mut i: usize = 0;
            while i < n && i < tmp.len()
                invariant
                    off + n <= buf@.len(),
                    buf@.len() == len,
                    tmp@.len() == n,
                    off == lo - start,
                    forall|t: int| 0 <= t < n ==> #[trigger] tmp@[t] == h(slot_id, (lo as u32) + t),
                    forall|t: int| 0 <= t < i ==> #[trigger] buf@[off + t] == h(slot_id, (lo as u32) + t),
                decreases n - i,
            {
                buf[off + i] = tmp[i];
                i = i + 1;
            }
            proof {
                assert forall|q: int| lo <= q < hi && end <= u32::MAX implies #[trigger] buf@[q - start] == h(
                    slot_id,
                    q,
                ) by {
                    assert(buf@[off + (q - lo)] == h(slot_id, (lo as u32) + (q - lo)));
                    assert((lo as u32) == lo);
                }
            }
        }
        let ghost before = buf@;
        self.apply_overrides(slot_id, index, buf);
        proof {
            assert forall|i: int| 0 <= i < len && end <= u32::MAX && !#[trigger] has_pos(m, slot_id, index + i)
                implies buf@[i] == h(slot_id, index + i) by {
                assert(lo <= start + i < hi);
                assert(before[(start + i) - start] == h(slot_id, start + i));
            }
        }
        Ok(())
    }

    /// Writes `data` into page `page_id` at byte `offset_in_page`. The rest of
    /// the page is what the overlay had, or, when the page is not there and
    /// the write does not cover it whole, what the host has.
    fn write_single_page(&mut self, page_id: PageID, offset_in_page: usize, data: &[u8]) -> (r:
        Result<(), String>)
        requires
            data@.len() > 0,
            offset_in_page + data@.len() <= 32,
        ensures
            final(self).addr() == old(self).addr(),
            r is Ok ==> page_written(
                old(self).overlay(),
                final(self).overlay(),
                page_id.0,
                32 * page_id.1 + offset_in_page,
                data@,
                page_id.1 as int,
            ),
            r is Ok ==> forall|k: PageKey|
                k != page_key(page_id.0, page_id.1 as int) ==> #[trigger] same_at(
                    old(self).overlay(),
                    final(self).overlay(),
                    k,
                ),
            r is Err ==> final(self).overlay() == old(self).overlay(),
            (offset_in_page == 0 && data@.len() == 32) || old(self).overlay().dom().contains(
                page_key(page_id.0, page_id.1 as int),
            ) ==> r is Ok,
            final(self).host_contents() == old(self).host_contents(),
            final(self).host_reads() == old(self).host_reads() + if (offset_in_page == 0 && data@.len() == 32)
                || old(self).overlay().dom().contains(page_key(page_id.0, page_id.1 as int)) {
                0nat
            } else {
                1nat
            },
            r is Ok && 32 * page_id.1 <= u32::MAX ==> page_filled(
                old(self).overlay(),
                final(self).overlay(),
                old(self).host_contents(),
                page_id.0,
                32 * page_id.1 + offset_in_page,
                data@,
                page_id.1 as int,
            ),
    {
        let ghost m = self.overlay();
        let ghost h = self.host_contents();
        let ghost from_host = false;
        let key = (page_id.0.0, page_id.1);
        assert(key == page_key(page_id.0, page_id.1 as int));
        let mut page_data = [0u8; 32];
        if offset_in_page == 0 && data.len() == 32 {
            let mut j: usize = 0;
            while j < 32
                invariant
                    j <= 32,
                    data@.len() == 32,
                    forall|t: int| 0 <= t < j ==> page_data@[t] == data@[t],
                decreases 32 - j,
            {
                page_data[j] = data[j];
                j = j + 1;
            }
        } else {
            let existing = tree_get(&self.pages, &key);
            match existing {
                Some(e) => {
                    page_data = e;
                },
                None => {
                    let mut tmp: Vec<u8> = Vec::new();
                    let mut k: usize = 0;
                    while k < 32
                        invariant
                            k <= 32,
                            tmp@.len() == k,
                        decreases 32 - k,
                    {
                        tmp.push(0u8);
                        k = k + 1;
                    }
                    let page_start = (page_id.1 as u64) * 32;
                    let res = self.host.storage_read(page_id.0, page_start as u32, tmp.as_mut_slice());
                    if let Err(e) = res {
                        return Err(e);
                    }
                    let mut t: usize = 0;
                    while t < 32 && t < tmp.len()
                        invariant
                            t <= 32,
                            tmp@.len() == 32,
                            forall|u: int| 0 <= u < 32 ==> #[trigger] tmp@[u] == h(page_id.0, (page_start as u32) + u),
                            forall|u: int| 0 <= u < t ==> #[trigger] page_data@[u] == tmp@[u],
                        decreases 32 - t,
                    {
                        page_data[t] = tmp[t];
                        t = t + 1;
                    }
                    proof {
                        from_host = true;
                        assert(page_start == 32 * page_id.1);
                    }
                },
            }
            let ghost base = page_data@;
            assert(from_host && 32 * page_id.1 <= u32::MAX ==> forall|u: int| 0 <= u < 32 ==> #[trigger] base[u]
                == h(page_id.0, 32 * page_id.1 + u));
            assert(!from_host ==> m.dom().contains(key));
            let mut j: usize = 0;
            while j < data.len()
                invariant
                    j <= data@.len(),
                    offset_in_page + data@.len() <= 32,
                    page_data@.len() == 32,
                    forall|t: int|
                        0 <= t < 32 ==> #[trigger] page_data@[t] == if offset_in_page <= t < offset_in_page
                            + j {
                            data@[t - offset_in_page]
                        } else {
                            base[t]
                        },
                decreases data@.len() - j,
            {
                page_data[offset_in_page + j] = data[j];
                j = j + 1;
            }
        }
        self.pages = tree_insert(&self.pages, key, page_data);
        Ok(())
    }

    /// Writes `buf` at bytes `index ..` of a slot. Pages the write covers whole
    /// are replaced; a page it covers in part is completed from the overlay, or
    /// else from the host. Nothing but the overlay changes.
    pub fn write(&mut self, slot_id: SlotID, index: u32, buf: &[u8]) -> (r: Result<(), String>)
        requires
            index + buf@.len() <= SLOT_BYTES,
        ensures
            final(self).addr() == old(self).addr(),
            buf@.len() == 0 ==> r is Ok && final(self).overlay() == old(self).overlay(),
            buf@.len() > 0 && r is Ok ==> write_done(
                old(self).overlay(),
                final(self).overlay(),
                slot_id,
                index as int,
                buf@,
            ),
            r is Err ==> write_partial(
                old(self).overlay(),
                final(self).overlay(),
                slot_id,
                index as int,
                buf@,
            ),
            write_needs_no_host(old(self).overlay(), slot_id, index as int, buf@.len() as int) ==> r is Ok,
            final(self).host_contents() == old(self).host_contents(),
            buf@.len() == 0 ==> final(self).host_reads() == old(self).host_reads(),
            buf@.len() > 0 ==> final(self).host_reads() <= old(self).host_reads() + host_reads_needed(
                old(self).overlay(),
                slot_id,
                index as int,
                buf@.len() as int,
            ),
            buf@.len() > 0 && r is Ok ==> final(self).host_reads() == old(self).host_reads() + host_reads_needed(
                old(self).overlay(),
                slot_id,
                index as int,
                buf@.len() as int,
            ),
            buf@.len() > 0 && index + buf@.len() <= u32::MAX ==> forall|p: int|
                touched(index as int, buf@.len() as int).0 <= p <= touched(index as int, buf@.len() as int).1
                    ==> #[trigger] page_filled(
                    old(self).overlay(),
                    final(self).overlay(),
                    old(self).host_contents(),
                    slot_id,
                    index as int,
                    buf@,
                    p,
                ),
    {
        let len = buf.len();
        if len == 0 {
            return Ok(());
        }
        let ghost m = self.overlay();
        let ghost h = self.host_contents();
        let ghost data = buf@;
        let start = index as u64;
        let end = start + len as u64;
        let sp = start / 32;
        let ep = (end - 1) / 32;
        if sp == ep {
            let off = (start % 32) as usize;
            let r = self.write_single_page(PageID(slot_id, sp as u32), off, buf);
            proof {
                assert(32 * sp + off == start);
                assert forall|k: PageKey| !in_pages(slot_id, sp as int, ep as int, k) implies #[trigger] same_at(
                    m,
                    self.overlay(),
                    k,
                ) by {
                    if r is Ok {
                        assert(k != page_key(slot_id, sp as int));
                    }
                }
                if !(off == 0 && len == 32) {
                    assert(partial_page(start as int, end as int, sp as int));
                }
                if end <= u32::MAX {
                    assert forall|q: int| sp <= q <= ep implies #[trigger] page_filled(
                        m,
                        self.overlay(),
                        h,
                        slot_id,
                        start as int,
                        data,
                        q,
                    ) by {
                        if r is Err {
                            lemma_filled_same(m, self.overlay(), h, slot_id, start as int, data, q);
                        }
                    }
                }
            }
            return r;
        }
        let first_start = sp * 32;
        let last_start = ep * 32;
        let partial_first = start > first_start;
        let partial_last = end < last_start + 32;
        proof {
            assert(page_key(slot_id, sp as int) != page_key(slot_id, ep as int));
        }
        if partial_first {
            let off = (start - first_start) as usize;
            let copy_len = 32 - off;
            let part = &buf[0..copy_len];
            let r = self.write_single_page(PageID(slot_id, sp as u32), off, part);
            proof {
                assert(partial_page(start as int, end as int, sp as int));
                if r is Ok {
                    assert(part@ == data.subrange(0, copy_len as int));
                    lemma_page_written_sub(m, self.overlay(), slot_id, start as int, data, sp as int);
                }
                assert forall|k: PageKey| !in_pages(slot_id, sp as int, ep as int, k) implies #[trigger] same_at(
                    m,
                    self.overlay(),
                    k,
                ) by {
                    if r is Ok {
                        assert(k != page_key(slot_id, sp as int));
                    }
                }
                assert forall|q: int| sp < q <= ep implies #[trigger] same_at(
                    m,
                    self.overlay(),
                    page_key(slot_id, q),
                ) by {
                    if r is Ok {
                        assert(page_key(slot_id, q) != page_key(slot_id, sp as int));
                    }
                }
                if end <= u32::MAX {
                    assert forall|q: int| sp <= q <= ep implies #[trigger] page_filled(
                        m,
                        self.overlay(),
                        h,
                        slot_id,
                        start as int,
                        data,
                        q,
                    ) by {
                        if q == sp && r is Ok {
                            assert(32 * sp + off == start);
                            assert forall|j: int| 0 <= j < 32 && start <= #[trigger] (32 * sp + j) < start + part@.len()
                                implies start <= 32 * sp + j < start + data.len() by {}
                            lemma_filled_sub(m, self.overlay(), h, slot_id, start as int, data, start as int, part@, sp as int);
                        } else if q == sp {
                            lemma_filled_same(m, self.overlay(), h, slot_id, start as int, data, q);
                        } else {
                            lemma_filled_same(m, self.overlay(), h, slot_id, start as int, data, q);
                        }
                    }
                }
            }
            if r.is_err() {
                return r;
            }
        }
        proof {
            if !partial_first && end <= u32::MAX {
                assert forall|q: int| sp <= q <= ep implies #[trigger] page_filled(
                    m,
                    self.overlay(),
                    h,
                    slot_id,
                    start as int,
                    data,
                    q,
                ) by {
                    lemma_filled_same(m, self.overlay(), h, slot_id, start as int, data, q);
                }
            }
        }
        let ghost m1 = self.overlay();
        proof {
            assert(same_at(m, m1, page_key(slot_id, ep as int)));
        }
        if partial_last {
            let end_off = (end - last_start) as usize;
            let src = len - end_off;
            let part = &buf[src..len];
            let r = self.write_single_page(PageID(slot_id, ep as u32), 0, part);
            proof {
                assert(partial_page(start as int, end as int, ep as int));
                if r is Ok {
                    assert(part@ == data.subrange(src as int, len as int));
                    lemma_page_written_sub(m1, self.overlay(), slot_id, start as int, data, ep as int);
                    lemma_page_written_same_base(m, m1, self.overlay(), slot_id, start as int, data, ep as int);
                    if partial_first {
                        lemma_page_kept(m, m1, self.overlay(), slot_id, start as int, data, sp as int, page_key(slot_id, ep as int));
                    }
                }
                assert forall|k: PageKey| !in_pages(slot_id, sp as int, ep as int, k) implies #[trigger] same_at(
                    m,
                    self.overlay(),
                    k,
                ) by {
                    assert(same_at(m, m1, k));
                    if r is Ok {
                        assert(k != page_key(slot_id, ep as int));
                        assert(same_at(m1, self.overlay(), k));
                    } else {
                        assert(self.overlay() == m1);
                    }
                }
                assert forall|q: int| sp < q < ep implies #[trigger] same_at(
                    m,
                    self.overlay(),
                    page_key(slot_id, q),
                ) by {
                    assert(same_at(m, m1, page_key(slot_id, q)));
                    if r is Ok {
                        assert(page_key(slot_id, q) != page_key(slot_id, ep as int));
                        assert(same_at(m1, self.overlay(), page_key(slot_id, q)));
                    } else {
                        assert(self.overlay() == m1);
                    }
                }
                if !partial_first {
                    assert(same_at(m, self.overlay(), page_key(slot_id, sp as int)));
                }
                if end <= u32::MAX {
                    assert forall|q: int| sp <= q <= ep implies #[trigger] page_filled(
                        m,
                        self.overlay(),
                        h,
                        slot_id,
                        start as int,
                        data,
                        q,
                    ) by {
                        assert(page_filled(m, m1, h, slot_id, start as int, data, q));
                        if r is Err {
                            assert(self.overlay() == m1);
                        } else if q == ep {
                            assert(same_at(m, m1, page_key(slot_id, ep as int)));
                            assert forall|j: int| 0 <= j < 32 && 32 * ep <= #[trigger] (32 * ep + j) < 32 * ep
                                + part@.len() implies start <= 32 * ep + j < start + data.len() by {}
                            lemma_filled_sub(m1, self.overlay(), h, slot_id, start as int, data, 32 * ep, part@, ep as int);
                            lemma_filled_rebase(m, m1, self.overlay(), h, slot_id, start as int, data, ep as int);
                        } else {
                            assert(page_key(slot_id, q) != page_key(slot_id, ep as int));
                            assert(same_at(m1, self.overlay(), page_key(slot_id, q)));
                            lemma_filled_kept(m, m1, self.overlay(), h, slot_id, start as int, data, q);
                        }
                    }
                }
            }
            if r.is_err() {
                return r;
            }
        }
        let ghost r_loop = self.host_reads();
        let mut p = sp;
        while p <= ep
            invariant
                sp <= p <= ep + 1,
                sp < ep,
                sp == start / 32,
                ep == (end - 1) / 32,
                end == start + len,
                start == index,
                len == data.len(),
                buf@ == data,
                end <= SLOT_BYTES,
                first_start == sp * 32,
                last_start == ep * 32,
                partial_first == (start > first_start),
                partial_last == (end < last_start + 32),
                self.addr() == old(self).addr(),
                self.host_contents() == h,
                self.host_reads() == r_loop,
                r_loop == old(self).host_reads() + host_reads_needed(m, slot_id, index as int, len as int),
                end <= u32::MAX ==> forall|q: int| sp <= q <= ep ==> #[trigger] page_filled(
                    m,
                    self.overlay(),
                    h,
                    slot_id,
                    start as int,
                    data,
                    q,
                ),
                m == old(self).overlay(),
                forall|k: PageKey| !in_pages(slot_id, sp as int, ep as int, k) ==> #[trigger] same_at(
                    m,
                    self.overlay(),
                    k,
                ),
                forall|q: int|
                    sp <= q <= ep && done_page(q, p as int, sp as int, ep as int, partial_first, partial_last)
                        ==> #[trigger] page_written(m, self.overlay(), slot_id, start as int, data, q),
                forall|q: int|
                    sp <= q <= ep && !done_page(q, p as int, sp as int, ep as int, partial_first, partial_last)
                        ==> #[trigger] same_at(m, self.overlay(), page_key(slot_id, q)),
            decreases ep + 1 - p,
        {
            let page_start = p * 32;
            let page_end = page_start + 32;
            if !((p == sp && start > page_start) || (p == ep && end < page_end)) {
                let src = (page_start - start) as usize;
                let page_data = full_page(buf, src);
                let ghost before = self.overlay();
                self.write_page(PageID(slot_id, p as u32), page_data);
                proof {
                    let kp = page_key(slot_id, p as int);
                    assert(PageID(slot_id, p as u32).key() == kp);
                    lemma_full_page_written(m, before, self.overlay(), slot_id, start as int, data, p as int, page_data);
                    assert forall|k: PageKey| !in_pages(slot_id, sp as int, ep as int, k) implies #[trigger] same_at(
                        m,
                        self.overlay(),
                        k,
                    ) by {
                        assert(same_at(m, before, k));
                        assert(k != kp);
                    }
                    assert forall|q: int|
                        sp <= q <= ep && done_page(q, p + 1, sp as int, ep as int, partial_first, partial_last)
                        implies #[trigger] page_written(m, self.overlay(), slot_id, start as int, data, q) by {
                        if q != p {
                            assert(page_key(slot_id, q) != kp);
                            assert(page_written(m, before, slot_id, start as int, data, q));
                            lemma_page_kept(m, before, self.overlay(), slot_id, start as int, data, q, kp);
                        }
                    }
                    assert forall|q: int|
                        sp <= q <= ep && !done_page(q, p + 1, sp as int, ep as int, partial_first, partial_last)
                        implies #[trigger] same_at(m, self.overlay(), page_key(slot_id, q)) by {
                        assert(page_key(slot_id, q) != kp);
                        assert(same_at(m, before, page_key(slot_id, q)));
                    }
                    if end <= u32::MAX {
                        assert forall|q: int| sp <= q <= ep implies #[trigger] page_filled(
                            m,
                            self.overlay(),
                            h,
                            slot_id,
                            start as int,
                            data,
                            q,
                        ) by {
                            if q == p {
                                lemma_filled_full(m, self.overlay(), h, slot_id, start as int, data, q);
                            } else {
                                assert(page_filled(m, before, h, slot_id, start as int, data, q));
                                assert(page_key(slot_id, q) != kp);
                                assert(same_at(before, self.overlay(), page_key(slot_id, q)));
                                lemma_filled_kept(m, before, self.overlay(), h, slot_id, start as int, data, q);
                            }
                        }
                    }
                }
            } else {
                proof {
                    assert forall|q: int|
                        sp <= q <= ep && done_page(q, p + 1, sp as int, ep as int, partial_first, partial_last)
                        implies #[trigger] page_written(m, self.overlay(), slot_id, start as int, data, q) by {
                        assert(done_page(q, p as int, sp as int, ep as int, partial_first, partial_last));
                    }
                    assert forall|q: int|
                        sp <= q <= ep && !done_page(q, p + 1, sp as int, ep as int, partial_first, partial_last)
                        implies #[trigger] same_at(m, self.overlay(), page_key(slot_id, q)) by {
                        assert(!done_page(q, p as int, sp as int, ep as int, partial_first, partial_last));
                    }
                }
            }
            p = p + 1;
        }
        proof {
            assert forall|q: int| sp <= q <= ep implies #[trigger] page_written(m, self.overlay(), slot_id, start as int, data, q) by {
                assert(done_page(q, p as int, sp as int, ep as int, partial_first, partial_last));
            }
        }
        Ok(())
    }
}

} // verus!

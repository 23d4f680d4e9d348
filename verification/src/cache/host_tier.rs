//! Host RAM tier of the image cache.
//!
//! An image that leaves device memory is kept in pinned host memory, so that
//! a later lookup copies it back instead of decoding it again.  Before an
//! entry is added, the entries that were used longest ago leave until it fits
//! the budget, and one that is larger than the whole budget is dropped itself.
//! Entries that a transfer is using stay: they, and nothing else, can take the
//! tier beyond its budget.

use crate::cache::host_map::{
    held, map_get, map_insert, map_is_empty, map_items, map_len, map_remove, new_map,
};
use crate::cache::ImageLayout;
use dashmap::DashMap;
use std::collections::hash_map::RandomState;
use vstd::prelude::*;

verus! {

/// Budget of the host RAM tier.
#[derive(Debug, Clone, Copy, PartialEq, Eq, Structural)]
pub struct HostBudget {
    /// Bytes of pinned host memory that the tier may hold.  Zero disables
    /// the tier: every entry with bytes is dropped.
    pub host_bytes: u64,
}

/// 2 GiB: pinned memory is locked, and taking more starves the process.
pub const DEFAULT_HOST_BYTES: u64 = 0x8000_0000;

impl Default for HostBudget {
    fn default() -> (budget: Self)
        ensures
            budget.host_bytes == DEFAULT_HOST_BYTES,
    {
        HostBudget { host_bytes: DEFAULT_HOST_BYTES }
    }
}

/// One host-resident image.
#[derive(Debug, Clone, Copy, PartialEq, Eq, Structural)]
pub struct HostEntry {
    /// Bytes of pinned memory.
    pub bytes: u64,
    /// Width in pixels.
    pub width: u32,
    /// Height in pixels.
    pub height: u32,
    /// Pixel layout.
    pub layout: ImageLayout,
}

/// An entry as the map holds it.
pub open spec fn packed(entry: HostEntry, tick: u64) -> (u64, u32, u32, u8, u64) {
    (entry.bytes, entry.width, entry.height, layout_tag(entry.layout), tick)
}

/// The number a layout is stored under.
pub open spec fn layout_tag(layout: ImageLayout) -> u8 {
    match layout {
        ImageLayout::Rgb => 0,
        ImageLayout::Gray => 1,
        ImageLayout::Mask => 2,
    }
}

/// The entry that the map holds as `item`.
pub open spec fn unpacked(item: (u64, u32, u32, u8, u64)) -> HostEntry {
    HostEntry {
        bytes: item.0,
        width: item.1,
        height: item.2,
        layout: if item.3 == 0 {
            ImageLayout::Rgb
        } else if item.3 == 1 {
            ImageLayout::Gray
        } else {
            ImageLayout::Mask
        },
    }
}

impl HostEntry {
    /// An entry of `bytes` bytes.
    #[must_use]
    pub fn new(bytes: u64, width: u32, height: u32, layout: ImageLayout) -> (entry: Self)
        ensures
            entry == (HostEntry { bytes, width, height, layout }),
    {
        HostEntry { bytes, width, height, layout }
    }

    /// Bytes that the entry occupies in pinned host memory.
    #[must_use]
    pub fn host_bytes(&self) -> (n: u64)
        ensures
            n == self.bytes,
    {
        self.bytes
    }

    /// Bytes that an image of this size and layout occupies; nothing where
    /// the size cannot be addressed.
    #[must_use]
    pub fn image_bytes(width: u32, height: u32, layout: ImageLayout) -> (n: Option<usize>)
        ensures
            match n {
                Some(v) => v == width * height * layout.pixel_bytes(),
                None => width * height * layout.pixel_bytes() > usize::MAX,
            },
    {
        proof {
            let w = width as int;
            let h = height as int;
            assert(0 <= w * h <= 0xFFFF_FFFF * 0xFFFF_FFFF) by (nonlinear_arith)
                requires
                    0 <= w <= 0xFFFF_FFFF,
                    0 <= h <= 0xFFFF_FFFF,
            ;
            let a = w * h;
            let p = layout.pixel_bytes() as int;
            assert(0 <= a * p <= a * 3) by (nonlinear_arith)
                requires
                    a >= 0,
                    0 <= p <= 3,
            ;
        }
        let total: u128 = width as u128 * height as u128 * layout.bytes_per_pixel() as u128;
        if total > usize::MAX as u128 {
            None
        } else {
            Some(total as usize)
        }
    }

    fn pack(self, tick: u64) -> (item: (u64, u32, u32, u8, u64))
        ensures
            item == packed(self, tick),
    {
        let tag: u8 = match self.layout {
            ImageLayout::Rgb => 0,
            ImageLayout::Gray => 1,
            ImageLayout::Mask => 2,
        };
        (self.bytes, self.width, self.height, tag, tick)
    }

    fn unpack(item: (u64, u32, u32, u8, u64)) -> (entry: HostEntry)
        ensures
            entry == unpacked(item),
    {
        let layout: ImageLayout = if item.3 == 0 {
            ImageLayout::Rgb
        } else if item.3 == 1 {
            ImageLayout::Gray
        } else {
            ImageLayout::Mask
        };
        HostEntry { bytes: item.0, width: item.1, height: item.2, layout }
    }
}

/// Bytes of all entries together.
pub open spec fn total_bytes(m: Map<Seq<u8>, (u64, u32, u32, u8, u64)>) -> nat
    decreases m.dom().len(),
    when m.dom().finite()
{
    if m.dom().len() == 0 {
        0
    } else {
        let k = m.dom().choose();
        m[k].0 as nat + total_bytes(m.remove(k))
    }
}

/// An entry counts for its own bytes, whichever it is.
pub proof fn lemma_total_remove(m: Map<Seq<u8>, (u64, u32, u32, u8, u64)>, k: Seq<u8>)
    requires
        m.dom().finite(),
        m.dom().contains(k),
    ensures
        total_bytes(m) == m[k].0 as nat + total_bytes(m.remove(k)),
    decreases m.dom().len(),
{
    let c = m.dom().choose();
    assert(m.dom().len() > 0) by {
        if m.dom().len() == 0 {
            assert(m.dom() =~= Set::empty());
        }
    }
    assert(m.dom().contains(c));
    if c != k {
        lemma_total_remove(m.remove(c), k);
        assert(m.remove(k).dom().contains(c));
        lemma_total_remove(m.remove(k), c);
        assert(m.remove(c).remove(k) =~= m.remove(k).remove(c));
    }
}

/// The contents once the entry under `hash` was used at `tick`.
pub open spec fn touched(
    m: Map<Seq<u8>, (u64, u32, u32, u8, u64)>,
    hash: Seq<u8>,
    tick: u64,
) -> Map<Seq<u8>, (u64, u32, u32, u8, u64)> {
    m.insert(hash, (m[hash].0, m[hash].1, m[hash].2, m[hash].3, tick))
}

/// Whether `key` is one of the hashes in use.
pub open spec fn in_use(busy: Seq<[u8; 32]>, key: Seq<u8>) -> bool {
    exists|i: int| 0 <= i < busy.len() && (#[trigger] busy[i])@ == key
}

/// What is left of `before` once `needed` bytes were made room for: entries
/// leave unchanged or not at all, none of them is in use, those that left
/// were used no later than those that stay and are not in use, no more left
/// than had to, and the bytes fit unless all that is left is in use.
pub open spec fn made_room(
    before: Map<Seq<u8>, (u64, u32, u32, u8, u64)>,
    after: Map<Seq<u8>, (u64, u32, u32, u8, u64)>,
    needed: u64,
    budget: u64,
    busy: Seq<[u8; 32]>,
) -> bool {
    &&& forall|k: Seq<u8>| #[trigger]
        after.dom().contains(k) ==> before.dom().contains(k) && before[k] == after[k]
    &&& forall|k: Seq<u8>| #[trigger]
        before.dom().contains(k) && !after.dom().contains(k) ==> !in_use(busy, k)
    &&& forall|k: Seq<u8>, j: Seq<u8>|
        #![trigger before.dom().contains(k), after.dom().contains(j)]
        before.dom().contains(k) && !after.dom().contains(k) && after.dom().contains(j) && !in_use(
            busy,
            j,
        ) ==> before[k].4 <= after[j].4
    &&& before != after ==> exists|k: Seq<u8>| #[trigger]
        before.dom().contains(k) && !after.dom().contains(k) && total_bytes(after) + before[k].0
            + needed > budget
    &&& total_bytes(after) + needed <= budget || forall|k: Seq<u8>| #[trigger]
        after.dom().contains(k) ==> in_use(busy, k)
}

/// The contents behind the insertion of `entry` under `hash`: room was made
/// among the others, and the entry is there unless it is larger than the
/// budget.
pub open spec fn inserted(
    before: Map<Seq<u8>, (u64, u32, u32, u8, u64)>,
    after: Map<Seq<u8>, (u64, u32, u32, u8, u64)>,
    hash: Seq<u8>,
    entry: HostEntry,
    tick: u64,
    budget: u64,
    busy: Seq<[u8; 32]>,
) -> bool {
    &&& made_room(before.remove(hash), after.remove(hash), entry.bytes, budget, busy)
    &&& entry.bytes <= budget ==> after.dom().contains(hash) && after[hash] == packed(entry, tick)
    &&& entry.bytes > budget ==> !after.dom().contains(hash)
}

/// What an insertion did.
#[derive(Debug)]
pub struct Insertion {
    /// Whether the tier holds the new entry.
    pub kept: bool,
    /// Hashes of the entries that left to make room.
    pub gone: Vec<[u8; 32]>,
}

fn same_key(a: &[u8; 32], b: &[u8; 32]) -> (r: bool)
    ensures
        r == (a@ == b@),
{
    let mut i: usize = 0;
    while i < 32
        invariant
            i <= 32,
            forall|j: int| 0 <= j < i ==> a@[j] == b@[j],
        decreases 32 - i,
    {
        if a[i] != b[i] {
            return false;
        }
        i += 1;
    }
    assert(a@ =~= b@);
    true
}

fn is_in_use(busy: &[[u8; 32]], key: &[u8; 32]) -> (r: bool)
    ensures
        r == in_use(busy@, key@),
{
    let mut i: usize = 0;
    while i < busy.len()
        invariant
            i <= busy@.len(),
            forall|j: int| 0 <= j < i ==> (#[trigger] busy@[j])@ != key@,
        decreases busy@.len() - i,
    {
        if same_key(&busy[i], key) {
            assert(busy@[i as int]@ == key@);
            return true;
        }
        i += 1;
    }
    false
}

/// Index of the item that leaves next: of those that are not in use, one
/// that was used longest ago.
pub fn oldest_idle(
    items: &[([u8; 32], (u64, u32, u32, u8, u64))],
    busy: &[[u8; 32]],
) -> (r: Option<usize>)
    ensures
        match r {
            Some(i) => {
                &&& i < items@.len()
                &&& !in_use(busy@, items@[i as int].0@)
                &&& forall|j: int|
                    0 <= j < items@.len() && !in_use(busy@, (#[trigger] items@[j]).0@)
                        ==> items@[i as int].1.4 <= items@[j].1.4
            },
            None => forall|j: int|
                0 <= j < items@.len() ==> in_use(busy@, (#[trigger] items@[j]).0@),
        },
{
    let mut best: Option<usize> = None;
    let mut i: usize = 0;
    while i < items.len()
        invariant
            i <= items@.len(),
            match best {
                Some(b) => {
                    &&& b < i
                    &&& !in_use(busy@, items@[b as int].0@)
                    &&& forall|j: int|
                        0 <= j < i && !in_use(busy@, (#[trigger] items@[j]).0@)
                            ==> items@[b as int].1.4 <= items@[j].1.4
                },
                None => forall|j: int| 0 <= j < i ==> in_use(busy@, (#[trigger] items@[j]).0@),
            },
        decreases items@.len() - i,
    {
        if !is_in_use(busy, &items[i].0) {
            match best {
                None => {
                    best = Some(i);
                },
                Some(b) => {
                    if items[i].1.4 < items[b].1.4 {
                        best = Some(i);
                    }
                },
            }
        }
        i += 1;
    }
    best
}

/// Host RAM tier.
pub struct HostTier {
    entries: DashMap<[u8; 32], (u64, u32, u32, u8, u64), RandomState>,
    used_bytes: u64,
    budget: HostBudget,
}

impl View for HostTier {
    type V = Map<Seq<u8>, (u64, u32, u32, u8, u64)>;

    closed spec fn view(&self) -> Map<Seq<u8>, (u64, u32, u32, u8, u64)> {
        held(self.entries)
    }
}

impl HostTier {
    /// Budget in bytes.
    pub closed spec fn limit(&self) -> u64 {
        self.budget.host_bytes
    }

    /// Bytes that the entries are counted for.
    pub closed spec fn used(&self) -> u64 {
        self.used_bytes
    }

    /// The byte count is that of the entries.
    pub open spec fn wf(&self) -> bool {
        &&& self@.dom().finite()
        &&& self.used() == total_bytes(self@)
    }

    /// An empty tier.
    #[must_use]
    pub fn new(budget: HostBudget) -> (tier: Self)
        ensures
            tier.wf(),
            tier@ == Map::<Seq<u8>, (u64, u32, u32, u8, u64)>::empty(),
            tier.limit() == budget.host_bytes,
            tier.used() == 0,
    {
        HostTier { entries: new_map(), used_bytes: 0, budget }
    }

    /// Number of entries.
    #[must_use]
    pub fn len(&self) -> (n: usize)
        ensures
            n == self@.dom().len(),
    {
        map_len(&self.entries)
    }

    /// Whether the tier holds no entry.
    #[must_use]
    pub fn is_empty(&self) -> (b: bool)
        ensures
            b == (self@.dom().len() == 0),
    {
        map_is_empty(&self.entries)
    }

    /// Bytes of the entries.
    #[must_use]
    pub fn used_bytes(&self) -> (n: u64)
        ensures
            n == self.used(),
            self.wf() ==> n == total_bytes(self@),
    {
        self.used_bytes
    }

    /// Budget in bytes.
    #[must_use]
    pub fn budget_bytes(&self) -> (n: u64)
        ensures
            n == self.limit(),
    {
        self.budget.host_bytes
    }

    /// The entry under `hash`, which is then the one used last, at `tick`.
    pub fn lookup(&mut self, hash: &[u8; 32], tick: u64) -> (r: Option<HostEntry>)
        requires
            old(self).wf(),
        ensures
            final(self).wf(),
            final(self).limit() == old(self).limit(),
            final(self).used() == old(self).used(),
            if old(self)@.dom().contains(hash@) {
                let item = old(self)@[hash@];
                &&& r == Some(unpacked(item))
                &&& final(self)@ == touched(old(self)@, hash@, tick)
            } else {
                r is None && final(self)@ == old(self)@
            },
    {
        match map_get(&self.entries, hash) {
            None => None,
            Some(item) => {
                let ghost before = held(self.entries);
                let touched = (item.0, item.1, item.2, item.3, tick);
                let _ = map_insert(&mut self.entries, *hash, touched);
                proof {
                    let after = held(self.entries);
                    lemma_total_remove(before, hash@);
                    lemma_total_remove(after, hash@);
                    assert(before.remove(hash@) =~= after.remove(hash@));
                }
                Some(HostEntry::unpack(item))
            },
        }
    }

    /// Drop entries, those used longest ago first, until `needed` bytes fit;
    /// entries in use stay.  Returns the hashes of those that left.
    fn evict_to_fit(&mut self, needed: u64, busy: &[[u8; 32]]) -> (gone: Vec<[u8; 32]>)
        requires
            old(self).wf(),
        ensures
            final(self).wf(),
            final(self).limit() == old(self).limit(),
            made_room(old(self)@, final(self)@, needed, old(self).limit(), busy@),
            forall|k: Seq<u8>|
                in_use(gone@, k) <==> old(self)@.dom().contains(k) && !final(self)@.dom().contains(
                    k,
                ),
            total_bytes(final(self)@) <= total_bytes(old(self)@),
    {
        let mut gone: Vec<[u8; 32]> = Vec::new();
        let ghost first = self@;
        loop
            invariant
                self.wf(),
                self.limit() == old(self).limit(),
                first == old(self)@,
                total_bytes(self@) <= total_bytes(first),
                forall|k: Seq<u8>| #[trigger]
                    self@.dom().contains(k) ==> first.dom().contains(k) && first[k] == self@[k],
                forall|k: Seq<u8>| #[trigger]
                    first.dom().contains(k) && !self@.dom().contains(k) ==> !in_use(busy@, k),
                forall|k: Seq<u8>, j: Seq<u8>|
                    #![trigger first.dom().contains(k), self@.dom().contains(j)]
                    first.dom().contains(k) && !self@.dom().contains(k) && self@.dom().contains(j)
                        && !in_use(busy@, j) ==> first[k].4 <= self@[j].4,
                first != self@ ==> exists|k: Seq<u8>| #[trigger]
                    first.dom().contains(k) && !self@.dom().contains(k) && total_bytes(self@)
                        + first[k].0 + needed > self.limit(),
                forall|k: Seq<u8>|
                    in_use(gone@, k) <==> first.dom().contains(k) && !self@.dom().contains(k),
            decreases self@.dom().len(),
        {
            if self.used_bytes <= self.budget.host_bytes && needed <= self.budget.host_bytes
                - self.used_bytes {
                return gone;
            }
            let items = map_items(&self.entries);
            let ghost here = self@;
            match oldest_idle(items.as_slice(), busy) {
                None => {
                    assert forall|k: Seq<u8>| #[trigger]
                        self@.dom().contains(k) implies in_use(busy@, k) by {
                        let i = choose|i: int| 0 <= i < items@.len() && items@[i].0@ == k;
                        assert(in_use(busy@, items@[i].0@));
                    }
                    return gone;
                },
                Some(i) => {
                    let key: [u8; 32] = items[i].0;
                    let bytes: u64 = items[i].1.0;
                    proof {
                        lemma_total_remove(here, key@);
                        assert forall|j: Seq<u8>| #[trigger]
                            here.dom().contains(j) && !in_use(busy@, j) implies here[key@].4
                            <= here[j].4 by {
                            let n = choose|n: int| 0 <= n < items@.len() && items@[n].0@ == j;
                            assert(!in_use(busy@, items@[n].0@));
                        }
                    }
                    let _ = map_remove(&mut self.entries, &key);
                    self.used_bytes = self.used_bytes - bytes;
                    let ghost prior = gone@;
                    gone.push(key);
                    proof {
                        assert(first.dom().contains(key@) && !self@.dom().contains(key@));
                        assert(total_bytes(self@) + first[key@].0 + needed > self.limit());
                        assert(gone@[prior.len() as int]@ == key@);
                        assert forall|k: Seq<u8>|
                            in_use(gone@, k) <==> first.dom().contains(k)
                                && !self@.dom().contains(k) by {
                            if in_use(prior, k) {
                                let n = choose|n: int|
                                    0 <= n < prior.len() && (#[trigger] prior[n])@ == k;
                                assert(gone@[n]@ == k);
                            }
                            if in_use(gone@, k) {
                                let n = choose|n: int|
                                    0 <= n < gone@.len() && (#[trigger] gone@[n])@ == k;
                                if n < prior.len() {
                                    assert(prior[n]@ == k);
                                }
                            }
                        }
                    }
                },
            }
        }
    }

    /// Install an entry, used last at `tick`.  An entry of the same hash is
    /// replaced; others leave as the budget asks, except those in use.  An
    /// entry larger than the budget is dropped: room is made for it in vain,
    /// so that only entries in use are left.
    pub fn insert(
        &mut self,
        hash: [u8; 32],
        entry: HostEntry,
        tick: u64,
        busy: &[[u8; 32]],
    ) -> (r: Insertion)
        requires
            old(self).wf(),
            entry.bytes <= old(self).limit() ==> total_bytes(old(self)@.remove(hash@))
                + entry.bytes <= u64::MAX,
        ensures
            final(self).wf(),
            final(self).limit() == old(self).limit(),
            inserted(
                old(self)@,
                final(self)@,
                hash@,
                entry,
                tick,
                old(self).limit(),
                busy@,
            ),
            r.kept == (entry.bytes <= old(self).limit()),
            r.kept == final(self)@.dom().contains(hash@),
            forall|k: Seq<u8>|
                in_use(r.gone@, k) <==> k != hash@ && old(self)@.dom().contains(k)
                    && !final(self)@.dom().contains(k),
    {
        proof {
            if self@.dom().contains(hash@) {
                lemma_total_remove(self@, hash@);
            } else {
                assert(self@.remove(hash@) =~= self@);
            }
        }
        let prior = map_remove(&mut self.entries, &hash);
        match prior {
            None => {},
            Some(item) => {
                self.used_bytes = self.used_bytes - item.0;
            },
        }
        let gone = self.evict_to_fit(entry.bytes, busy);
        let ghost room = self@;
        if entry.bytes > self.budget.host_bytes {
            assert(self@.remove(hash@) =~= room);
            return Insertion { kept: false, gone };
        }
        self.used_bytes = self.used_bytes + entry.bytes;
        let _ = map_insert(&mut self.entries, hash, entry.pack(tick));
        proof {
            lemma_total_remove(self@, hash@);
            assert(!room.dom().contains(hash@));
            assert(self@.remove(hash@) =~= room);
        }
        Insertion { kept: true, gone }
    }
}

/// Part of a map has no more bytes than the map.
proof fn lemma_total_part(
    part: Map<Seq<u8>, (u64, u32, u32, u8, u64)>,
    whole: Map<Seq<u8>, (u64, u32, u32, u8, u64)>,
)
    requires
        part.dom().finite(),
        whole.dom().finite(),
        forall|k: Seq<u8>| #[trigger]
            part.dom().contains(k) ==> whole.dom().contains(k) && whole[k] == part[k],
    ensures
        total_bytes(part) <= total_bytes(whole),
    decreases part.dom().len(),
{
    if part.dom().len() != 0 {
        let k = part.dom().choose();
        assert(part.dom().contains(k));
        lemma_total_remove(whole, k);
        lemma_total_part(part.remove(k), whole.remove(k));
    }
}

/// A lookup gives back what was inserted, if it fits the budget at all.
pub proof fn law_lookup_returns_what_was_inserted(
    before: Map<Seq<u8>, (u64, u32, u32, u8, u64)>,
    after: Map<Seq<u8>, (u64, u32, u32, u8, u64)>,
    hash: Seq<u8>,
    entry: HostEntry,
    tick: u64,
    budget: u64,
    busy: Seq<[u8; 32]>,
)
    requires
        inserted(before, after, hash, entry, tick, budget, busy),
    ensures
        after.dom().contains(hash) <==> entry.bytes <= budget,
        after.dom().contains(hash) ==> unpacked(after[hash]) == entry,
{
}

/// The budget holds after every insertion, unless a transfer is using an
/// entry.
pub proof fn law_budget_holds_without_transfers(
    before: Map<Seq<u8>, (u64, u32, u32, u8, u64)>,
    after: Map<Seq<u8>, (u64, u32, u32, u8, u64)>,
    hash: Seq<u8>,
    entry: HostEntry,
    tick: u64,
    budget: u64,
    busy: Seq<[u8; 32]>,
)
    requires
        after.dom().finite(),
        inserted(before, after, hash, entry, tick, budget, busy),
        forall|k: Seq<u8>| #[trigger]
            before.dom().contains(k) && k != hash ==> !in_use(busy, k),
    ensures
        total_bytes(after) <= budget,
{
    let others = after.remove(hash);
    if total_bytes(others) + entry.bytes > budget {
        assert forall|k: Seq<u8>| !others.dom().contains(k) by {
            if others.dom().contains(k) {
                assert(before.remove(hash).dom().contains(k));
                assert(before.dom().contains(k));
            }
        }
        assert(others.dom() =~= Set::empty());
    }
    if after.dom().contains(hash) {
        lemma_total_remove(after, hash);
    } else {
        assert(others =~= after);
    }
}

/// A zero budget disables the tier: every entry with bytes is dropped, and
/// nothing that takes memory is held, unless a transfer is using it.
pub proof fn law_zero_budget_disables_the_tier(
    before: Map<Seq<u8>, (u64, u32, u32, u8, u64)>,
    after: Map<Seq<u8>, (u64, u32, u32, u8, u64)>,
    hash: Seq<u8>,
    entry: HostEntry,
    tick: u64,
    busy: Seq<[u8; 32]>,
)
    requires
        after.dom().finite(),
        entry.bytes > 0,
        inserted(before, after, hash, entry, tick, 0, busy),
    ensures
        !after.dom().contains(hash),
        forall|k: Seq<u8>| #[trigger] after.dom().contains(k) ==> in_use(busy, k),
        (forall|k: Seq<u8>| #[trigger]
            before.dom().contains(k) && k != hash ==> !in_use(busy, k)) ==> total_bytes(after)
            == 0,
{
    assert(after.remove(hash) =~= after);
    assert forall|k: Seq<u8>| #[trigger] after.dom().contains(k) implies in_use(busy, k) by {
        assert(after.remove(hash).dom().contains(k));
    }
    if forall|k: Seq<u8>| #[trigger]
        before.dom().contains(k) && k != hash ==> !in_use(busy, k) {
        law_budget_holds_without_transfers(before, after, hash, entry, tick, 0, busy);
    }
}

/// No entry leaves while the new one fits beside all of them.
pub proof fn law_nothing_leaves_needlessly(
    before: Map<Seq<u8>, (u64, u32, u32, u8, u64)>,
    after: Map<Seq<u8>, (u64, u32, u32, u8, u64)>,
    needed: u64,
    budget: u64,
    busy: Seq<[u8; 32]>,
)
    requires
        before.dom().finite(),
        after.dom().finite(),
        made_room(before, after, needed, budget, busy),
        total_bytes(before) + needed <= budget,
    ensures
        after == before,
{
    if before != after {
        let k = choose|k: Seq<u8>| #[trigger]
            before.dom().contains(k) && !after.dom().contains(k) && total_bytes(after)
                + before[k].0 + needed > budget;
        lemma_total_remove(before, k);
        lemma_total_part(after, before.remove(k));
    }
}

/// An entry in use never leaves to make room.
pub proof fn law_entries_in_use_stay(
    before: Map<Seq<u8>, (u64, u32, u32, u8, u64)>,
    after: Map<Seq<u8>, (u64, u32, u32, u8, u64)>,
    needed: u64,
    budget: u64,
    busy: Seq<[u8; 32]>,
    key: Seq<u8>,
)
    requires
        made_room(before, after, needed, budget, busy),
        before.dom().contains(key),
        in_use(busy, key),
    ensures
        after.dom().contains(key),
        after[key] == before[key],
{
}

/// The least recently used entries leave first: an entry that made room was
/// used no later than any that stays, unless the other is in use; and what
/// stays is unchanged.
pub proof fn law_least_recently_used_leave_first(
    before: Map<Seq<u8>, (u64, u32, u32, u8, u64)>,
    after: Map<Seq<u8>, (u64, u32, u32, u8, u64)>,
    hash: Seq<u8>,
    entry: HostEntry,
    tick: u64,
    budget: u64,
    busy: Seq<[u8; 32]>,
    gone: Seq<u8>,
    kept: Seq<u8>,
)
    requires
        inserted(before, after, hash, entry, tick, budget, busy),
        gone != hash,
        before.dom().contains(gone),
        !after.dom().contains(gone),
        kept != hash,
        after.dom().contains(kept),
    ensures
        before.dom().contains(kept),
        after[kept] == before[kept],
        !in_use(busy, gone),
        !in_use(busy, kept) ==> before[gone].4 <= before[kept].4,
{
    assert(before.remove(hash).dom().contains(gone));
    assert(after.remove(hash).dom().contains(kept));
    assert(!after.remove(hash).dom().contains(gone));
}

/// Bytes add up: an entry that comes adds its bytes and one that goes takes
/// its own.
pub proof fn law_bytes_add_up(
    m: Map<Seq<u8>, (u64, u32, u32, u8, u64)>,
    k: Seq<u8>,
    item: (u64, u32, u32, u8, u64),
)
    requires
        m.dom().finite(),
        !m.dom().contains(k),
    ensures
        total_bytes(m.insert(k, item)) == total_bytes(m) + item.0,
        total_bytes(Map::<Seq<u8>, (u64, u32, u32, u8, u64)>::empty()) == 0,
{
    lemma_total_remove(m.insert(k, item), k);
    assert(m.insert(k, item).remove(k) =~= m);
}

/// A use changes when an entry was used last and nothing else: what is stored
/// stays, the other entries stay, and so do the bytes.
pub proof fn law_uses_change_only_the_tick(
    m: Map<Seq<u8>, (u64, u32, u32, u8, u64)>,
    hash: Seq<u8>,
    tick: u64,
    other: Seq<u8>,
)
    requires
        m.dom().finite(),
        m.dom().contains(hash),
    ensures
        ({
            let after = touched(m, hash, tick);
            &&& after.dom() == m.dom()
            &&& unpacked(after[hash]) == unpacked(m[hash])
            &&& after[hash].4 == tick
            &&& other != hash && m.dom().contains(other) ==> after[other] == m[other]
            &&& total_bytes(after) == total_bytes(m)
        }),
{
    let after = touched(m, hash, tick);
    assert(after.dom() =~= m.dom());
    lemma_total_remove(m, hash);
    lemma_total_remove(after, hash);
    assert(after.remove(hash) =~= m.remove(hash));
}

/// What is used last leaves last: an entry whose last use is later than that
/// of another makes room only after the other has, unless that is in use.
pub proof fn law_used_entries_outlive_older_ones(
    m: Map<Seq<u8>, (u64, u32, u32, u8, u64)>,
    after: Map<Seq<u8>, (u64, u32, u32, u8, u64)>,
    hash: Seq<u8>,
    tick: u64,
    older: Seq<u8>,
    needed: u64,
    budget: u64,
    busy: Seq<[u8; 32]>,
)
    requires
        m.dom().contains(hash),
        m.dom().contains(older),
        older != hash,
        m[older].4 < tick,
        !in_use(busy, older),
        made_room(touched(m, hash, tick), after, needed, budget, busy),
        after.dom().contains(older),
    ensures
        after.dom().contains(hash),
{
    let now = touched(m, hash, tick);
    assert(now.dom().contains(hash) && now.dom().contains(older));
    assert(after[older] == now[older]);
}

} // verus!

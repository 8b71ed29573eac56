//! Virtio network card (legacy interface): the queue layout, the chain of free descriptors,
//! and the available and used rings as the driver sees them. Port I/O and the copying of ring
//! memory shared with the device stay with the caller.
use vstd::prelude::*;
use vstd::set_lib::{set_int_range, lemma_int_range, lemma_len_subset};

verus! {

pub const VIRTIO_VENDOR_ID: u16 = 0x1AF4;
pub const VIRTIO_NET_DEVICE_ID: u16 = 0x1000;

pub const REG_DEVICE_FEATURES: u16 = 0x00;
pub const REG_DRIVER_FEATURES: u16 = 0x04;
pub const REG_QUEUE_ADDRESS: u16 = 0x08;
pub const REG_QUEUE_SIZE: u16 = 0x0C;
pub const REG_QUEUE_SELECT: u16 = 0x0E;
pub const REG_QUEUE_NOTIFY: u16 = 0x10;
pub const REG_DEVICE_STATUS: u16 = 0x12;
pub const REG_ISR_STATUS: u16 = 0x13;
pub const REG_CONFIG_MAC: u16 = 0x14;

pub const STATUS_ACKNOWLEDGE: u8 = 1;
pub const STATUS_DRIVER: u8 = 2;
pub const STATUS_DRIVER_OK: u8 = 4;
pub const STATUS_FEATURES_OK: u8 = 8;
pub const STATUS_FAILED: u8 = 0x80;

pub const VIRTIO_NET_F_CSUM: u32 = 0x1;
pub const VIRTIO_NET_F_MAC: u32 = 0x20;
pub const VIRTIO_NET_F_MRG_RXBUF: u32 = 0x8000;
pub const VIRTIO_NET_F_STATUS: u32 = 0x1_0000;

pub const VIRTQ_DESC_F_NEXT: u16 = 1;
pub const VIRTQ_DESC_F_WRITE: u16 = 2;
pub const VIRTQ_DESC_F_INDIRECT: u16 = 4;

pub const VIRTQ_AVAIL_F_NO_INTERRUPT: u16 = 1;
pub const VIRTQ_USED_F_NO_NOTIFY: u16 = 1;

pub const RX_QUEUE: u16 = 0;
pub const TX_QUEUE: u16 = 1;

pub const QUEUE_SIZE: usize = 1024;
pub const RX_BUFFER_SIZE: usize = 2048;
pub const VIRTIO_NET_HDR_LEN: usize = 10;
pub const VIRTIO_NET_HDR_GSO_NONE: u8 = 0;

/// Pages the queue region takes: room for the largest queue's descriptors, available ring
/// and used ring.
pub const QUEUE_REGION_PAGES: usize = 8;

#[derive(Clone, Copy)]
pub struct VirtqDesc {
    pub addr: u64,
    pub len: u32,
    pub flags: u16,
    pub next: u16,
}

pub struct VirtqAvail {
    pub flags: u16,
    pub idx: u16,
    pub ring: Vec<u16>,
    pub used_event: u16,
}

#[derive(Clone, Copy)]
pub struct VirtqUsedElem {
    pub id: u32,
    pub len: u32,
}

pub struct VirtqUsed {
    pub flags: u16,
    pub idx: u16,
    pub ring: Vec<VirtqUsedElem>,
    pub avail_event: u16,
}

#[derive(Clone, Copy)]
pub struct VirtioNetHeader {
    pub flags: u8,
    pub gso_type: u8,
    pub hdr_len: u16,
    pub gso_size: u16,
    pub csum_start: u16,
    pub csum_offset: u16,
}

pub struct Virtqueue {
    pub desc: Vec<VirtqDesc>,
    pub avail: VirtqAvail,
    pub used: VirtqUsed,
    pub size: u16,
    pub free_head: u16,
    pub num_free: u16,
    pub last_used_idx: u16,
    pub region_phys: u64,
}

/// The descriptors reached from `head` by following `next` links, `n` of them.
pub open spec fn chain(desc: Seq<VirtqDesc>, head: u16, n: nat) -> Seq<u16>
    decreases n,
{
    if n == 0 {
        Seq::empty()
    } else {
        seq![head] + chain(desc, desc[head as int].next, (n - 1) as nat)
    }
}

/// `x` rounded up to a whole number of 4096-byte pages.
pub open spec fn page_round(x: int) -> int {
    ((x + 4095) / 4096) * 4096
}

/// The number of entries the device has added to the used ring since the driver last looked.
pub open spec fn pending_count(q: Virtqueue) -> nat {
    ((q.used.idx - q.last_used_idx) % 0x1_0000) as nat
}

/// The ring slot of the `k`-th used entry from `start`.
pub open spec fn used_slot(q: Virtqueue, start: u16, k: int) -> int {
    ((start + k) % 0x1_0000) % (q.size as int)
}

/// The descriptors the device has returned and the driver has not taken yet, in order.
pub open spec fn pending_ids(q: Virtqueue) -> Seq<u16> {
    Seq::new(pending_count(q), |k: int| q.used.ring@[used_slot(q, q.last_used_idx, k)].id as u16)
}

impl Virtqueue {
    /// The free descriptors, in the order they will be handed out.
    pub open spec fn free_list(&self) -> Seq<u16> {
        chain(self.desc@, self.free_head, self.num_free as nat)
    }

    /// The descriptor table has `size` entries (at most `QUEUE_SIZE`), both rings have room for
    /// the largest queue, and the free chain holds distinct descriptors of the table.
    pub open spec fn wf(&self) -> bool {
        &&& 0 < self.size <= QUEUE_SIZE
        &&& self.desc@.len() == self.size
        &&& self.avail.ring@.len() == QUEUE_SIZE
        &&& self.used.ring@.len() == QUEUE_SIZE
        &&& self.num_free <= self.size
        &&& forall|i: int| 0 <= i < self.free_list().len() ==> #[trigger] self.free_list()[i] < self.size
        &&& self.free_list().no_duplicates()
    }
}

/// Changing a descriptor off the chain leaves the chain as it is.
proof fn lemma_chain_update(desc: Seq<VirtqDesc>, head: u16, n: nat, k: int, d: VirtqDesc)
    requires
        !chain(desc, head, n).contains(k as u16),
        forall|i: int| 0 <= i < n ==> #[trigger] chain(desc, head, n)[i] < desc.len(),
        0 <= k < desc.len(),
        k < 0x1_0000,
    ensures
        chain(desc.update(k, d), head, n) == chain(desc, head, n),
    decreases n,
{
    if n > 0 {
        assert(chain(desc, head, n)[0] == head);
        assert(head != k as u16);
        let rest = chain(desc, desc[head as int].next, (n - 1) as nat);
        assert(chain(desc, head, n) == seq![head] + rest);
        assert forall|x: u16| rest.contains(x) implies chain(desc, head, n).contains(x) by {
            let j = choose|j: int| 0 <= j < rest.len() && rest[j] == x;
            assert(chain(desc, head, n)[j + 1] == x);
        }
        let c = chain(desc, head, n);
        lemma_chain_len(desc, desc[head as int].next, (n - 1) as nat);
        assert(c =~= seq![head] + rest);
        assert forall|i: int| 0 <= i < n - 1 implies #[trigger] rest[i] < desc.len() by {
            assert(c[i + 1] == rest[i]);
        }
        assert(head < desc.len());
        assert(desc.update(k, d)[head as int] == desc[head as int]);
        lemma_chain_update(desc, desc[head as int].next, (n - 1) as nat, k, d);
    }
}

proof fn lemma_chain_len(desc: Seq<VirtqDesc>, head: u16, n: nat)
    ensures
        chain(desc, head, n).len() == n,
    decreases n,
{
    if n > 0 {
        lemma_chain_len(desc, desc[head as int].next, (n - 1) as nat);
    }
}

/// Changing descriptors without changing their links leaves the chain as it is.
proof fn lemma_chain_same_links(a: Seq<VirtqDesc>, b: Seq<VirtqDesc>, head: u16, n: nat)
    requires
        a.len() == b.len(),
        forall|k: int| 0 <= k < a.len() ==> #[trigger] b[k].next == a[k].next,
        forall|i: int| 0 <= i < n ==> #[trigger] chain(a, head, n)[i] < a.len(),
    ensures
        chain(b, head, n) == chain(a, head, n),
    decreases n,
{
    if n > 0 {
        let rest = chain(a, a[head as int].next, (n - 1) as nat);
        let c = chain(a, head, n);
        lemma_chain_len(a, a[head as int].next, (n - 1) as nat);
        assert(c =~= seq![head] + rest);
        assert(c[0] == head);
        assert forall|i: int| 0 <= i < n - 1 implies #[trigger] rest[i] < a.len() by {
            assert(c[i + 1] == rest[i]);
        }
        lemma_chain_same_links(a, b, a[head as int].next, (n - 1) as nat);
    }
}

/// A sequence of distinct values below `size` has at most `size` entries.
proof fn lemma_distinct_bound(s: Seq<u16>, size: int)
    requires
        0 <= size,
        s.no_duplicates(),
        forall|i: int| 0 <= i < s.len() ==> #[trigger] s[i] < size,
    ensures
        s.len() <= size,
{
    let m = s.map_values(|x: u16| x as int);
    assert(m.no_duplicates()) by {
        assert forall|i: int, j: int| 0 <= i < m.len() && 0 <= j < m.len() && i != j implies m[i] != m[j] by {
            assert(m[i] == s[i] as int && m[j] == s[j] as int);
            assert(s[i] != s[j]);
        }
    }
    m.unique_seq_to_set();
    {
        lemma_int_range(0, size);
        assert(m.to_set().subset_of(set_int_range(0, size))) by {
            assert forall|x: int| m.to_set().contains(x) implies set_int_range(0, size).contains(x) by {
                assert(m.contains(x));
                let i = choose|i: int| 0 <= i < m.len() && m[i] == x;
                assert(m[i] == s[i] as int);
                assert(s[i] < size);
            }
        }
        lemma_len_subset(m.to_set(), set_int_range(0, size));
        assert(m.len() == s.len());
    }
}

/// The chain from `k` over descriptors linked each to the next holds `k`, `k + 1`, ...
proof fn lemma_initial_chain(desc: Seq<VirtqDesc>, k: int, qsz: int)
    requires
        0 <= k <= qsz <= desc.len(),
        qsz <= QUEUE_SIZE,
        forall|i: int| 0 <= i < qsz - 1 ==> #[trigger] desc[i].next == i + 1,
    ensures
        chain(desc, k as u16, (qsz - k) as nat) == Seq::new((qsz - k) as nat, |j: int| (k + j) as u16),
    decreases qsz - k,
{
    if k < qsz {
        lemma_initial_chain(desc, k + 1, qsz);
        if k + 1 < qsz {
            assert(desc[k].next == k + 1);
        }
        let rest = chain(desc, desc[k].next, (qsz - k - 1) as nat);
        assert(qsz - k - 1 > 0 ==> desc[k].next == (k + 1) as u16);
        assert(chain(desc, k as u16, (qsz - k) as nat) =~= Seq::new((qsz - k) as nat, |j: int| (k + j) as u16));
    } else {
        assert(chain(desc, k as u16, 0) =~= Seq::new(0, |j: int| (k + j) as u16));
    }
}

/// Where the used ring starts and how many pages the queue region takes, for a queue of
/// `qsz` entries: descriptors (16 bytes each), then the available ring (6 + 2 bytes each),
/// then, from the next page boundary, the used ring.
pub fn queue_layout(qsz: u16) -> (r: (usize, usize))
    requires
        qsz <= QUEUE_SIZE,
    ensures
        r.0 == page_round(16 * qsz + 6 + 2 * qsz),
        r.1 == QUEUE_REGION_PAGES,
{
    let q = qsz as usize;
    let used_off = ((16 * q + 6 + 2 * q + 4095) / 4096) * 4096;
    (used_off, QUEUE_REGION_PAGES)
}

/// The features the driver accepts of those the device offers: the MAC address only.
pub fn accepted_features(features: u32) -> (r: u32)
    ensures
        r == features & VIRTIO_NET_F_MAC,
{
    features & VIRTIO_NET_F_MAC
}

/// Whether a queue size the device reports is usable: a power of two of at most
/// `QUEUE_SIZE`.
pub fn queue_size_supported(qsz: u16) -> (r: bool)
    ensures
        r == (qsz > 0 && qsz as usize <= QUEUE_SIZE && (qsz & sub1(qsz)) == 0),
{
    qsz > 0 && (qsz as usize) <= QUEUE_SIZE && (qsz & (qsz - 1)) == 0
}

pub open spec fn sub1(x: u16) -> u16 {
    (x - 1) as u16
}

impl Virtqueue {
    /// A queue of `qsz` descriptors over the buffers at `buffer_addrs`, each 2048 bytes,
    /// linked into one free chain in order; both rings empty.
    pub fn new(qsz: u16, region_phys: u64, buffer_addrs: &[u64]) -> (r: Self)
        requires
            0 < qsz <= QUEUE_SIZE,
            buffer_addrs@.len() == qsz,
        ensures
            r.wf(),
            r.size == qsz,
            r.free_list() == Seq::new(qsz as nat, |j: int| j as u16),
            r.free_head == 0,
            r.last_used_idx == 0,
            r.avail.idx == 0,
            r.used.idx == 0,
            r.region_phys == region_phys,
            r.num_free == qsz,
            r.desc@.len() == qsz,
            forall|i: int| 0 <= i < qsz ==> {
                &&& (#[trigger] r.desc@[i]).addr == buffer_addrs@[i]
                &&& r.desc@[i].len == RX_BUFFER_SIZE
                &&& r.desc@[i].flags == 0
                &&& r.desc@[i].next == (if i + 1 < qsz { (i + 1) as u16 } else { 0u16 })
            },
            r.avail.flags == 0 && r.avail.used_event == 0,
            r.used.flags == 0 && r.used.avail_event == 0,
            r.avail.ring@ == Seq::new(QUEUE_SIZE as nat, |j: int| 0u16),
            r.used.ring@.len() == QUEUE_SIZE,
            forall|j: int| 0 <= j < QUEUE_SIZE ==> (#[trigger] r.used.ring@[j]).id == 0 && r.used.ring@[j].len == 0,
    {
        let q = qsz as usize;
        let mut desc: Vec<VirtqDesc> = Vec::new();
        let mut i: usize = 0;
        while i < q
            invariant
                i <= q,
                q == qsz,
                q <= QUEUE_SIZE,
                buffer_addrs@.len() == q,
                desc@.len() == i,
                forall|k: int| 0 <= k < i ==> (#[trigger] desc@[k]).addr == buffer_addrs@[k] && desc@[k].len == RX_BUFFER_SIZE
                    && desc@[k].flags == 0 && desc@[k].next == (if k + 1 < q { (k + 1) as u16 } else { 0u16 }),
            decreases q - i,
        {
            let next: u16 = if i + 1 < q { (i + 1) as u16 } else { 0 };
            desc.push(VirtqDesc { addr: buffer_addrs[i], len: RX_BUFFER_SIZE as u32, flags: 0, next });
            i = i + 1;
        }
        let mut avail_ring: Vec<u16> = Vec::new();
        let mut used_ring: Vec<VirtqUsedElem> = Vec::new();
        let mut j: usize = 0;
        while j < QUEUE_SIZE
            invariant
                j <= QUEUE_SIZE,
                avail_ring@.len() == j,
                used_ring@.len() == j,
                forall|k: int| 0 <= k < j ==> #[trigger] avail_ring@[k] == 0,
                forall|k: int| 0 <= k < j ==> (#[trigger] used_ring@[k]).id == 0 && used_ring@[k].len == 0,
            decreases QUEUE_SIZE - j,
        {
            avail_ring.push(0);
            used_ring.push(VirtqUsedElem { id: 0, len: 0 });
            j = j + 1;
        }
        let r = Virtqueue {
            desc,
            avail: VirtqAvail { flags: 0, idx: 0, ring: avail_ring, used_event: 0 },
            used: VirtqUsed { flags: 0, idx: 0, ring: used_ring, avail_event: 0 },
            size: qsz,
            free_head: 0,
            num_free: qsz,
            last_used_idx: 0,
            region_phys,
        };
        proof {
            assert forall|k: int| 0 <= k < q - 1 implies #[trigger] r.desc@[k].next == k + 1 by {}
            lemma_initial_chain(r.desc@, 0, q as int);
            assert(r.free_list() =~= Seq::new(qsz as nat, |j: int| j as u16));
            assert(r.free_list().no_duplicates());
            assert(r.avail.ring@ =~= Seq::new(QUEUE_SIZE as nat, |j: int| 0u16));
        }
        r
    }

    /// Whether the device's used ring hands back only descriptors in use (see
    /// `returns_in_use`).
    pub fn returns_ok(&self) -> (r: bool)
        requires
            self.wf(),
        ensures
            r == returns_in_use(*self),
    {
        let n = self.used.idx.wrapping_sub(self.last_used_idx);
        let ghost p = pending_ids(*self);
        let ghost fl = self.free_list();
        proof {
            lemma_count_mod(self.used.idx, self.last_used_idx);
            lemma_chain_len(self.desc@, self.free_head, self.num_free as nat);
        }
        let mut ids: Vec<u16> = Vec::new();
        let mut k: u16 = 0;
        while k < n
            invariant
                k <= n,
                n == p.len(),
                p == pending_ids(*self),
                self.wf(),
                ids@ == p.take(k as int),
            decreases n - k,
        {
            let slot = self.last_used_idx.wrapping_add(k) as usize % self.size as usize;
            proof {
                lemma_slot_mod(self.last_used_idx, k);
                lemma_wrapping_add_u16(self.last_used_idx, k);
            }
            let id = self.used.ring[slot].id as u16;
            ids.push(id);
            assert(ids@ =~= p.take(k + 1));
            k = k + 1;
        }
        assert(ids@ =~= p);
        let m = ids.len();
        let mut i: usize = 0;
        while i < m
            invariant
                i <= m,
                m == p.len(),
                ids@ == p,
                fl == self.free_list(),
                fl.len() == self.num_free,
                p == pending_ids(*self),
                self.wf(),
                forall|a: int| 0 <= a < i ==> #[trigger] p[a] < self.size && !fl.contains(p[a]),
                forall|a: int, b: int| 0 <= a < b < i ==> p[a] != p[b],
            decreases m - i,
        {
            let id = ids[i];
            if id >= self.size {
                proof {
                    assert(p[i as int] >= self.size);
                    assert(!returns_in_use(*self));
                }
                return false;
            }
            if self.id_seen(&ids, i, id) {
                proof {
                    let j = choose|j: int| 0 <= j < i && p[j] == id;
                    assert(p[j] == p[i as int]);
                    assert(!p.no_duplicates());
                }
                return false;
            }
            if self.is_free(id) {
                proof {
                    assert(fl.contains(p[i as int]));
                    assert(!returns_in_use(*self));
                }
                return false;
            }
            i = i + 1;
        }
        proof {
            assert(p.no_duplicates()) by {
                assert forall|a: int, b: int| 0 <= a < p.len() && 0 <= b < p.len() && a != b implies p[a] != p[b] by {
                    if a < b {
                    } else {
                    }
                }
            }
        }
        true
    }

    /// Whether `id` occurs among the first `i` entries.
    fn id_seen(&self, ids: &Vec<u16>, i: usize, id: u16) -> (r: bool)
        requires
            i <= ids@.len(),
        ensures
            r == exists|j: int| 0 <= j < i && ids@[j] == id,
    {
        let mut j: usize = 0;
        while j < i
            invariant
                j <= i,
                i <= ids@.len(),
                forall|b: int| 0 <= b < j ==> ids@[b] != id,
            decreases i - j,
        {
            if ids[j] == id {
                return true;
            }
            j = j + 1;
        }
        false
    }

    /// Whether descriptor `id` is on the free chain.
    fn is_free(&self, id: u16) -> (r: bool)
        requires
            self.wf(),
        ensures
            r == self.free_list().contains(id),
    {
        let ghost fl = self.free_list();
        proof {
            lemma_chain_len(self.desc@, self.free_head, self.num_free as nat);
            assert(fl.skip(0) =~= fl);
        }
        let mut f: u16 = self.free_head;
        let mut c: u16 = 0;
        while c < self.num_free
            invariant
                c <= self.num_free,
                self.wf(),
                fl == self.free_list(),
                fl.len() == self.num_free,
                chain(self.desc@, f, (self.num_free - c) as nat) == fl.skip(c as int),
                forall|b: int| 0 <= b < c ==> fl[b] != id,
            decreases self.num_free - c,
        {
            let ghost rest = chain(self.desc@, self.desc@[f as int].next, (self.num_free - c - 1) as nat);
            proof {
                assert(chain(self.desc@, f, (self.num_free - c) as nat) == seq![f] + rest);
                assert(fl.skip(c as int)[0] == fl[c as int]);
                assert((seq![f] + rest)[0] == f);
                assert(fl[c as int] == f);
                assert(f < self.size);
            }
            if f == id {
                assert(fl[c as int] == id);
                return true;
            }
            proof {
                assert(rest =~= fl.skip(c + 1)) by {
                    assert(fl.skip(c as int) =~= seq![f] + rest);
                    assert forall|k: int| 0 <= k < rest.len() implies rest[k] == fl.skip(c + 1)[k] by {
                        assert((seq![f] + rest)[k + 1] == rest[k]);
                        assert(fl.skip(c as int)[k + 1] == fl[c + 1 + k]);
                    }
                    lemma_chain_len(self.desc@, self.desc@[f as int].next, (self.num_free - c - 1) as nat);
                }
            }
            f = self.desc[f as usize].next;
            c = c + 1;
        }
        assert(!fl.contains(id)) by {
            if fl.contains(id) {
                let b = choose|b: int| 0 <= b < fl.len() && fl[b] == id;
                assert(fl[b] != id);
            }
        }
        false
    }

    /// Takes the first free descriptor; `None` when none is free.
    pub fn alloc_desc(&mut self) -> (r: Option<u16>)
        requires
            old(self).wf(),
        ensures
            final(self).wf(),
            final(self).desc@ == old(self).desc@,
            final(self).avail == old(self).avail,
            final(self).used == old(self).used,
            final(self).size == old(self).size,
            final(self).last_used_idx == old(self).last_used_idx,
            old(self).num_free == 0 ==> r is None && final(self).free_list() == old(self).free_list(),
            old(self).num_free > 0 ==> r == Some(old(self).free_list()[0]) && final(self).free_list() == old(self).free_list().drop_first(),
    {
        if self.num_free == 0 {
            return None;
        }
        let ghost l = self.free_list();
        let idx = self.free_head;
        assert(l[0] == idx);
        assert(idx < self.size);
        self.free_head = self.desc[idx as usize].next;
        self.num_free = self.num_free - 1;
        proof {
            assert(self.free_list() =~= l.drop_first());
            assert forall|i: int| 0 <= i < self.free_list().len() implies #[trigger] self.free_list()[i] < self.size by {
                assert(self.free_list()[i] == l[i + 1]);
            }
            assert forall|a: int, b: int| 0 <= a < b < self.free_list().len() implies self.free_list()[a] != self.free_list()[b] by {
                assert(l[a + 1] != l[b + 1]);
            }
        }
        Some(idx)
    }

    /// Returns a descriptor that is in use to the front of the free chain.
    pub fn free_desc(&mut self, idx: u16)
        requires
            old(self).wf(),
            idx < old(self).size,
            !old(self).free_list().contains(idx),
        ensures
            final(self).wf(),
            final(self).free_list() == seq![idx] + old(self).free_list(),
            final(self).desc@ == old(self).desc@.update(idx as int, VirtqDesc { next: old(self).free_head, ..old(self).desc@[idx as int] }),
            final(self).avail == old(self).avail,
            final(self).used == old(self).used,
            final(self).size == old(self).size,
            final(self).last_used_idx == old(self).last_used_idx,
    {
        let ghost l = self.free_list();
        let ghost d0 = self.desc@;
        let ghost n0 = self.num_free as nat;
        proof {
            lemma_chain_len(d0, self.free_head, n0);
            lemma_distinct_bound(l.push(idx), self.size as int);
            assert(l.push(idx).no_duplicates()) by {
                assert forall|a: int, b: int| 0 <= a < b < l.push(idx).len() implies l.push(idx)[a] != l.push(idx)[b] by {
                    if b == l.len() {
                        assert(l[a] != idx);
                    }
                }
            }
        }
        let mut d = self.desc[idx as usize];
        d.next = self.free_head;
        self.desc.set(idx as usize, d);
        let old_head = self.free_head;
        self.free_head = idx;
        self.num_free = self.num_free + 1;
        proof {
            lemma_chain_update(d0, old_head, n0, idx as int, d);
            assert(self.free_list() =~= seq![idx] + l);
            assert forall|i: int| 0 <= i < self.free_list().len() implies #[trigger] self.free_list()[i] < self.size by {
                if i > 0 {
                    assert(self.free_list()[i] == l[i - 1]);
                }
            }
            assert forall|a: int, b: int| 0 <= a < b < self.free_list().len() implies self.free_list()[a] != self.free_list()[b] by {
                if a == 0 {
                    assert(l[b - 1] != idx);
                } else {
                    assert(l[a - 1] != l[b - 1]);
                }
            }
        }
    }

    /// Offers descriptor `desc_idx` to the device in the next slot of the available ring.
    pub fn push_avail(&mut self, desc_idx: u16)
        requires
            old(self).wf(),
        ensures
            final(self).wf(),
            final(self).avail.ring@ == old(self).avail.ring@.update(old(self).avail.idx as int % old(self).size as int, desc_idx),
            final(self).avail.idx == old(self).avail.idx.wrapping_add(1),
            final(self).avail.flags == old(self).avail.flags,
            final(self).desc@ == old(self).desc@,
            final(self).used == old(self).used,
            final(self).size == old(self).size,
            final(self).free_head == old(self).free_head,
            final(self).num_free == old(self).num_free,
            final(self).last_used_idx == old(self).last_used_idx,
    {
        let slot = self.avail.idx as usize % self.size as usize;
        self.avail.ring.set(slot, desc_idx);
        self.avail.idx = self.avail.idx.wrapping_add(1);
    }

    /// Takes the next entry the device has put in the used ring: its descriptor and length.
    pub fn pop_used(&mut self) -> (r: Option<(u16, u32)>)
        requires
            old(self).wf(),
        ensures
            final(self).wf(),
            final(self).desc == old(self).desc,
            final(self).avail == old(self).avail,
            final(self).used == old(self).used,
            final(self).size == old(self).size,
            final(self).free_head == old(self).free_head,
            final(self).num_free == old(self).num_free,
            final(self).region_phys == old(self).region_phys,
            old(self).used.idx == old(self).last_used_idx ==> r is None && final(self).last_used_idx == old(self).last_used_idx,
            old(self).used.idx != old(self).last_used_idx ==> {
                let e = old(self).used.ring@[old(self).last_used_idx as int % old(self).size as int];
                &&& r == Some((e.id as u16, e.len))
                &&& final(self).last_used_idx == old(self).last_used_idx.wrapping_add(1)
            },
    {
        if self.used.idx == self.last_used_idx {
            return None;
        }
        let element = self.used.ring[self.last_used_idx as usize % self.size as usize];
        self.last_used_idx = self.last_used_idx.wrapping_add(1);
        Some((element.id as u16, element.len))
    }
}

/// Freeing a descriptor and then allocating one hands the same descriptor back and leaves the
/// free chain as it was before the free: `free_desc` puts the descriptor at the front of the
/// chain and `alloc_desc` takes the front.
pub proof fn lemma_free_then_alloc(free_list: Seq<u16>, idx: u16)
    ensures
        (seq![idx] + free_list)[0] == idx,
        (seq![idx] + free_list).drop_first() == free_list,
{
    assert((seq![idx] + free_list).drop_first() =~= free_list);
}

/// Reclaiming the descriptors the device returned makes each of them free again and keeps
/// the ones that were free: the free chain afterwards holds exactly both.
pub proof fn lemma_reclaim_frees_returned(returned: Seq<u16>, free_list: Seq<u16>, d: u16)
    ensures
        (returned.reverse() + free_list).contains(d) <==> (returned.contains(d) || free_list.contains(d)),
{
    let t = returned.reverse() + free_list;
    if returned.contains(d) {
        let i = choose|i: int| 0 <= i < returned.len() && returned[i] == d;
        assert(t[returned.len() - 1 - i] == d);
    }
    if free_list.contains(d) {
        let i = choose|i: int| 0 <= i < free_list.len() && free_list[i] == d;
        assert(t[returned.len() + i] == d);
    }
    if t.contains(d) {
        let i = choose|i: int| 0 <= i < t.len() && t[i] == d;
        if i < returned.len() {
            assert(returned[returned.len() - 1 - i] == d);
        } else {
            assert(free_list[i - returned.len()] == d);
        }
    }
}

pub struct VirtioNet {
    pub iobase: u16,
    pub mac: [u8; 6],
    pub rx: Virtqueue,
    pub tx: Virtqueue,
}

/// The device hands back, in its used ring, descriptors that the driver gave it: distinct
/// descriptors of the table, none of them free.
pub open spec fn returns_in_use(q: Virtqueue) -> bool {
    &&& pending_ids(q).no_duplicates()
    &&& forall|k: int| 0 <= k < pending_ids(q).len() ==> #[trigger] pending_ids(q)[k] < q.size
        && !q.free_list().contains(pending_ids(q)[k])
}

proof fn lemma_wrap_count(u: u16, l: u16, k: u16)
    by (bit_vector)
    requires
        k <= ((u - l) as u16),
    ensures
        ((l + k) as u16 == u) <==> (k == ((u - l) as u16)),
{
}

proof fn lemma_wrap_step(l: u16, k: u16)
    by (bit_vector)
    requires
        k < 0xffff,
    ensures
        (if (l + k) as u16 + 1 > 0xffff { ((l + k) as u16 + 1 - 0x1_0000) as u16 } else { ((l + k) as u16 + 1) as u16 })
            == ((l + (k + 1)) as u16),
{
}

proof fn lemma_wrapping_add_u16(l: u16, k: u16)
    ensures
        l.wrapping_add(k) == (l + k) as u16,
{
    assert(l + k > 0xffff ==> ((l + k - 0x1_0000) as u16) == ((l + k) as u16)) by (bit_vector);
}

proof fn lemma_count_mod(u: u16, l: u16)
    ensures
        ((u - l) % 0x1_0000) == ((u - l) as u16) as int,
{
    assert(((u - l) % 0x1_0000) == ((u - l) as u16) as int) by (bit_vector);
}

proof fn lemma_slot_mod(l: u16, k: u16)
    ensures
        ((l + k) % 0x1_0000) == ((l + k) as u16) as int,
{
    assert(((l + k) % 0x1_0000) == ((l + k) as u16) as int) by (bit_vector);
}

impl VirtioNet {
    /// Gives every receive descriptor to the device: each writable by the device and offered
    /// in the available ring slot of its own number.
    pub fn fill_rx(&mut self)
        requires
            old(self).rx.wf(),
        ensures
            final(self).rx.wf(),
            final(self).rx.avail.idx == old(self).rx.size,
            forall|i: int| 0 <= i < old(self).rx.size ==> #[trigger] final(self).rx.avail.ring@[i] == i
                && final(self).rx.desc@[i] == (VirtqDesc { flags: VIRTQ_DESC_F_WRITE, ..old(self).rx.desc@[i] }),
            final(self).rx.free_head == old(self).rx.free_head,
            final(self).rx.num_free == old(self).rx.num_free,
            final(self).tx == old(self).tx,
    {
        let n = self.rx.size as usize;
        let ghost d0 = self.rx.desc@;
        let ghost f0 = self.rx.free_list();
        let mut i: usize = 0;
        while i < n
            invariant
                i <= n,
                n == self.rx.size,
                n == old(self).rx.size,
                self.rx.desc@.len() == n,
                self.rx.avail.ring@.len() == QUEUE_SIZE,
                d0 == old(self).rx.desc@,
                self.tx == old(self).tx,
                self.rx.used == old(self).rx.used,
                self.rx.free_head == old(self).rx.free_head,
                self.rx.num_free == old(self).rx.num_free,
                self.rx.last_used_idx == old(self).rx.last_used_idx,
                self.rx.avail.idx == old(self).rx.avail.idx,
                0 < n <= QUEUE_SIZE,
                forall|k: int| 0 <= k < i ==> #[trigger] self.rx.avail.ring@[k] == k,
                forall|k: int| 0 <= k < i ==> #[trigger] self.rx.desc@[k] == (VirtqDesc { flags: VIRTQ_DESC_F_WRITE, ..d0[k] }),
                forall|k: int| i <= k < n ==> #[trigger] self.rx.desc@[k] == d0[k],
            decreases n - i,
        {
            let mut d = self.rx.desc[i];
            d.flags = VIRTQ_DESC_F_WRITE;
            self.rx.desc.set(i, d);
            self.rx.avail.ring.set(i, i as u16);
            i = i + 1;
        }
        self.rx.avail.idx = self.rx.size;
        proof {
            assert forall|k: int| 0 <= k < n implies #[trigger] self.rx.desc@[k].next == d0[k].next by {
                assert(self.rx.desc@[k] == (VirtqDesc { flags: VIRTQ_DESC_F_WRITE, ..d0[k] }));
            }
            assert(f0 == chain(d0, self.rx.free_head, self.rx.num_free as nat));
            lemma_chain_len(d0, self.rx.free_head, self.rx.num_free as nat);
            assert forall|k: int| 0 <= k < self.rx.num_free implies #[trigger] chain(d0, self.rx.free_head, self.rx.num_free as nat)[k] < d0.len() by {
                assert(f0[k] < old(self).rx.size);
            }
            lemma_chain_same_links(d0, self.rx.desc@, self.rx.free_head, self.rx.num_free as nat);
        }
    }

    /// Frees the transmit descriptors the device has finished with.
    pub fn reclaim_tx(&mut self)
        requires
            old(self).tx.wf(),
            returns_in_use(old(self).tx),
        ensures
            final(self).tx.wf(),
            final(self).tx.free_list() == pending_ids(old(self).tx).reverse() + old(self).tx.free_list(),
            final(self).tx.last_used_idx == old(self).tx.used.idx,
            final(self).tx.used == old(self).tx.used,
            final(self).tx.avail == old(self).tx.avail,
            final(self).tx.size == old(self).tx.size,
            final(self).rx == old(self).rx,
    {
        let ghost p = pending_ids(self.tx);
        let ghost f0 = self.tx.free_list();
        let ghost l0 = self.tx.last_used_idx;
        let ghost u = self.tx.used.idx;
        let ghost n = ((u - l0) as u16);
        let ghost mut k: u16 = 0;
        proof {
            lemma_count_mod(u, l0);
            assert(p.len() == n);
            assert(p.take(0).reverse() + f0 =~= f0);
            assert((l0 + 0) as u16 == l0) by (bit_vector);
        }
        loop
            invariant_except_break
                self.tx.wf(),
                k <= n,
                p.len() == n,
                p == pending_ids(old(self).tx),
                f0 == old(self).tx.free_list(),
                l0 == old(self).tx.last_used_idx,
                u == old(self).tx.used.idx,
                n == ((u - l0) as u16),
                self.tx.used == old(self).tx.used,
                self.tx.avail == old(self).tx.avail,
                self.tx.size == old(self).tx.size,
                self.rx == old(self).rx,
                self.tx.last_used_idx == (l0 + k) as u16,
                self.tx.free_list() == p.take(k as int).reverse() + f0,
                returns_in_use(old(self).tx),
            ensures
                self.tx.wf(),
                self.tx.free_list() == p.reverse() + f0,
                self.tx.last_used_idx == u,
                self.tx.used == old(self).tx.used,
                self.tx.avail == old(self).tx.avail,
                self.tx.size == old(self).tx.size,
                self.rx == old(self).rx,
            decreases n - k,
        {
            proof {
                lemma_wrap_count(u, l0, k);
            }
            let ghost before = self.tx.free_list();
            match self.tx.pop_used() {
                None => {
                    assert(p.take(k as int) =~= p);
                    break;
                },
                Some((id, _)) => {
                    proof {
                        lemma_slot_mod(l0, k);
                        assert(id == p[k as int]);
                        assert(!f0.contains(id));
                        assert(!p.take(k as int).contains(id)) by {
                            if p.take(k as int).contains(id) {
                                let j = choose|j: int| 0 <= j < k && p.take(k as int)[j] == id;
                                assert(p[j] == p[k as int]);
                            }
                        }
                        assert(!before.contains(id)) by {
                            if before.contains(id) {
                                let j = choose|j: int| 0 <= j < before.len() && before[j] == id;
                                let t = p.take(k as int).reverse();
                                if j < t.len() {
                                    assert(t[j] == p.take(k as int)[k - 1 - j]);
                                    assert(p.take(k as int).contains(id));
                                } else {
                                    assert(f0[j - t.len()] == id);
                                }
                            }
                        }
                    }
                    self.tx.free_desc(id);
                    proof {
                        lemma_wrap_step(l0, k);
                        assert(p.take(k + 1).reverse() =~= seq![id] + p.take(k as int).reverse());
                        k = (k + 1) as u16;
                    }
                },
            }
        }
    }

    /// Readies the transmission of a frame of `frame_len` bytes: frees the descriptors the
    /// device has finished with, then takes a free descriptor and sets its length to the
    /// virtio header and the frame. `None` when the frame does not fit in a buffer or no
    /// descriptor is free. The caller copies the header and frame into the descriptor's buffer
    /// and then offers it with `tx.push_avail`.
    pub fn prepare_send(&mut self, frame_len: usize) -> (r: Option<u16>)
        requires
            old(self).tx.wf(),
            returns_in_use(old(self).tx),
        ensures
            final(self).tx.wf(),
            final(self).rx == old(self).rx,
            final(self).tx.last_used_idx == old(self).tx.used.idx,
            frame_len > RX_BUFFER_SIZE - VIRTIO_NET_HDR_LEN ==> r is None
                && final(self).tx.free_list() == pending_ids(old(self).tx).reverse() + old(self).tx.free_list(),
            frame_len <= RX_BUFFER_SIZE - VIRTIO_NET_HDR_LEN ==> {
                let l = pending_ids(old(self).tx).reverse() + old(self).tx.free_list();
                &&& l.len() == 0 ==> r is None && final(self).tx.free_list() == l
                &&& l.len() > 0 ==> {
                    &&& r == Some(l[0])
                    &&& final(self).tx.free_list() == l.drop_first()
                    &&& final(self).tx.desc@[l[0] as int].len == VIRTIO_NET_HDR_LEN + frame_len
                    &&& final(self).tx.desc@[l[0] as int].flags == 0
                }
            },
    {
        self.reclaim_tx();
        if frame_len > RX_BUFFER_SIZE - VIRTIO_NET_HDR_LEN {
            return None;
        }
        proof {
            lemma_chain_len(self.tx.desc@, self.tx.free_head, self.tx.num_free as nat);
        }
        let idx = match self.tx.alloc_desc() {
            Some(i) => i,
            None => return None,
        };
        let ghost d0 = self.tx.desc@;
        let ghost fl = self.tx.free_list();
        let mut d = self.tx.desc[idx as usize];
        d.len = (VIRTIO_NET_HDR_LEN + frame_len) as u32;
        d.flags = 0;
        self.tx.desc.set(idx as usize, d);
        proof {
            assert forall|k: int| 0 <= k < d0.len() implies #[trigger] self.tx.desc@[k].next == d0[k].next by {}
            assert(fl == chain(d0, self.tx.free_head, self.tx.num_free as nat));
            lemma_chain_len(d0, self.tx.free_head, self.tx.num_free as nat);
            assert forall|k: int| 0 <= k < self.tx.num_free implies #[trigger] chain(d0, self.tx.free_head, self.tx.num_free as nat)[k] < d0.len() by {
                assert(fl[k] < self.tx.size);
            }
            lemma_chain_same_links(d0, self.tx.desc@, self.tx.free_head, self.tx.num_free as nat);
        }
        Some(idx)
    }

    /// Takes the next received frame: its descriptor and the length the device wrote (virtio
    /// header included), and offers the descriptor to the device again. `None` when no frame
    /// has arrived.
    pub fn receive(&mut self) -> (r: Option<(u16, u32)>)
        requires
            old(self).rx.wf(),
        ensures
            final(self).rx.wf(),
            final(self).tx == old(self).tx,
            old(self).rx.used.idx == old(self).rx.last_used_idx ==> r is None && final(self).rx == old(self).rx,
            old(self).rx.used.idx != old(self).rx.last_used_idx ==> {
                let e = old(self).rx.used.ring@[old(self).rx.last_used_idx as int % old(self).rx.size as int];
                &&& r == Some((e.id as u16, e.len))
                &&& final(self).rx.last_used_idx == old(self).rx.last_used_idx.wrapping_add(1)
                &&& final(self).rx.avail.ring@ == old(self).rx.avail.ring@.update(old(self).rx.avail.idx as int % old(self).rx.size as int, e.id as u16)
                &&& final(self).rx.avail.idx == old(self).rx.avail.idx.wrapping_add(1)
            },
    {
        let (id, len) = match self.rx.pop_used() {
            Some(x) => x,
            None => return None,
        };
        self.rx.push_avail(id);
        Some((id, len))
    }
}

} // verus!

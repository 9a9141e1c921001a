//! The boundary heap: a model allocator handed to the entry points as an
//! explicit capability.
//!
//! A `Heap` records the live regions of a flat 32-bit address space together
//! with the next address not yet handed out. `allocate` places each fresh
//! region at that address, so regions never overlap; `deallocate` removes a
//! region and, when the region sits at the top of the used address space,
//! gives its addresses back, so releasing an allocation immediately after
//! making it restores the heap exactly.

use vstd::hash_map::HashMapWithView;
use vstd::prelude::*;

verus! {

/// Number of addresses an allocation of `len` bytes occupies: a zero-sized
/// allocation still occupies one address, so every allocation gets an
/// address of its own.
pub open spec fn footprint(len: nat) -> nat {
    if len == 0 {
        1
    } else {
        len
    }
}

/// Mathematical model of the boundary heap: the next free address, and the
/// live regions, each keyed by its start address and carrying its bytes.
#[verifier::ext_equal]
pub ghost struct HeapModel {
    pub next: int,
    pub regions: Map<u32, Seq<u8>>,
}

impl HeapModel {
    /// Well-formedness: addresses start at 1 (0 is the null address), every
    /// region lies below `next`, and regions do not overlap.
    pub open spec fn wf(self) -> bool {
        &&& 1 <= self.next <= u32::MAX
        &&& forall|a: u32|
            #[trigger] self.regions.dom().contains(a) ==> 1 <= a && a + footprint(
                self.regions[a].len(),
            ) <= self.next
        &&& forall|a: u32, b: u32|
            #![trigger self.regions.dom().contains(a), self.regions.dom().contains(b)]
            self.regions.dom().contains(a) && self.regions.dom().contains(b) && a != b ==> a
                + footprint(self.regions[a].len()) <= b || b + footprint(self.regions[b].len())
                <= a
    }

    /// The address space still has room for a region of `size` bytes.
    pub open spec fn can_allocate(self, size: u32) -> bool {
        self.next + footprint(size as nat) <= u32::MAX
    }

    /// The address the next allocation will be placed at.
    pub open spec fn alloc_address(self) -> u32 {
        self.next as u32
    }

    /// The heap after allocating `size` bytes: a fresh zero-filled region at
    /// `alloc_address`, with `next` moved past it.
    pub open spec fn after_alloc(self, size: u32) -> HeapModel {
        HeapModel {
            next: self.next + footprint(size as nat),
            regions: self.regions.insert(
                self.alloc_address(),
                Seq::new(size as nat, |i: int| 0u8),
            ),
        }
    }

    /// The region at `address` is the last one handed out and still ends the
    /// used part of the address space.
    pub open spec fn is_top(self, address: u32) -> bool {
        address + footprint(self.regions[address].len()) == self.next
    }

    /// The heap after releasing the region at `address`: the region is gone,
    /// and if it ended the used address space, its addresses are free again.
    pub open spec fn after_dealloc(self, address: u32) -> HeapModel {
        HeapModel {
            next: if self.is_top(address) {
                address as int
            } else {
                self.next
            },
            regions: self.regions.remove(address),
        }
    }

    /// The heap after overwriting the region at `address` with `bytes` of
    /// the same length.
    pub open spec fn after_write(self, address: u32, bytes: Seq<u8>) -> HeapModel {
        HeapModel { next: self.next, regions: self.regions.insert(address, bytes) }
    }
}

/// The model a heap with the given table and next free address denotes.
spec fn model_of(table: Map<u32, Vec<u8>>, next: u32) -> HeapModel {
    HeapModel { next: next as int, regions: table.map_values(|v: Vec<u8>| v@) }
}

/// The boundary heap itself. Its view is a `HeapModel`.
pub struct Heap {
    table: HashMapWithView<u32, Vec<u8>>,
    next: u32,
}

impl View for Heap {
    type V = HeapModel;

    closed spec fn view(&self) -> HeapModel {
        model_of(self.table@, self.next)
    }
}

impl Heap {
    #[verifier::type_invariant]
    spec fn inv(self) -> bool {
        self@.wf()
    }

    /// A fresh heap: no live regions, allocation starts at address 1.
    pub fn new() -> (heap: Heap)
        ensures
            heap@.regions == Map::<u32, Seq<u8>>::empty(),
            heap@.next == 1,
    {
        let table = new_table();
        proof {
            lemma_empty_model_wf(1);
            assert(model_of(table@, 1).regions =~= Map::<u32, Seq<u8>>::empty());
        }
        let heap = Heap { table, next: 1 };
        heap
    }

    /// Whether a region starting at `address` is live.
    pub fn live(&self, address: u32) -> (r: bool)
        ensures
            r == self@.regions.dom().contains(address),
    {
        proof {
            assert(self@.regions.dom() =~= self.table@.dom());
        }
        self.table.contains_key(&address)
    }

    /// The byte length of the live region starting at `address`, if any.
    pub fn region_len(&self, address: u32) -> (r: Option<usize>)
        ensures
            match r {
                Some(n) => self@.regions.dom().contains(address) && n
                    == self@.regions[address].len(),
                None => !self@.regions.dom().contains(address),
            },
    {
        proof {
            assert(self@.regions.dom() =~= self.table@.dom());
        }
        match self.table.get(&address) {
            Some(v) => Some(v.len()),
            None => None,
        }
    }

    /// The bytes of the live region starting at `address`, if any.
    pub fn read(&self, address: u32) -> (r: Option<&Vec<u8>>)
        ensures
            match r {
                Some(v) => self@.regions.dom().contains(address) && v@ == self@.regions[address],
                None => !self@.regions.dom().contains(address),
            },
    {
        proof {
            assert(self@.regions.dom() =~= self.table@.dom());
        }
        self.table.get(&address)
    }
}

/// Requests a fresh region of exactly `size` bytes, 1-byte aligned, from
/// the heap and returns its start address. The region is zero-filled and
/// stays valid until it is explicitly released. The heap is handed in as an
/// explicit capability rather than reached as an ambient singleton.
///
/// Exhaustion of the address space is fatal in the boundary contract, so it
/// is excluded here by precondition instead.
pub fn allocate(heap: &mut Heap, size: u32) -> (address: u32)
    requires
        old(heap)@.can_allocate(size),
    ensures
        address == old(heap)@.alloc_address(),
        1 <= address,
        !old(heap)@.regions.dom().contains(address),
        final(heap)@ == old(heap)@.after_alloc(size),
{
    proof {
        use_type_invariant(&*heap);
    }
    let ghost m0 = heap@;
    let address = heap.next;
    proof {
        if m0.regions.dom().contains(address) {
            assert(address + footprint(m0.regions[address].len()) <= m0.next);
            assert(false);
        }
        lemma_empty_model_wf(heap.next);
    }
    let bytes = zero_bytes(size);
    let mut table = new_table();
    std::mem::swap(&mut table, &mut heap.table);
    table.insert(address, bytes);
    let new_next = if size == 0 {
        address + 1
    } else {
        address + size
    };
    proof {
        let m1 = model_of(table@, new_next);
        assert(m1.regions =~= m0.after_alloc(size).regions);
        assert(m1 =~= m0.after_alloc(size));
        assert forall|a: u32| #[trigger] m1.regions.dom().contains(a) implies 1 <= a && a
            + footprint(m1.regions[a].len()) <= m1.next by {
            if a != address {
                assert(m0.regions.dom().contains(a));
            }
        }
        assert forall|a: u32, b: u32|
            m1.regions.dom().contains(a) && m1.regions.dom().contains(b) && a != b implies a
            + footprint(m1.regions[a].len()) <= b || b + footprint(m1.regions[b].len()) <= a by {
            if a != address && b != address {
                assert(m0.regions.dom().contains(a));
                assert(m0.regions.dom().contains(b));
            } else if a == address {
                assert(m0.regions.dom().contains(b));
                assert(b + footprint(m0.regions[b].len()) <= m0.next);
            } else {
                assert(m0.regions.dom().contains(a));
                assert(a + footprint(m0.regions[a].len()) <= m0.next);
            }
        }
    }
    let heap_after = Heap { table, next: new_next };
    *heap = heap_after;
    address
}

/// Removes the region starting at `address` from the heap and hands its
/// bytes out, together with ownership of the region.
pub(crate) fn take_region(heap: &mut Heap, address: u32) -> (bytes: Vec<u8>)
    requires
        old(heap)@.regions.dom().contains(address),
    ensures
        bytes@ == old(heap)@.regions[address],
        final(heap)@ == old(heap)@.after_dealloc(address),
{
    proof {
        use_type_invariant(&*heap);
    }
    let ghost m0 = heap@;
    proof {
        lemma_empty_model_wf(heap.next);
    }
    let mut table = new_table();
    std::mem::swap(&mut table, &mut heap.table);
    proof {
        assert(m0.regions.dom() =~= table@.dom());
    }
    let bytes = match table.remove(&address) {
        Some(b) => b,
        None => {
            proof {
                assert(false);
            }
            Vec::new()
        },
    };
    let footprint_len: u64 = if bytes.len() == 0 {
        1
    } else {
        bytes.len() as u64
    };
    let is_top_region = address as u64 + footprint_len == heap.next as u64;
    proof {
        assert(bytes@ == m0.regions[address]);
        assert(is_top_region == m0.is_top(address));
        assert(1 <= address);
    }
    let new_next = if is_top_region {
        address
    } else {
        heap.next
    };
    proof {
        let m1 = model_of(table@, new_next);
        assert(m1.regions =~= m0.regions.remove(address));
        assert(m1 =~= m0.after_dealloc(address));
        assert forall|a: u32| #[trigger] m1.regions.dom().contains(a) implies 1 <= a && a
            + footprint(m1.regions[a].len()) <= m1.next by {
            assert(m0.regions.dom().contains(a));
            if is_top_region {
                assert(a + footprint(m0.regions[a].len()) <= address || address + footprint(
                    m0.regions[address].len(),
                ) <= a);
                assert(a + footprint(m0.regions[a].len()) <= m0.next);
            }
        }
        assert forall|a: u32, b: u32|
            m1.regions.dom().contains(a) && m1.regions.dom().contains(b) && a != b implies a
            + footprint(m1.regions[a].len()) <= b || b + footprint(m1.regions[b].len()) <= a by {
            assert(m0.regions.dom().contains(a));
            assert(m0.regions.dom().contains(b));
        }
    }
    let heap_after = Heap { table, next: new_next };
    *heap = heap_after;
    bytes
}

/// Releases the region starting at `address`, which must have come from a
/// matching `allocate` (or otherwise be a live region of this heap) and
/// must still be live: releasing the same address twice is outside the
/// contract, and this precondition is exactly what rules it out. After the
/// call the region's memory must not be touched again.
pub fn deallocate(heap: &mut Heap, address: u32)
    requires
        old(heap)@.regions.dom().contains(address),
    ensures
        final(heap)@ == old(heap)@.after_dealloc(address),
{
    let _bytes = take_region(heap, address);
}

/// Overwrites the live region starting at `address` with `data`, which must
/// hold exactly as many bytes as the region: this is how a host-initiated
/// write of an allocated buffer is modelled.
pub fn write_region(heap: &mut Heap, address: u32, data: Vec<u8>)
    requires
        old(heap)@.regions.dom().contains(address),
        data@.len() == old(heap)@.regions[address].len(),
    ensures
        final(heap)@ == old(heap)@.after_write(address, data@),
{
    proof {
        use_type_invariant(&*heap);
    }
    let ghost m0 = heap@;
    proof {
        lemma_empty_model_wf(heap.next);
    }
    let mut table = new_table();
    std::mem::swap(&mut table, &mut heap.table);
    table.insert(address, data);
    proof {
        let m1 = model_of(table@, heap.next);
        assert(m1.regions =~= m0.regions.insert(address, table@[address]@));
        assert(m1 =~= m0.after_write(address, table@[address]@));
        assert forall|a: u32| #[trigger] m1.regions.dom().contains(a) implies 1 <= a && a
            + footprint(m1.regions[a].len()) <= m1.next by {
            assert(m0.regions.dom().contains(a));
        }
        assert forall|a: u32, b: u32|
            m1.regions.dom().contains(a) && m1.regions.dom().contains(b) && a != b implies a
            + footprint(m1.regions[a].len()) <= b || b + footprint(m1.regions[b].len()) <= a by {
            assert(m0.regions.dom().contains(a));
            assert(m0.regions.dom().contains(b));
        }
    }
    let heap_after = Heap { table, next: heap.next };
    *heap = heap_after;
}

/// Allocating a region and immediately releasing it restores the heap model
/// exactly — no address-space leak, no corruption of other regions — so a
/// following allocation of the same size is again possible, and lands at
/// the same address.
pub proof fn lemma_allocate_then_deallocate_restores(m: HeapModel, size: u32)
    requires
        m.wf(),
        m.can_allocate(size),
    ensures
        m.after_alloc(size).after_dealloc(m.alloc_address()) == m,
        m.after_alloc(size).after_dealloc(m.alloc_address()).can_allocate(size),
        m.after_alloc(size).after_dealloc(m.alloc_address()).alloc_address()
            == m.alloc_address(),
{
    let a = m.alloc_address();
    let m1 = m.after_alloc(size);
    if m.regions.dom().contains(a) {
        assert(a + footprint(m.regions[a].len()) <= m.next);
        assert(false);
    }
    assert(m1.regions[a].len() == size as nat);
    assert(m1.is_top(a));
    assert(m1.after_dealloc(a).regions =~= m.regions);
    assert(m1.after_dealloc(a) =~= m);
}

/// A zero-filled byte vector of the given length.
fn zero_bytes(size: u32) -> (bytes: Vec<u8>)
    ensures
        bytes@ == Seq::new(size as nat, |i: int| 0u8),
{
    let mut bytes: Vec<u8> = Vec::new();
    let mut i: u32 = 0;
    while i < size
        invariant
            i <= size,
            bytes@.len() == i as nat,
            forall|j: int| 0 <= j < i as int ==> bytes@[j] == 0u8,
        decreases size - i,
    {
        bytes.push(0u8);
        i = i + 1;
    }
    proof {
        assert(bytes@ =~= Seq::new(size as nat, |i: int| 0u8));
    }
    bytes
}

/// The model of a heap whose table is empty is well-formed for any next
/// free address in range.
proof fn lemma_empty_model_wf(next: u32)
    requires
        1 <= next,
    ensures
        model_of(Map::<u32, Vec<u8>>::empty(), next).wf(),
{
    let m = model_of(Map::<u32, Vec<u8>>::empty(), next);
    assert forall|a: u32| #[trigger] m.regions.dom().contains(a) implies 1 <= a && a + footprint(
        m.regions[a].len(),
    ) <= m.next by {
        assert(false);
    }
}

/// A `HashMapWithView` keyed by `u32` addresses, with the hash-table key
/// model discharged once.
fn new_table() -> (table: HashMapWithView<u32, Vec<u8>>)
    ensures
        table@ == Map::<u32, Vec<u8>>::empty(),
{
    proof {
        broadcast use vstd::std_specs::hash::group_hash_axioms;
    }
    HashMapWithView::new()
}

} // verus!

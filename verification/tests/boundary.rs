use cumulusci::CumulusCI;
use cumulusci::Freeze;
use cumulusci::Heap;
use cumulusci::OwnedString;
use cumulusci::RawBuffer;
use cumulusci::allocate;
use cumulusci::deallocate;
use cumulusci::reconstruct;
use cumulusci::try_reconstruct;
use cumulusci::write_region;

// Releasing the same address twice is outside the boundary contract:
// `deallocate` requires a live region, so correct usage never reaches a
// second call, and no particular behavior of one is asserted here.

#[test]
fn allocate_returns_nonnull_address() {
    let mut heap = Heap::new();
    let address = allocate(&mut heap, 5);
    assert_ne!(address, 0);
    assert!(heap.live(address));
    assert_eq!(heap.region_len(address), Some(5));
}

#[test]
fn allocate_zero_size_is_not_rejected() {
    let mut heap = Heap::new();
    let address = allocate(&mut heap, 0);
    assert_ne!(address, 0);
    assert!(heap.live(address));
    assert_eq!(heap.region_len(address), Some(0));
}

#[test]
fn allocate_then_deallocate_permits_reallocation() {
    let mut heap = Heap::new();
    let first = allocate(&mut heap, 64);
    deallocate(&mut heap, first);
    assert!(!heap.live(first));
    let second = allocate(&mut heap, 64);
    assert_eq!(second, first);
    assert!(heap.live(second));
    assert_eq!(heap.region_len(second), Some(64));
}

#[test]
fn allocations_get_distinct_addresses() {
    let mut heap = Heap::new();
    let a = allocate(&mut heap, 3);
    let b = allocate(&mut heap, 0);
    let c = allocate(&mut heap, 8);
    assert_ne!(a, b);
    assert_ne!(a, c);
    assert_ne!(b, c);
    assert!(heap.live(a) && heap.live(b) && heap.live(c));
}

#[test]
fn fresh_region_is_zero_filled() {
    let mut heap = Heap::new();
    let address = allocate(&mut heap, 4);
    assert_eq!(heap.read(address).unwrap().as_slice(), &[0u8, 0, 0, 0]);
}

#[test]
fn write_then_read_round_trip() {
    let mut heap = Heap::new();
    let address = allocate(&mut heap, 3);
    write_region(&mut heap, address, vec![9u8, 8, 7]);
    assert_eq!(heap.read(address).unwrap().as_slice(), &[9u8, 8, 7]);
    assert_eq!(heap.region_len(address), Some(3));
}

#[test]
fn reconstruction_matches_written_bytes() {
    let mut heap = Heap::new();
    let address = allocate(&mut heap, 5);
    assert_ne!(address, 0);
    write_region(&mut heap, address, vec![104u8, 101, 108, 108, 111]);
    let adapter = CumulusCI {};
    let token = adapter.get_access_token(&mut heap, RawBuffer { address, length: 5 });
    assert_eq!(token.byte_len(), 5);
    assert_eq!(token.as_bytes().as_slice(), b"hello");
    assert!(!heap.live(address));
}

#[test]
fn empty_instance_url_is_empty_text_not_an_error() {
    let mut heap = Heap::new();
    let address = allocate(&mut heap, 0);
    let adapter = CumulusCI {};
    let url = adapter.get_instance_url(&mut heap, RawBuffer { address, length: 0 });
    assert!(url.is_empty());
    assert_eq!(url.byte_len(), 0);
    assert_eq!(url.into_bytes(), Vec::<u8>::new());
}

#[test]
fn reconstruct_takes_ownership_of_the_region() {
    let mut heap = Heap::new();
    let address = allocate(&mut heap, 2);
    write_region(&mut heap, address, vec![42u8, 43]);
    let text = reconstruct(&mut heap, RawBuffer { address, length: 2 });
    assert_eq!(text.into_bytes(), vec![42u8, 43]);
    assert!(!heap.live(address));
    assert_eq!(heap.region_len(address), None);
}

#[test]
fn try_reconstruct_rejects_length_mismatch() {
    let mut heap = Heap::new();
    let address = allocate(&mut heap, 3);
    let r = try_reconstruct(&mut heap, RawBuffer { address, length: 5 });
    assert!(r.is_none());
    assert!(heap.live(address));
    assert_eq!(heap.region_len(address), Some(3));
}

#[test]
fn try_reconstruct_rejects_dead_address() {
    let mut heap = Heap::new();
    let address = allocate(&mut heap, 3);
    deallocate(&mut heap, address);
    let r = try_reconstruct(&mut heap, RawBuffer { address, length: 3 });
    assert!(r.is_none());
}

#[test]
fn try_reconstruct_accepts_exact_length() {
    let mut heap = Heap::new();
    let address = allocate(&mut heap, 1);
    write_region(&mut heap, address, vec![7u8]);
    let r = try_reconstruct(&mut heap, RawBuffer { address, length: 1 });
    assert_eq!(r.unwrap().into_bytes(), vec![7u8]);
    assert!(!heap.live(address));
}

#[test]
fn owned_string_from_bytes_round_trip() {
    let text = OwnedString::from_bytes(vec![1u8, 2, 3]);
    assert_eq!(text.byte_len(), 3);
    assert!(!text.is_empty());
    assert_eq!(text.into_bytes(), vec![1u8, 2, 3]);
}

struct TokenLength;

impl Freeze<usize> for TokenLength {
    fn freeze(&self, _cumulusci: &CumulusCI) -> usize {
        0
    }
}

#[test]
fn freeze_is_implementable_by_users() {
    let frozen: usize = TokenLength.freeze(&CumulusCI {});
    assert_eq!(frozen, 0);
}

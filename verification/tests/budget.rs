use cooliris::budget::{decode_workers, estimate_decode_bytes, scan_threads, DecodeBudget};
use cooliris::media::Source;
use std::path::PathBuf;

#[test]
fn decodes_wait_until_they_fit() {
    let mut b = DecodeBudget::new(100);
    assert!(b.acquire(60));
    assert!(b.acquire(40));
    assert!(!b.acquire(1));
    b.release(40);
    assert!(b.acquire(40));
    b.release(40);
    b.release(60);
    assert_eq!(b.used, 0);
}

#[test]
fn an_oversized_decode_goes_alone() {
    let mut b = DecodeBudget::new(100);
    assert!(b.acquire(500));
    assert!(!b.acquire(0));
    b.release(500);
    assert!(b.acquire(10));
    assert!(!b.acquire(500));
    b.release(999);
    assert_eq!(b.used, 0);
}

#[test]
fn memory_is_estimated_from_the_dimensions() {
    let photo = Source::File(PathBuf::from("a.jpg"));
    assert_eq!(estimate_decode_bytes(&photo, Some((4000, 3000))), 48_000_000);
    assert_eq!(estimate_decode_bytes(&photo, None), 8 * 1024 * 1024);
    assert_eq!(estimate_decode_bytes(&Source::Video(PathBuf::from("a.mp4")), Some((4, 3))), 0);
    assert_eq!(estimate_decode_bytes(&Source::Placeholder(0), None), 0);
}

#[test]
fn threads_follow_the_machine_within_bounds() {
    assert_eq!(decode_workers(None), 4);
    assert_eq!(decode_workers(Some(1)), 4);
    assert_eq!(decode_workers(Some(8)), 8);
    assert_eq!(decode_workers(Some(64)), 12);
    assert_eq!(scan_threads(None), 4);
    assert_eq!(scan_threads(Some(64)), 16);
}

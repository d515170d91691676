use rc_str::span::locate;

#[test]
fn locate_finds_every_address_of_the_range() {
    assert_eq!(locate(1000, 11, 1000), Some(0));
    assert_eq!(locate(1000, 11, 1003), Some(3));
    assert_eq!(locate(1000, 11, 1010), Some(10));
}

#[test]
fn locate_accepts_the_address_one_past_the_end() {
    assert_eq!(locate(1000, 11, 1011), Some(11));
    assert_eq!(locate(1000, 0, 1000), Some(0));
}

#[test]
fn locate_rejects_addresses_before_the_range() {
    assert_eq!(locate(1000, 11, 999), None);
    assert_eq!(locate(1000, 11, 0), None);
    assert_eq!(locate(usize::MAX, 0, usize::MAX - 1), None);
}

#[test]
fn locate_rejects_addresses_after_the_range() {
    assert_eq!(locate(1000, 11, 1012), None);
    assert_eq!(locate(1000, 0, 1001), None);
    assert_eq!(locate(0, 11, usize::MAX), None);
}

#[test]
fn locate_works_at_the_top_of_the_address_space() {
    assert_eq!(locate(usize::MAX - 5, 11, usize::MAX), Some(5));
    assert_eq!(locate(usize::MAX - 5, 4, usize::MAX), None);
    assert_eq!(locate(usize::MAX, usize::MAX, usize::MAX), Some(0));
    assert_eq!(locate(0, usize::MAX, usize::MAX), Some(usize::MAX));
}

use pycom_wrap::text_range::TextRange;
use pycom_wrap::text_size::TextSize;
use std::cmp::Ordering;

fn size(raw: u32) -> TextSize {
    TextSize::new(raw)
}

fn range(start: u32, end: u32) -> TextRange {
    TextRange::new(size(start), size(end))
}

#[test]
fn constructors() {
    assert_eq!(TextRange::at(size(3), size(4)), range(3, 7));
    assert_eq!(TextRange::empty(size(5)), range(5, 5));
    assert_eq!(TextRange::up_to(size(9)), range(0, 9));
    assert_eq!(range(2, 6).len(), size(4));
    assert!(range(4, 4).is_empty());
    assert!(!range(4, 5).is_empty());
}

#[test]
fn containment() {
    let r = range(2, 6);
    assert!(r.contains(size(2)));
    assert!(!r.contains(size(6)));
    assert!(r.contains_inclusive(size(6)));
    assert!(!r.contains_inclusive(size(7)));
    assert!(r.containts_range(range(3, 6)));
    assert!(!r.containts_range(range(1, 3)));
}

#[test]
fn intersection_and_cover() {
    assert_eq!(range(0, 5).get_intersection(range(3, 9)), Some(range(3, 5)));
    assert_eq!(range(0, 2).get_intersection(range(3, 9)), None);
    assert_eq!(range(0, 3).get_intersection(range(3, 9)), Some(range(3, 3)));
    assert_eq!(range(0, 5).cover(range(3, 9)), range(3, 5));
    assert_eq!(range(0, 5).cover_offset(size(4)), range(4, 4));
}

#[test]
fn ordering_of_ranges() {
    assert_eq!(range(0, 2).ordering(range(2, 4)), Ordering::Less);
    assert_eq!(range(4, 6).ordering(range(1, 4)), Ordering::Greater);
    assert_eq!(range(0, 3).ordering(range(2, 4)), Ordering::Equal);
}

#[test]
fn moving_ends() {
    assert_eq!(range(2, 6).sub_start(size(2)), range(0, 6));
    assert_eq!(range(2, 6).add_start(size(3)), range(5, 6));
    assert_eq!(range(2, 6).sub_end(size(4)), range(2, 2));
    assert_eq!(range(2, 6).add_end(size(1)), range(2, 7));
}

#[test]
fn checked_moves_and_their_round_trip() {
    let r = range(2, 6);
    let moved = r.checked_add(size(10)).unwrap();
    assert_eq!(moved, range(12, 16));
    assert_eq!(moved.checked_sub(size(10)), Some(r));
    assert_eq!(r.checked_sub(size(3)), None);
    assert_eq!(range(1, u32::MAX).checked_add(size(1)), None);
}

#[test]
fn text_sizes() {
    assert_eq!(TextSize::from("a𐐀").to_u32(), 5);
    assert_eq!(TextSize::from('é').to_usize(), 2);
    assert_eq!(TextSize::from(&"abc".to_owned()).to_u32(), 3);
    assert_eq!(size(3).checked_add(size(4)), Some(size(7)));
    assert_eq!(size(u32::MAX).checked_add(size(1)), None);
    assert_eq!(size(3).checked_sub(size(4)), None);
    assert_eq!(size(4).checked_sub(size(3)).unwrap().checked_add(size(3)), Some(size(4)));
}

#[test]
fn size_and_range_arithmetic() {
    let three: TextSize = 3.into();
    assert_eq!(three, size(3));
    assert_eq!(u32::from(three), 3);
    assert_eq!(usize::from(three), 3);
    assert_eq!(three + size(4), size(7));
    assert_eq!(size(7) - three, size(4));
    assert_eq!(range(2, 6) + size(3), range(5, 9));
    assert_eq!(range(2, 6) - size(2), range(0, 4));
    assert_eq!((range(2, 6) + size(10)) - size(10), range(2, 6));
}

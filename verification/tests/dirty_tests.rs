use gc9a01a::DirtyRegionSet;
use gc9a01a::Region;

fn region(i: u16) -> Region {
    Region { x: i, y: i, width: (i as u32) + 1, height: (i as u32) + 2 }
}

#[test]
fn ten_inserts_succeed_eleventh_fails_without_damage() {
    let mut set = DirtyRegionSet::new();
    for i in 0..10u16 {
        assert!(set.insert(region(i)).is_ok());
    }
    assert_eq!(set.len(), 10);
    // the eleventh insertion reports capacity exhaustion...
    assert!(set.insert(region(99)).is_err());
    assert_eq!(set.len(), 10);
    // ...and leaves the first ten entries unchanged
    for i in 0..10usize {
        let r = set.get(i).unwrap();
        assert_eq!(r.x, i as u16);
        assert_eq!(r.y, i as u16);
        assert_eq!(r.width, i as u32 + 1);
        assert_eq!(r.height, i as u32 + 2);
    }
}

#[test]
fn slots_fill_left_to_right() {
    let mut set = DirtyRegionSet::new();
    set.insert(region(7)).unwrap();
    set.insert(region(3)).unwrap();
    let slots = set.slots();
    assert_eq!(slots.len(), 10);
    assert_eq!(slots[0].unwrap().x, 7);
    assert_eq!(slots[1].unwrap().x, 3);
    for i in 2..10 {
        assert!(slots[i].is_none());
    }
}

#[test]
fn clear_frees_every_slot() {
    let mut set = DirtyRegionSet::new();
    for i in 0..10u16 {
        set.insert(region(i)).unwrap();
    }
    set.clear();
    assert_eq!(set.len(), 0);
    for slot in set.slots() {
        assert!(slot.is_none());
    }
    // after a clear the set accepts insertions again
    assert!(set.insert(region(1)).is_ok());
    assert_eq!(set.len(), 1);
}

#[test]
fn get_past_the_filled_prefix_is_none() {
    let mut set = DirtyRegionSet::new();
    set.insert(region(0)).unwrap();
    assert!(set.get(0).is_some());
    assert!(set.get(1).is_none());
    assert!(set.get(9).is_none());
}

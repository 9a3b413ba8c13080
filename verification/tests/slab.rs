use rune_compile::slab::Slab;

#[test]
fn a_new_slab_hands_out_zero() {
    let mut slab = Slab::new();
    assert!(!slab.is_live(0));
    assert_eq!(slab.allocate(), 0);
    assert!(slab.is_live(0));
}

#[test]
fn allocation_grows_in_order() {
    let mut slab = Slab::new();
    assert_eq!(slab.allocate(), 0);
    assert_eq!(slab.allocate(), 1);
    assert_eq!(slab.allocate(), 2);
    assert!(slab.is_live(0) && slab.is_live(1) && slab.is_live(2));
    assert!(!slab.is_live(3));
}

#[test]
fn a_released_index_is_used_again_before_the_slab_grows() {
    let mut slab = Slab::new();
    for _ in 0..4 {
        slab.allocate();
    }
    slab.release(1);
    assert!(!slab.is_live(1));
    assert_eq!(slab.allocate(), 1);
    assert_eq!(slab.allocate(), 4);
}

#[test]
fn the_lowest_free_index_comes_first() {
    let mut slab = Slab::new();
    for _ in 0..6 {
        slab.allocate();
    }
    slab.release(4);
    slab.release(1);
    slab.release(3);
    assert_eq!(slab.allocate(), 1);
    assert_eq!(slab.allocate(), 3);
    assert_eq!(slab.allocate(), 4);
    assert_eq!(slab.allocate(), 6);
}

#[test]
fn release_in_any_order_keeps_the_rest_live() {
    let mut slab = Slab::new();
    for _ in 0..5 {
        slab.allocate();
    }
    slab.release(0);
    slab.release(4);
    slab.release(2);
    assert!(slab.is_live(1));
    assert!(slab.is_live(3));
    assert!(!slab.is_live(0));
    assert!(!slab.is_live(2));
    assert!(!slab.is_live(4));
    assert_eq!(slab.allocate(), 0);
    assert_eq!(slab.allocate(), 2);
    assert_eq!(slab.allocate(), 4);
    assert_eq!(slab.allocate(), 5);
}

#[test]
fn random_sequences_never_hand_out_a_live_index() {
    let mut slab = Slab::new();
    let mut live: Vec<usize> = Vec::new();
    let mut state: u64 = 0x2545_f491_4f6c_dd1d;
    for _ in 0..5000 {
        state ^= state << 13;
        state ^= state >> 7;
        state ^= state << 17;
        let release = !live.is_empty() && state % 3 == 0;
        if release {
            let at = (state >> 8) as usize % live.len();
            let slot = live.swap_remove(at);
            assert!(slab.is_live(slot));
            slab.release(slot);
            assert!(!slab.is_live(slot));
        } else {
            let lowest = (0..).find(|i| !live.contains(i)).unwrap();
            let slot = slab.allocate();
            assert!(!live.contains(&slot), "index {} was handed out twice", slot);
            assert_eq!(slot, lowest);
            live.push(slot);
        }
        for slot in &live {
            assert!(slab.is_live(*slot));
        }
    }
}

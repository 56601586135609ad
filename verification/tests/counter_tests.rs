use bitwise_life::counter::NeighborCounter;

#[test]
fn new_counter_is_zero() {
    let c = NeighborCounter::new();
    assert_eq!((c.b1, c.b2, c.b4), (0, 0, 0));
}

#[test]
fn add_follows_the_carry_save_formulas() {
    let mut c = NeighborCounter::new();
    c.add(0b0110);
    assert_eq!((c.b1, c.b2, c.b4), (0b0110, 0, 0));
    c.add(0b0011);
    assert_eq!((c.b1, c.b2, c.b4), (0b0101, 0b0010, 0));
    c.add(0b0111);
    assert_eq!((c.b1, c.b2, c.b4), (0b0010, 0b0111, 0));
    c.add(0b0010);
    assert_eq!((c.b1, c.b2, c.b4), (0b0000, 0b0101, 0b0010));
}

#[test]
fn counter_counts_to_three_exactly_and_flags_four() {
    let mut c = NeighborCounter::new();
    c.add(u128::MAX);
    assert_eq!((c.b1, c.b2, c.b4), (u128::MAX, 0, 0));
    c.add(u128::MAX);
    assert_eq!((c.b1, c.b2, c.b4), (0, u128::MAX, 0));
    c.add(u128::MAX);
    assert_eq!((c.b1, c.b2, c.b4), (u128::MAX, u128::MAX, 0));
    c.add(u128::MAX);
    assert_eq!((c.b1, c.b2, c.b4), (0, 0, u128::MAX));
}

#[test]
fn flag_for_four_stays_set_up_to_eight() {
    let mut c = NeighborCounter::new();
    for n in 1..=8u32 {
        c.add(u128::MAX);
        assert_eq!(c.b1 == u128::MAX, n % 2 == 1);
        assert_eq!(c.b2 == u128::MAX, n % 4 >= 2);
        assert_eq!(c.b4 == u128::MAX, n >= 4);
        assert!(c.b1 == 0 || c.b1 == u128::MAX);
        assert!(c.b2 == 0 || c.b2 == u128::MAX);
        assert!(c.b4 == 0 || c.b4 == u128::MAX);
    }
}

#[test]
fn eight_live_neighbours_leave_the_cell_dead() {
    let mut c = NeighborCounter::new();
    for _ in 0..8 {
        c.add(u128::MAX);
    }
    // The two low digits have wrapped to zero; the flag alone tells 8 from 0.
    assert_eq!((c.b1, c.b2, c.b4), (0, 0, u128::MAX));
    assert_eq!(c.resolve(u128::MAX), 0);
    assert_eq!(c.resolve(0), 0);
}

#[test]
fn six_and_seven_live_neighbours_leave_the_cell_dead() {
    let mut c = NeighborCounter::new();
    for _ in 0..6 {
        c.add(u128::MAX);
    }
    assert_eq!(c.b2, u128::MAX);
    assert_eq!(c.resolve(u128::MAX), 0);
    c.add(u128::MAX);
    assert_eq!((c.b1, c.b2), (u128::MAX, u128::MAX));
    assert_eq!(c.resolve(u128::MAX), 0);
    assert_eq!(c.resolve(0), 0);
}

#[test]
fn every_count_from_zero_to_eight_in_one_word() {
    // Lane j is set in the masks 1..=j, so it counts j.
    let mut c = NeighborCounter::new();
    for k in 1..=8u32 {
        let mut mask: u128 = 0;
        for j in k..=8 {
            mask |= 1u128 << j;
        }
        c.add(mask);
    }
    assert_eq!(c.b1, 0b0_1010_1010);
    assert_eq!(c.b2, 0b0_1100_1100);
    assert_eq!(c.b4, 0b1_1111_0000);
    // Alive cells live on with two or three neighbours.
    assert_eq!(c.resolve(u128::MAX), 0b1100);
    // Dead cells are born with exactly three.
    assert_eq!(c.resolve(0), 0b1000);
    // Lane 2 alive, lane 3 dead.
    assert_eq!(c.resolve(0b0100), 0b1100);
    assert_eq!(c.resolve(0b1_1111_0011), 0b1000);
}

#[test]
fn resolve_follows_its_formula() {
    let c = NeighborCounter { b1: 0b1100, b2: 0b1010, b4: 0b0001 };
    assert_eq!(c.resolve(0b0010), 0b1010);
    assert_eq!(c.resolve(0), 0b1000);
    let c = NeighborCounter { b1: 0b11, b2: 0b11, b4: 0b01 };
    assert_eq!(c.resolve(0), 0b10);
}

#[test]
fn masks_in_any_order_give_the_same_count() {
    let masks = [0x0123_4567_89ab_cdefu128, 0xffff_0000_ffff_0000, 0x0f0f_0f0f_0f0f_0f0f, 7, 1u128 << 127, u128::MAX, 0, 0xdead_beef];
    let mut a = NeighborCounter::new();
    for m in masks.iter() {
        a.add(*m);
    }
    let mut b = NeighborCounter::new();
    for m in masks.iter().rev() {
        b.add(*m);
    }
    assert_eq!((a.b1, a.b2, a.b4), (b.b1, b.b2, b.b4));
    assert_eq!(a.resolve(0x55), b.resolve(0x55));
}

use scan_plan::fixed::{as_share, Wide, ONE, ONE_SQUARED};

#[test]
fn a_share_is_at_most_one() {
    assert_eq!(as_share(0), 0);
    assert_eq!(as_share(ONE - 1), ONE - 1);
    assert_eq!(as_share(ONE), ONE);
    assert_eq!(as_share(u64::MAX), ONE);
}

#[test]
fn a_product_keeps_every_bit() {
    let most = Wide::product(u128::MAX, u128::MAX);
    assert_eq!((most.high, most.low), (u128::MAX - 1, 1));
    let small = Wide::product(6, 7);
    assert_eq!((small.high, small.low), (0, 42));
    let mixed = Wide::product(1 << 100, (1 << 60) + 3);
    assert_eq!((mixed.high, mixed.low), (1 << 32, 3 << 100));
}

#[test]
fn the_upper_word_decides_first() {
    let a = Wide { high: 1, low: 0 };
    let b = Wide { high: 0, low: u128::MAX };
    assert!(b.less_than(a));
    assert!(!a.less_than(b));
    assert!(!a.less_than(a));
    assert!(b.less_than(Wide { high: 0, low: u128::MAX }) == false);
}

#[test]
fn a_sum_carries() {
    let most = Wide { high: 0, low: u128::MAX };
    assert_eq!(most.plus(Wide { high: 0, low: 0 }), most);
    assert_eq!(most.plus(Wide { high: 0, low: 1 }), Wide { high: 1, low: 0 });
    assert_eq!(most.plus(most), Wide { high: 1, low: u128::MAX - 1 });
    let a = Wide { high: 3, low: 5 };
    assert_eq!(a.plus(Wide { high: 4, low: 6 }), Wide { high: 7, low: 11 });
}

#[test]
fn squared_parts_are_parts_of_parts() {
    assert_eq!(u128::from(ONE) * u128::from(ONE), ONE_SQUARED);
}

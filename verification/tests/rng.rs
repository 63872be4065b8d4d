use puyo::board::PuyoColor;
use puyo::classic::rng::Rng;
use puyo::rand::{random_piece, time_seed};

#[test]
fn test_deterministic() {
    let mut rng1 = Rng::new(42);
    let mut rng2 = Rng::new(42);
    for _ in 0..100 {
        assert_eq!(rng1.next_u64(), rng2.next_u64());
    }
}

#[test]
fn test_range() {
    let mut rng = Rng::new(12345);
    for _ in 0..1000 {
        let v = rng.next_range(4);
        assert!(v < 4);
    }
}

#[test]
fn test_zero_seed_handled() {
    let mut rng = Rng::new(0);
    let v = rng.next_u64();
    assert_ne!(v, 0);
}

#[test]
fn rand_test_random_piece_valid() {
    for _ in 0..100 {
        let p = random_piece();
        assert_ne!(p.axis_color, PuyoColor::Empty);
        assert_ne!(p.satellite_color, PuyoColor::Empty);
    }
}

#[test]
fn test_time_seed_nonzero() {
    let s = time_seed();
    assert_ne!(s, 0);
}

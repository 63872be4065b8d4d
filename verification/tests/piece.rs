use puyo::classic::piece::Placement as FixedPlacement;
use puyo::config::GameConfig;
use puyo::piece::{Orientation, Placement};

#[test]
fn piece_test_orientation_rotation() {
    assert_eq!(Orientation::North.rotate_cw(), Orientation::East);
    assert_eq!(Orientation::East.rotate_cw(), Orientation::South);
    assert_eq!(Orientation::South.rotate_cw(), Orientation::West);
    assert_eq!(Orientation::West.rotate_cw(), Orientation::North);

    assert_eq!(Orientation::North.rotate_ccw(), Orientation::West);
    assert_eq!(Orientation::West.rotate_ccw(), Orientation::South);
}

#[test]
fn piece_test_placement_satellite_col() {
    let c = GameConfig::default();
    let cols = c.cols;

    let p = Placement::new(1, Orientation::East);
    assert_eq!(p.satellite_col(cols), Some(2));

    let p = Placement::new(0, Orientation::West);
    assert_eq!(p.satellite_col(cols), None);

    let p = Placement::new(2, Orientation::East);
    assert_eq!(p.satellite_col(cols), None);

    let p = Placement::new(1, Orientation::North);
    assert_eq!(p.satellite_col(cols), Some(1));

    let p = FixedPlacement::new(2, Orientation::East);
    assert_eq!(p.satellite_col(), Some(3));

    let p = FixedPlacement::new(0, Orientation::West);
    assert_eq!(p.satellite_col(), None);

    let p = FixedPlacement::new(5, Orientation::East);
    assert_eq!(p.satellite_col(), None);

    let p = FixedPlacement::new(3, Orientation::North);
    assert_eq!(p.satellite_col(), Some(3));
}

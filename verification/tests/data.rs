use puyo::classic::data::all_color_permutations as all_four_color_permutations;
use puyo::config::GameConfig;
use puyo::data::{all_color_permutations, ColorPermutation};

fn factorial(n: usize) -> usize {
    (1..=n).product()
}

fn identity_perm(num_colors: usize) -> ColorPermutation {
    (0..num_colors).collect()
}

#[test]
fn data_test_all_permutations_count_and_unique() {
    let gc = GameConfig::default();
    let num_colors = gc.num_colors;
    let perms = all_color_permutations(num_colors);
    let expected_count = factorial(num_colors);
    assert_eq!(perms.len(), expected_count);
    for i in 0..perms.len() {
        let mut sorted = perms[i].clone();
        sorted.sort();
        assert_eq!(sorted, identity_perm(num_colors));
        for j in (i + 1)..perms.len() {
            assert_ne!(perms[i], perms[j]);
        }
    }

    let perms = all_four_color_permutations();
    assert_eq!(perms.len(), 24);
    for i in 0..24 {
        let mut sorted = perms[i];
        sorted.sort();
        assert_eq!(sorted, [0, 1, 2, 3]);
        for j in (i + 1)..24 {
            assert_ne!(perms[i], perms[j]);
        }
    }
}

#[test]
fn data_test_identity_permutation_exists() {
    let gc = GameConfig::default();
    let num_colors = gc.num_colors;
    let perms = all_color_permutations(num_colors);
    let id = identity_perm(num_colors);
    assert!(perms.iter().any(|p| *p == id));

    let perms = all_four_color_permutations();
    assert!(perms.iter().any(|p| *p == [0, 1, 2, 3]));
}

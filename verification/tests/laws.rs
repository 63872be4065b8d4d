use puyo::board::{Board, Group, PuyoColor};
use puyo::classic::board as fixed;
use puyo::classic::chain as fixed_chain;
use puyo::classic::eval::SimulationEvaluator as FixedEvaluator;
use puyo::classic::puyo_game::{board_hash, sample_piece};
use puyo::classic::rng::{generate_piece, noise_step, Rng, NOISE_RESEED};
use puyo::classic::state::same_color_neighbors;
use puyo::config::GameConfig;
use puyo::data::all_color_permutations;
use puyo::eval::SimulationEvaluator;
use puyo::game::{after_chains, can_occupy, landing_row, move_target, rotation_target, soft_drop_floor, GamePhase};
use puyo::hash_util::splitmix64;
use puyo::piece::{Orientation, Piece, Placement};
use puyo::placement::{can_place, enumerate_placements, place_piece_on_board, simulate_placement};
use puyo::rand::piece_from_seed;
use puyo::score::calculate_step_score;

fn cfg() -> GameConfig {
    GameConfig::default()
}

fn puyo_count(board: &Board) -> usize {
    board.to_flat().iter().filter(|&&v| v != 0).count()
}

#[test]
fn splitmix64_exact_values() {
    assert_eq!(splitmix64(0), 0);
    assert_eq!(splitmix64(1), 6238072747940578789);
    assert_eq!(splitmix64(12345), 17540659726606785873);
}

#[test]
fn rng_follows_xorshift() {
    let mut rng = Rng::new(1);
    assert_eq!(rng.next_u64(), 1082269761);
    assert_eq!(rng.next_u64(), 1152992998833853505);
    let mut rng = Rng::new(42);
    assert_eq!(rng.next_u64(), 45454805674);
    let mut rng = Rng::new(42);
    assert_eq!(rng.next_range(1000), (45454805674u64 % 1000) as u32);
}

#[test]
fn noise_step_exact_values() {
    assert_eq!(noise_step(1, 0), 1082269761);
    assert_eq!(noise_step(u64::MAX, 1), 2865389042330336067);
    assert_eq!(noise_step(12345, 7), 1639554773507148056);
    assert_eq!(noise_step(0, 0), NOISE_RESEED);
}

#[test]
fn seeded_pieces_follow_the_generator() {
    let mut rng = Rng::new(42);
    let p = generate_piece(&mut rng);
    assert_eq!((p.axis_color, p.satellite_color), (PuyoColor::Green, PuyoColor::Green));
    let mut rng = Rng::new(1);
    let p = generate_piece(&mut rng);
    assert_eq!((p.axis_color, p.satellite_color), (PuyoColor::Red, PuyoColor::Blue));
    let mut a = Rng::new(7);
    let mut b = Rng::new(7);
    for _ in 0..50 {
        let (p, q) = (generate_piece(&mut a), generate_piece(&mut b));
        assert_eq!((p.axis_color, p.satellite_color), (q.axis_color, q.satellite_color));
        assert!(p.axis_color.is_color() && p.satellite_color.is_color());
        assert!(p.axis_color.to_u8() <= 3 && p.satellite_color.to_u8() <= 3);
    }
}

#[test]
fn rng_never_yields_zero() {
    let mut rng = Rng::new(0);
    for _ in 0..10000 {
        assert_ne!(rng.next_u64(), 0);
    }
}

#[test]
fn piece_from_seed_exact_values() {
    let p = piece_from_seed(12345, 3);
    assert_eq!((p.axis_color, p.satellite_color), (PuyoColor::Red, PuyoColor::Blue));
    let p = piece_from_seed(12345, 4);
    assert_eq!((p.axis_color, p.satellite_color), (PuyoColor::Green, PuyoColor::Blue));
    let p = piece_from_seed(splitmix64(1), 3);
    assert_eq!((p.axis_color, p.satellite_color), (PuyoColor::Green, PuyoColor::Green));
    for seed in 0..1000u64 {
        let p = piece_from_seed(seed, 2);
        assert!(p.axis_color == PuyoColor::Red || p.axis_color == PuyoColor::Green);
        assert!(p.satellite_color == PuyoColor::Red || p.satellite_color == PuyoColor::Green);
    }
}

#[test]
fn sample_piece_exact_values() {
    let p = sample_piece(42, 7, 0);
    assert_eq!((p.axis_color, p.satellite_color), (PuyoColor::Blue, PuyoColor::Red));
    let p = sample_piece(1, 2, 3);
    assert_eq!((p.axis_color, p.satellite_color), (PuyoColor::Red, PuyoColor::Green));
}

#[test]
fn board_hash_exact_values() {
    let mut board = fixed::Board::new();
    assert_eq!(board_hash(&board), 9354609568656401157);
    board.set(0, 0, PuyoColor::Red);
    assert_eq!(board_hash(&board), 6569228600058460324);
}

#[test]
fn step_score_formula() {
    let group = |color: PuyoColor, n: usize| Group { color, cells: (0..n).map(|i| (0, i)).collect() };
    // chain 3: power 16, one colour, a group of 6: bonus 16 + 0 + 3 = 19
    assert_eq!(calculate_step_score(3, &[group(PuyoColor::Red, 6)]), 6 * 10 * 19);
    // three colours: colour bonus 6
    let groups = [group(PuyoColor::Red, 4), group(PuyoColor::Green, 4), group(PuyoColor::Blue, 4)];
    assert_eq!(calculate_step_score(1, &groups), 12 * 10 * 6);
    // chain numbers past the table use its last entry, 672
    assert_eq!(calculate_step_score(100, &[group(PuyoColor::Red, 4)]), 4 * 10 * 672);
    // groups of 11 or more get the largest group bonus, 10
    assert_eq!(calculate_step_score(1, &[group(PuyoColor::Red, 12)]), 12 * 10 * 10);
}

#[test]
fn resolve_chains_total_score() {
    let mut board = Board::new(&cfg());
    for _ in 0..3 {
        board.drop_puyo(0, PuyoColor::Blue);
    }
    for _ in 0..4 {
        board.drop_puyo(1, PuyoColor::Red);
    }
    board.drop_puyo(1, PuyoColor::Blue);
    let result = board.resolve_chains();
    assert_eq!(result.chain_count, 2);
    assert_eq!(result.score, 40 + 320);
    assert!(board.find_clearable_groups().is_empty());
}

#[test]
fn fixed_resolve_chains_steps() {
    let mut board = fixed::Board::new();
    for _ in 0..3 {
        board.drop_puyo(0, PuyoColor::Blue);
    }
    for _ in 0..4 {
        board.drop_puyo(1, PuyoColor::Red);
    }
    board.drop_puyo(1, PuyoColor::Blue);
    let result = fixed_chain::resolve_chains(&mut board);
    assert_eq!(result.chain_count, 2);
    assert_eq!(result.steps.len(), 2);
    assert_eq!(result.steps[0].chain_num, 1);
    assert_eq!(result.steps[1].chain_num, 2);
    assert_eq!(result.steps[0].score, 40);
    assert_eq!(result.steps[1].score, 320);
    assert_eq!(result.steps[0].groups.len(), 1);
    assert_eq!(result.steps[0].groups[0].color, PuyoColor::Red);
    assert_eq!(result.steps[1].groups[0].color, PuyoColor::Blue);
    assert_eq!(result.score, result.steps.iter().map(|s| s.score).sum::<u32>());
}

#[test]
fn gravity_keeps_every_puyo() {
    let mut board = Board::new(&cfg());
    board.set(0, 1, PuyoColor::Red);
    board.set(0, 4, PuyoColor::Blue);
    board.set(1, 6, PuyoColor::Green);
    board.set(2, 7, PuyoColor::Yellow);
    let before = puyo_count(&board);
    board.apply_gravity();
    assert_eq!(puyo_count(&board), before);
    assert_eq!(board.get(0, 0), PuyoColor::Red);
    assert_eq!(board.get(0, 1), PuyoColor::Blue);
    assert_eq!(board.get(1, 0), PuyoColor::Green);
    assert_eq!(board.get(2, 7), PuyoColor::Yellow);
}

#[test]
fn rotations_undo_each_other() {
    for o in [Orientation::North, Orientation::East, Orientation::South, Orientation::West] {
        assert_eq!(o.rotate_cw().rotate_ccw(), o);
        assert_eq!(o.rotate_ccw().rotate_cw(), o);
        assert_eq!(o.rotate_cw().rotate_cw().rotate_cw().rotate_cw(), o);
    }
    assert_eq!(Orientation::East.offset(), (1, 0));
    assert_eq!(Orientation::South.as_u8(), 2);
}

#[test]
fn listed_placements_apply_on_settled_boards() {
    // Play a few pieces: every listed placement can be simulated, and the
    // first one is taken each turn.
    let mut board = Board::new(&cfg());
    let pieces = [
        Piece::new(PuyoColor::Red, PuyoColor::Blue),
        Piece::new(PuyoColor::Red, PuyoColor::Red),
        Piece::new(PuyoColor::Green, PuyoColor::Blue),
        Piece::new(PuyoColor::Blue, PuyoColor::Blue),
        Piece::new(PuyoColor::Green, PuyoColor::Red),
    ];
    for turn in 0..20 {
        let piece = pieces[turn % pieces.len()];
        let placements = enumerate_placements(&board, &piece);
        if placements.is_empty() || board.is_game_over() {
            break;
        }
        assert!(placements.len() <= 4 * board.config.cols - 2);
        for p in &placements {
            assert!(can_place(&board, &piece, p));
            let (after, _) = simulate_placement(&board, &piece, p);
            assert!(after.find_clearable_groups().is_empty());
        }
        let (after, _) = simulate_placement(&board, &piece, &placements[turn % placements.len()]);
        board = after;
    }
}

#[test]
fn can_place_refuses_full_column() {
    let mut board = Board::new(&cfg());
    for _ in 0..8 {
        board.drop_puyo(0, PuyoColor::Red);
    }
    let piece = Piece::new(PuyoColor::Red, PuyoColor::Blue);
    assert!(!can_place(&board, &piece, &Placement::new(0, Orientation::North)));
    assert!(!can_place(&board, &piece, &Placement::new(1, Orientation::West)));
    assert!(can_place(&board, &piece, &Placement::new(1, Orientation::East)));
    assert!(!can_place(&board, &piece, &Placement::new(3, Orientation::North)));
}

#[test]
fn permutations_in_lexicographic_order() {
    let perms = all_color_permutations(3);
    let expected: Vec<Vec<usize>> = vec![
        vec![0, 1, 2],
        vec![0, 2, 1],
        vec![1, 0, 2],
        vec![1, 2, 0],
        vec![2, 0, 1],
        vec![2, 1, 0],
    ];
    assert_eq!(perms, expected);
    assert_eq!(all_color_permutations(0), vec![Vec::<usize>::new()]);
    assert_eq!(all_color_permutations(5).len(), 120);
    let four = puyo::classic::data::all_color_permutations();
    assert_eq!(four[0], [0, 1, 2, 3]);
    assert_eq!(four[23], [3, 2, 1, 0]);
    for i in 1..24 {
        assert!(four[i - 1] < four[i]);
    }
}

#[test]
fn expected_score_terms_on_empty_boards() {
    let board = Board::new(&cfg());
    // three colours, five placements each for a two-puyo piece of one colour
    assert_eq!(SimulationEvaluator.expected_score_terms(&board), (0, 15));
    let board = fixed::Board::new();
    // four colours on the fixed-size board
    assert_eq!(FixedEvaluator.expected_score_terms(&board), (0, 20));
}

#[test]
fn expected_score_terms_count_game_over() {
    let mut board = Board::new(&cfg());
    for _ in 0..2 {
        board.drop_puyo(1, PuyoColor::Red);
        board.drop_puyo(1, PuyoColor::Green);
    }
    board.drop_puyo(1, PuyoColor::Red);
    let (sum, count) = SimulationEvaluator.expected_score_terms(&board);
    assert!(count > 0);
    assert!(sum < 0);
}

#[test]
fn game_phase_numbers() {
    assert_eq!(GamePhase::Falling.as_u8(), 0);
    assert_eq!(GamePhase::Resolving.as_u8(), 1);
    assert_eq!(GamePhase::GameOver.as_u8(), 2);
}

#[test]
fn falling_piece_rules() {
    let mut board = Board::new(&cfg());
    assert!(can_occupy(&board, 1, 6, Orientation::North));
    assert!(!can_occupy(&board, 2, 6, Orientation::East));
    assert!(!can_occupy(&board, 0, 0, Orientation::South));
    // turning East at the right wall kicks one column left
    assert_eq!(rotation_target(&board, 2, 6, Orientation::East), Some(1));
    assert_eq!(rotation_target(&board, 1, 6, Orientation::East), Some(1));
    assert_eq!(move_target(&board, 0, 6, Orientation::North, -1), None);
    assert_eq!(move_target(&board, 0, 6, Orientation::North, 1), Some(1));
    board.drop_puyo(1, PuyoColor::Red);
    board.drop_puyo(1, PuyoColor::Red);
    board.drop_puyo(2, PuyoColor::Blue);
    // a puyo in the top hidden row blocks the cell
    board.set(0, 7, PuyoColor::Green);
    assert!(!can_occupy(&board, 0, 6, Orientation::North));
    assert!(!can_occupy(&board, 1, 1, Orientation::North));
    assert_eq!(landing_row(&board, 1, Orientation::North), 2);
    assert_eq!(landing_row(&board, 1, Orientation::East), 2);
    assert_eq!(landing_row(&board, 2, Orientation::South), 2);
    assert_eq!(landing_row(&board, 2, Orientation::East), 1);
    assert_eq!(soft_drop_floor(&board, 2, Orientation::South), 2);
    assert_eq!(soft_drop_floor(&board, 1, Orientation::West), 2);
}

#[test]
fn same_color_neighbor_counts() {
    let mut board = fixed::Board::new();
    board.set(0, 0, PuyoColor::Red);
    board.set(1, 0, PuyoColor::Red);
    board.set(0, 1, PuyoColor::Red);
    board.set(1, 1, PuyoColor::Blue);
    assert_eq!(same_color_neighbors(&board, 0, 0), 2);
    assert_eq!(same_color_neighbors(&board, 1, 0), 1);
    assert_eq!(same_color_neighbors(&board, 1, 1), 0);
    // empty cells count their empty neighbours
    assert_eq!(same_color_neighbors(&board, 2, 7), 2);
}

#[test]
fn well_formed_boards() {
    let board = Board::new(&cfg());
    assert!(board.is_well_formed());
    let mut bad = Board::new(&cfg());
    bad.config.rows += 1;
    assert!(!bad.is_well_formed());
    assert!(fixed::Board::new().is_well_formed());
}

#[test]
fn twin_pieces_always_fit() {
    // A floating stack: column 2 is empty at the bottom and full above.  A
    // two-colour piece cannot go South there, but a piece of one colour only
    // lists North in that column, which fits.
    let mut board = Board::new(&cfg());
    for row in 1..8 {
        board.set(2, row, PuyoColor::Blue);
    }
    let mixed = Piece::new(PuyoColor::Red, PuyoColor::Green);
    assert!(!can_place(&board, &mixed, &Placement::new(2, Orientation::South)));
    let twin = Piece::new(PuyoColor::Red, PuyoColor::Red);
    for p in &enumerate_placements(&board, &twin) {
        assert!(can_place(&board, &twin, p));
    }
    let (_, count) = SimulationEvaluator.expected_score_terms(&board);
    assert_eq!(count, 15);
}

#[test]
fn resolving_twice_changes_nothing() {
    let mut board = Board::new(&cfg());
    for _ in 0..3 {
        board.drop_puyo(0, PuyoColor::Blue);
    }
    for _ in 0..4 {
        board.drop_puyo(1, PuyoColor::Red);
    }
    board.drop_puyo(1, PuyoColor::Blue);
    board.drop_puyo(2, PuyoColor::Green);
    board.resolve_chains();
    let once = board.to_flat();
    let again = board.resolve_chains();
    assert_eq!(again.chain_count, 0);
    assert_eq!(again.score, 0);
    assert_eq!(board.to_flat(), once);
}

#[test]
fn groups_partition_the_visible_puyos() {
    let mut board = Board::new(&cfg());
    let colors = [PuyoColor::Red, PuyoColor::Green, PuyoColor::Red, PuyoColor::Blue];
    for row in 0..6 {
        for col in 0..3 {
            board.set(col, row, colors[(row * 3 + col * 2) % 4]);
        }
    }
    board.set(1, 7, PuyoColor::Yellow);
    let groups = board.find_connected_groups();
    let mut seen = vec![0usize; 24];
    for g in &groups {
        for &(c, r) in &g.cells {
            assert!(r < 6);
            assert_eq!(board.get(c, r), g.color);
            seen[c * 8 + r] += 1;
        }
    }
    for col in 0..3 {
        for row in 0..8 {
            let expected = if row < 6 { 1 } else { 0 };
            assert_eq!(seen[col * 8 + row], expected);
        }
    }
    // groups come in the order of their first cells
    for w in groups.windows(2) {
        let a = w[0].cells[0];
        let b = w[1].cells[0];
        assert!(a.0 * 8 + a.1 < b.0 * 8 + b.1);
    }
}

#[test]
fn group_cells_come_in_breadth_first_order() {
    let mut board = Board::new(&cfg());
    board.set(0, 2, PuyoColor::Red);
    for row in 0..4 {
        board.set(1, row, PuyoColor::Red);
    }
    board.set(2, 0, PuyoColor::Blue);
    let groups = board.find_connected_groups();
    assert_eq!(groups.len(), 2);
    assert_eq!(groups[0].color, PuyoColor::Red);
    assert_eq!(groups[0].cells, vec![(0, 2), (1, 2), (1, 1), (1, 3), (1, 0)]);
    assert_eq!(groups[1].cells, vec![(2, 0)]);

    let mut square = Board::new(&cfg());
    for (c, r) in [(0, 0), (0, 1), (1, 0), (1, 1)] {
        square.set(c, r, PuyoColor::Green);
    }
    let groups = square.find_clearable_groups();
    assert_eq!(groups.len(), 1);
    assert_eq!(groups[0].cells, vec![(0, 0), (1, 0), (0, 1), (1, 1)]);
}

#[test]
fn legal_placement_adds_exactly_the_piece() {
    let mut board = Board::new(&cfg());
    for color in [PuyoColor::Red, PuyoColor::Green, PuyoColor::Blue] {
        board.drop_puyo(1, color);
    }
    board.drop_puyo(0, PuyoColor::Green);
    let before = board.to_flat();
    let piece = Piece::new(PuyoColor::Red, PuyoColor::Blue);
    for p in enumerate_placements(&board, &piece) {
        let mut b = board.clone();
        place_piece_on_board(&mut b, &piece, &p);
        let after = b.to_flat();
        let count = |v: &Vec<u8>| v.iter().filter(|&&c| c != 0).count();
        assert_eq!(count(&after), count(&before) + 2);
        for i in 0..before.len() {
            if before[i] != 0 {
                assert_eq!(after[i], before[i]);
            }
        }
        let h = board.column_height(p.col);
        let axis_row = if p.orientation == Orientation::South { h + 1 } else { h };
        assert!(axis_row < 7);
        assert_eq!(b.get(p.col, axis_row), PuyoColor::Red);
    }
    let mut b = board.clone();
    place_piece_on_board(&mut b, &piece, &Placement::new(1, Orientation::South));
    assert_eq!(b.get(1, 3), PuyoColor::Blue);
    assert_eq!(b.get(1, 4), PuyoColor::Red);
}

#[test]
fn seeded_shuffle_exact_order() {
    let mut v: Vec<usize> = (0..10).collect();
    puyo::classic::data::shuffle_indices(&mut v, 0);
    assert_eq!(v, vec![0, 5, 2, 4, 3, 8, 6, 1, 9, 7]);
    let mut w: Vec<usize> = (0..5).collect();
    puyo::classic::data::shuffle_indices(&mut w, 7);
    assert_eq!(w, vec![1, 0, 4, 3, 2]);
    let mut empty: Vec<usize> = Vec::new();
    puyo::classic::data::shuffle_indices(&mut empty, 3);
    assert!(empty.is_empty());
}

#[test]
fn clock_shuffle_keeps_entries() {
    let mut v: Vec<usize> = vec![3, 1, 4, 1, 5, 9, 2, 6];
    puyo::data::shuffle_indices(&mut v);
    let mut sorted = v.clone();
    sorted.sort();
    assert_eq!(sorted, vec![1, 1, 2, 3, 4, 5, 6, 9]);
}

#[test]
fn seeded_shuffle_swaps_at_drawn_positions() {
    // Step 0 swaps position 3 with 5 % 4 = 1, step 1 swaps position 2 with
    // 0, step 2 swaps position 1 with 3 % 2 = 1.
    let mut v: Vec<usize> = vec![0, 1, 2, 3];
    puyo::data::shuffle_with_seeds(&mut v, &[5u64 << 33, 0, 3u64 << 33]);
    assert_eq!(v, vec![2, 3, 0, 1]);
    let mut one: Vec<usize> = vec![7];
    puyo::data::shuffle_with_seeds(&mut one, &[]);
    assert_eq!(one, vec![7]);
}

#[test]
fn turn_end_adds_score_and_keeps_best_chain() {
    let config = GameConfig::new(6, 14, 4);
    let mut board = Board::new(&config);
    assert_eq!(after_chains(&board, 100, 3, 40, 2), (140, 3, GamePhase::Falling));
    assert_eq!(after_chains(&board, 100, 3, 40, 5), (140, 5, GamePhase::Falling));
    for _ in 0..12 {
        board.drop_puyo(2, PuyoColor::Red);
    }
    assert!(board.is_game_over());
    assert_eq!(after_chains(&board, 0, 0, 0, 0), (0, 0, GamePhase::GameOver));
}

#[test]
fn boards_larger_than_ten_thousand_cells_work() {
    let config = GameConfig::new(200, 100, 4);
    let mut board = Board::new(&config);
    assert!(board.is_well_formed());
    assert_eq!(board.to_flat().len(), 20000);
    for _ in 0..4 {
        board.drop_puyo(150, PuyoColor::Red);
    }
    let result = board.resolve_chains();
    assert_eq!(result.chain_count, 1);
    assert_eq!(result.score, 40);
    assert!(board.to_flat().iter().all(|&c| c == 0));

    let piece = Piece::new(PuyoColor::Red, PuyoColor::Blue);
    let placements = enumerate_placements(&board, &piece);
    // on an empty board every column is reachable: 4 * cols - 2 placements
    assert_eq!(placements.len(), 4 * 200 - 2);
    let groups = board.find_connected_groups();
    assert!(groups.is_empty());
}

#[test]
fn flood_fill_stops_at_marked_cells() {
    let mut board = fixed::Board::new();
    for row in 0..4 {
        board.set(0, row, PuyoColor::Red);
    }
    let mut visited = [[false; 8]; 3];
    visited[0][2] = true;
    let cells = fixed_chain::flood_fill(&board, 0, 0, &mut visited);
    assert_eq!(cells, vec![(0, 0), (0, 1)]);
    assert!(visited[0][0] && visited[0][1] && visited[0][2] && !visited[0][3]);
    let mut visited = [[false; 8]; 3];
    let cells = fixed_chain::flood_fill(&board, 0, 3, &mut visited);
    assert_eq!(cells, vec![(0, 3), (0, 2), (0, 1), (0, 0)]);
}

#[test]
fn resolving_keeps_the_top_hidden_row_and_a_second_pass_does_nothing() {
    let mut board = Board::new(&cfg());
    board.set(0, 7, PuyoColor::Green);
    for _ in 0..4 {
        board.drop_puyo(1, PuyoColor::Blue);
    }
    board.set(1, 7, PuyoColor::Yellow);
    let result = board.resolve_chains();
    assert_eq!(result.chain_count, 1);
    assert_eq!(board.get(0, 7), PuyoColor::Green);
    assert_eq!(board.get(1, 7), PuyoColor::Yellow);
    let after = board.to_flat();
    let again = board.resolve_chains();
    assert_eq!((again.chain_count, again.score), (0, 0));
    assert_eq!(board.to_flat(), after);
}

#[test]
fn gravity_twice_equals_gravity_once() {
    let mut board = Board::new(&cfg());
    board.set(0, 3, PuyoColor::Red);
    board.set(2, 5, PuyoColor::Blue);
    board.set(2, 1, PuyoColor::Green);
    board.apply_gravity();
    let once = board.to_flat();
    board.apply_gravity();
    assert_eq!(board.to_flat(), once);
    assert_eq!(board.get(0, 0), PuyoColor::Red);
    assert_eq!(board.get(2, 0), PuyoColor::Green);
    assert_eq!(board.get(2, 1), PuyoColor::Blue);
}

#[test]
fn splitmix64_is_injective_on_samples() {
    assert_eq!(splitmix64(0), 0);
    let mut seen = std::collections::HashSet::new();
    for s in 0..5000u64 {
        assert!(seen.insert(splitmix64(s.wrapping_mul(0x9e3779b97f4a7c15))));
    }
}

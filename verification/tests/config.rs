use puyo::classic::board::{COLS, NUM_COLORS, ROWS};
use puyo::classic::config::{CONTEXT_TENSOR_SIZE, NUM_CHANNELS, PIECE_TENSOR_SIZE, TENSOR_SIZE};

#[test]
fn test_tensor_size() {
    assert_eq!(TENSOR_SIZE, NUM_CHANNELS * ROWS * COLS);
}

#[test]
fn test_piece_tensor_size() {
    assert_eq!(PIECE_TENSOR_SIZE, 3 * 2 * NUM_COLORS);
}

#[test]
fn test_context_tensor_size() {
    assert_eq!(CONTEXT_TENSOR_SIZE, PIECE_TENSOR_SIZE);
}

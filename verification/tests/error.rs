use layout_optimizer::keyboard::error::KeyboardError;

#[test]
fn failures_in_words() {
    assert_eq!(
        KeyboardError::SymmetryError(0, 12, 0, 1).message(),
        "Position (0, 12) is marked as symmetric but its corresponding symmetric position (0, 1) is not."
    );
    assert_eq!(
        KeyboardError::RowMismatchError(4, 3).message(),
        "Expected 4 rows but found 3 rows."
    );
    assert_eq!(
        KeyboardError::ColMismatchError(10, 11).message(),
        "Expected 10 columns but found 11 columns."
    );
    assert_eq!(
        KeyboardError::InvalidKeyFromString(String::from("X_1")).message(),
        "X_1 cannot be parsed into a KeycodeKey."
    );
    assert_eq!(
        KeyboardError::IndicesOutOfBounds(5, 0).message(),
        "Indices (5, 0) are out of bounds."
    );
    assert_eq!(
        KeyboardError::LayerOutOfBounds(3, 3).message(),
        "Layer 3 is out of bounds: there are 3 layers."
    );
}

use ternary_conv::TernaryMatrix;

#[test]
fn test_display_format() {
    let m = TernaryMatrix::from_vec(2, 2, vec![1, -1, 0, 1]);
    let s = m.render();
    assert!(s.contains(" 1"));
    assert!(s.contains("-1"));
}

#[test]
fn render_writes_every_cell_in_two_characters_and_a_space() {
    let m = TernaryMatrix::from_vec(2, 2, vec![1, -1, 0, 1]);
    assert_eq!(m.render(), " 1 -1 \n 0  1 \n");
    let empty = TernaryMatrix::zeros(0, 3);
    assert_eq!(empty.render(), "");
    let blank_rows = TernaryMatrix::zeros(2, 0);
    assert_eq!(blank_rows.render(), "\n\n");
}

#[test]
fn zeros_has_its_shape_and_only_zeros() {
    let z = TernaryMatrix::zeros(2, 3);
    assert_eq!(z.rows(), 2);
    assert_eq!(z.cols(), 3);
    for r in 0..2 {
        for c in 0..3 {
            assert_eq!(z.get(r, c), 0);
        }
    }
    assert_eq!(z, TernaryMatrix::from_vec(2, 3, vec![0; 6]));
}

#[test]
fn from_vec_is_row_major() {
    let m = TernaryMatrix::from_vec(2, 3, vec![1, 0, -1, -1, 1, 0]);
    assert_eq!(m.rows(), 2);
    assert_eq!(m.cols(), 3);
    assert_eq!(m.get(0, 0), 1);
    assert_eq!(m.get(0, 2), -1);
    assert_eq!(m.get(1, 0), -1);
    assert_eq!(m.get(1, 1), 1);
    // a column past the end reads on into the next row
    assert_eq!(m.get(0, 3), -1);
}

#[test]
fn read_after_write() {
    let mut m = TernaryMatrix::zeros(3, 3);
    m.set(1, 2, -1);
    assert_eq!(m.get(1, 2), -1);
    for r in 0..3 {
        for c in 0..3 {
            if (r, c) != (1, 2) {
                assert_eq!(m.get(r, c), 0);
            }
        }
    }
    m.set(1, 2, 1);
    assert_eq!(m.get(1, 2), 1);
    assert_eq!(m.rows(), 3);
    assert_eq!(m.cols(), 3);
}

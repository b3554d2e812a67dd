use matrix::Matrix;

fn grid(rows: Vec<Vec<i32>>) -> Matrix<i32> {
    Matrix::from(rows)
}

fn contents(m: &Matrix<i32>) -> Vec<Vec<i32>> {
    let mut out = Vec::new();
    for i in 0..m.rows() {
        let mut row = Vec::new();
        for j in 0..m.cols() {
            row.push(*m.get(i, j));
        }
        out.push(row);
    }
    out
}

#[test]
fn new_has_shape_and_default_elements() {
    let m = Matrix::<i32>::new(3, 4);
    assert_eq!(m.size(), (3, 4));
    assert_eq!(m.rows(), 3);
    assert_eq!(m.cols(), 4);
    assert_eq!(contents(&m), vec![vec![0; 4]; 3]);
}

#[test]
fn new_with_zero_dimensions() {
    let m = Matrix::<i32>::new(0, 5);
    assert_eq!(m.size(), (0, 5));
    let e = Matrix::<String>::new(2, 0);
    assert_eq!(e.size(), (2, 0));
}

#[test]
fn new_strings_are_empty() {
    let m = Matrix::<String>::new(2, 2);
    assert_eq!(m.get(1, 1), "");
}

#[test]
fn set_then_get_changes_one_cell() {
    let mut m = grid(vec![vec![1, 2, 3], vec![4, 5, 6]]);
    m.set(1, 2, 60);
    assert_eq!(*m.get(1, 2), 60);
    assert_eq!(contents(&m), vec![vec![1, 2, 3], vec![4, 5, 60]]);
    m.set(0, 0, -1);
    assert_eq!(contents(&m), vec![vec![-1, 2, 3], vec![4, 5, 60]]);
}

#[test]
fn get_reads_row_major_position() {
    let m = grid(vec![vec![1, 2], vec![3, 4], vec![5, 6]]);
    assert_eq!(*m.get(0, 1), 2);
    assert_eq!(*m.get(2, 0), 5);
}

#[test]
fn transpose_swaps_shape_and_indices() {
    let m = grid(vec![vec![1, 2, 3], vec![4, 5, 6]]);
    let t = m.transpose();
    assert_eq!(t.size(), (3, 2));
    assert_eq!(contents(&t), vec![vec![1, 4], vec![2, 5], vec![3, 6]]);
    assert_eq!(contents(&m), vec![vec![1, 2, 3], vec![4, 5, 6]]);
}

#[test]
fn transpose_twice_gives_original() {
    let m = grid(vec![vec![1, 2, 3], vec![4, -5, 6], vec![7, 8, 9], vec![0, 1, 2]]);
    let tt = m.transpose().transpose();
    assert_eq!(tt.size(), m.size());
    assert_eq!(contents(&tt), contents(&m));
}

#[test]
fn transpose_of_empty() {
    let m = Matrix::<i32>::new(0, 3);
    assert_eq!(m.transpose().size(), (3, 0));
}

#[test]
fn from_ragged_pads_with_default() {
    let m = grid(vec![vec![1, 2, 3], vec![4, 5]]);
    assert_eq!(m.size(), (2, 3));
    assert_eq!(contents(&m), vec![vec![1, 2, 3], vec![4, 5, 0]]);
}

#[test]
fn from_longest_row_last() {
    let m = grid(vec![vec![], vec![1], vec![2, 3]]);
    assert_eq!(m.size(), (3, 2));
    assert_eq!(contents(&m), vec![vec![0, 0], vec![1, 0], vec![2, 3]]);
}

#[test]
fn from_empty_outer_is_zero_by_zero() {
    let m = grid(vec![]);
    assert_eq!(m.size(), (0, 0));
}

#[test]
fn from_empty_rows_has_no_columns() {
    let m = grid(vec![vec![], vec![]]);
    assert_eq!(m.size(), (2, 0));
}

#[test]
fn from_strings_pads_with_empty_string() {
    let m = Matrix::from(vec![vec!["a".to_string()], vec!["b".to_string(), "c".to_string()]]);
    assert_eq!(m.size(), (2, 2));
    assert_eq!(m.get(0, 1), "");
    assert_eq!(m.get(1, 1), "c");
}

use matrix::Matrix;

fn sample() -> Matrix<i32> {
    Matrix::from(vec![vec![1, 2, 3], vec![4, -100, 0], vec![7, 8, 9]])
}

fn contents(m: &Matrix<i32>) -> Vec<Vec<i32>> {
    let mut out = Vec::new();
    for i in 0..m.rows() {
        let mut row = Vec::new();
        for j in 0..m.cols() {
            row.push(*m.get(i, j));
        }
        out.push(row);
    }
    out
}

#[test]
fn row_walks_its_elements_then_ends() {
    let m = sample();
    let mut r = m.row(1);
    assert_eq!(r.next(), Some(&4));
    assert_eq!(r.next(), Some(&-100));
    assert_eq!(r.next(), Some(&0));
    assert_eq!(r.next(), None);
    assert_eq!(r.next(), None);
}

#[test]
fn row_index_reads_column() {
    let m = sample();
    let r = m.row(2);
    assert_eq!(*r.index(0), 7);
    assert_eq!(*r.index(2), 9);
}

#[test]
fn row_into_matrix_is_one_by_cols() {
    let m = sample();
    let r = m.row(1).into_matrix();
    assert_eq!(r.size(), (1, 3));
    assert_eq!(contents(&r), vec![vec![4, -100, 0]]);
}

#[test]
fn row_into_matrix_takes_what_is_left() {
    let m = sample();
    let mut row = m.row(0);
    row.next();
    let r = row.into_matrix();
    assert_eq!(contents(&r), vec![vec![2, 3]]);
}

#[test]
fn col_walks_its_elements_then_ends() {
    let m = sample();
    let mut c = m.col(1);
    assert_eq!(c.next(), Some(&2));
    assert_eq!(c.next(), Some(&-100));
    assert_eq!(c.next(), Some(&8));
    assert_eq!(c.next(), None);
    assert_eq!(*c.index(0), 2);
}

#[test]
fn col_into_matrix_is_rows_by_one() {
    let m = sample();
    let c = m.col(2).into_matrix();
    assert_eq!(c.size(), (3, 1));
    assert_eq!(contents(&c), vec![vec![3], vec![0], vec![9]]);
}

#[test]
fn diag_walks_the_diagonal() {
    let m = sample();
    let mut d = m.diag();
    assert_eq!(*d.index(1), -100);
    assert_eq!(d.next(), Some(&1));
    assert_eq!(d.next(), Some(&-100));
    assert_eq!(d.next(), Some(&9));
    assert_eq!(d.next(), None);
}

#[test]
fn diag_into_matrix_is_square_diagonal() {
    let m = sample();
    let d = m.diag().into_matrix();
    assert_eq!(d.size(), (3, 3));
    assert_eq!(contents(&d), vec![vec![1, 0, 0], vec![0, -100, 0], vec![0, 0, 9]]);
}

#[test]
fn diag_of_empty_matrix() {
    let m = Matrix::<i32>::new(0, 0);
    let mut d = m.diag();
    assert_eq!(d.next(), None);
    assert_eq!(m.diag().into_matrix().size(), (0, 0));
}

#[test]
fn iteration_is_row_major() {
    let m = Matrix::from(vec![vec![1, 2, 3], vec![4, 5, 6]]);
    let mut it = m.iter();
    let mut seen = Vec::new();
    while let Some(v) = it.next() {
        seen.push(*v);
    }
    assert_eq!(seen, vec![1, 2, 3, 4, 5, 6]);
    assert_eq!(it.next(), None);
}

#[test]
fn iteration_count_is_rows_times_cols() {
    let m = Matrix::<i32>::new(3, 5);
    let mut it = m.iter();
    let mut count = 0;
    while it.next().is_some() {
        count += 1;
    }
    assert_eq!(count, 15);
}

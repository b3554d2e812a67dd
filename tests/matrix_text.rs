use matrix::{render_table, Direction, Game, Matrix, SlideGame};

#[test]
fn display_aligns_columns() {
    let m = Matrix::from(vec![vec![1, 2, 3], vec![4, -100, 0], vec![7, 8, 9]]);
    let text = m.to_string();
    assert_eq!(text, "| 1     2  3 |\n| 4  -100  0 |\n| 7     8  9 |\n");
    let lines: Vec<&str> = text.lines().collect();
    assert_eq!(lines.len(), 3);
    for line in lines {
        assert!(line.starts_with('|'));
        assert!(line.ends_with('|'));
    }
}

#[test]
fn display_of_single_digits() {
    let m = Matrix::from(vec![vec![1, 2, 3], vec![4, 5, 6], vec![7, 8, 9]]);
    assert_eq!(m.to_string(), "| 1  2  3 |\n| 4  5  6 |\n| 7  8  9 |\n");
}

#[test]
fn display_of_empty_matrix() {
    assert_eq!(Matrix::<i32>::new(0, 3).to_string(), "");
    assert_eq!(Matrix::<i32>::new(2, 0).to_string(), "||\n||\n");
}

#[test]
fn render_table_of_texts() {
    let m = Matrix::from(vec![
        vec!["ab".to_string(), "c".to_string()],
        vec!["d".to_string()],
    ]);
    assert_eq!(render_table(&m), "| ab  c |\n|  d    |\n");
}

#[test]
fn render_table_counts_characters() {
    let m = Matrix::from(vec![vec!["é".to_string()], vec!["xy".to_string()]]);
    assert_eq!(render_table(&m), "|  é |\n| xy |\n");
}

#[test]
fn new_game_scores_zero() {
    let g = SlideGame::default();
    assert_eq!(g.score(), 0);
}

#[test]
fn slide_keeps_an_empty_board() {
    let g = SlideGame::default();
    let g = g.slide(Direction::Left);
    let g = g.slide(Direction::Up);
    let g = g.slide(Direction::Right);
    let g = g.slide(Direction::Down);
    assert_eq!(g.score(), 0);
}

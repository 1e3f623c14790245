use game_of_life::board::Board;

#[test]
fn text_of_a_board() {
    let board = Board::new(vec![
        vec![true, false, true],
        vec![false, false, false],
        vec![false, true, true],
    ]);
    assert_eq!(board.to_text(), "\u{25A0} \u{25A0}\n   \n \u{25A0}\u{25A0}\n");
}

#[test]
fn text_uses_a_filled_square_and_a_space() {
    assert_eq!(Board::new(vec![vec![true]]).to_text(), "■\n");
    assert_eq!(Board::new(vec![vec![false]]).to_text(), " \n");
}

#[test]
fn text_of_an_empty_board_is_empty() {
    assert_eq!(Board::new(Vec::new()).to_text(), "");
    assert_eq!(Board::default().to_text(), "");
}

#[test]
fn text_of_rows_without_columns_is_line_breaks() {
    assert_eq!(Board::new(vec![Vec::new(), Vec::new()]).to_text(), "\n\n");
}

#[test]
fn text_has_one_line_per_row() {
    let board = Board::new(vec![vec![false, true, false, false]; 5]);
    let text = board.to_text();
    let lines: Vec<&str> = text.lines().collect();
    assert_eq!(lines, vec![" ■  "; 5]);
    assert!(text.ends_with('\n'));
}

#[test]
fn text_of_a_ragged_grid_follows_its_rows() {
    let board = Board::new(vec![vec![true, true], vec![false], vec![true, false, true]]);
    assert_eq!(board.to_text(), "■■\n \n■ ■\n");
}

#[test]
fn text_after_an_update() {
    let mut cells = vec![vec![false; 5]; 5];
    cells[2][1] = true;
    cells[2][2] = true;
    cells[2][3] = true;
    let board = Board::new(cells).update();
    assert_eq!(board.to_text(), "     \n  ■  \n  ■  \n  ■  \n     \n");
}

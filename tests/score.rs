use dg_go::{Board, Color, Point, Score, StoneStatus};

#[test]
fn score_black() {
    let mut board = Board::new();
    board.place(Color::Black, Point::new(0, 0));

    assert!(!board.is_scorable());
    assert_eq!(board.get_score(), (361, 0));
}

#[test]
fn score_white() {
    let mut board = Board::new();
    board.place(Color::White, Point::new(0, 0));

    assert!(!board.is_scorable());
    assert_eq!(board.get_score(), (0, 361));
}

#[test]
fn score_black_white() {
    let mut board = Board::new();
    board.place(Color::White, Point::new(1, 0));
    board.place(Color::White, Point::new(0, 1));
    board.place(Color::White, Point::new(1, 1));
    board.place(Color::White, Point::new(1, 2));
    board.place(Color::White, Point::new(0, 3));
    board.place(Color::White, Point::new(1, 3));
    board.place(Color::Black, Point::new(2, 0));
    board.place(Color::Black, Point::new(2, 1));
    board.place(Color::Black, Point::new(2, 2));
    board.place(Color::Black, Point::new(2, 3));
    board.place(Color::Black, Point::new(0, 4));
    board.place(Color::Black, Point::new(1, 4));
    board.place(Color::Black, Point::new(2, 4));

    assert!(board.is_scorable());
    assert_eq!(board.get_score(), (353, 8));
}

#[test]
fn empty_board_scores_nothing() {
    let board = Board::new();
    assert_eq!(board.get_score(), (0, 0));
    assert!(!board.is_scorable());
}

#[test]
fn only_black_stones_take_the_whole_board() {
    let mut board = Board::new();
    board.place(Color::Black, Point::new(3, 3));
    board.place(Color::Black, Point::new(15, 15));
    board.place(Color::Black, Point::new(9, 4));
    assert_eq!(board.get_score(), (361, 0));
}

#[test]
fn territory_of_an_empty_board_is_everything() {
    let board = Board::new();
    let territory = board.get_scorable_territory();
    assert_eq!(territory.len(), 361);
    assert_eq!(territory[0], Point::new(0, 0));
    assert_eq!(territory[360], Point::new(18, 18));
}

#[test]
fn territory_excludes_dame() {
    let mut board = Board::new();
    board.place(Color::Black, Point::new(3, 3));
    board.place(Color::White, Point::new(15, 15));
    let territory = board.get_scorable_territory();
    assert!(territory.len() <= 361);
    // both colours reach every empty vertex, so only the two stones remain
    assert_eq!(territory, vec![Point::new(3, 3), Point::new(15, 15)]);
    assert!(!board.is_scorable());
}

#[test]
fn territory_of_scorable_board() {
    let mut board = Board::new();
    board.place(Color::White, Point::new(1, 0));
    board.place(Color::White, Point::new(0, 1));
    board.place(Color::White, Point::new(1, 1));
    board.place(Color::White, Point::new(1, 2));
    board.place(Color::White, Point::new(0, 3));
    board.place(Color::White, Point::new(1, 3));
    board.place(Color::Black, Point::new(2, 0));
    board.place(Color::Black, Point::new(2, 1));
    board.place(Color::Black, Point::new(2, 2));
    board.place(Color::Black, Point::new(2, 3));
    board.place(Color::Black, Point::new(0, 4));
    board.place(Color::Black, Point::new(1, 4));
    board.place(Color::Black, Point::new(2, 4));
    assert_eq!(board.get_scorable_territory().len(), 361);
}

#[test]
fn guess_score_removes_dead_stones() {
    // a lone white stone deep in black's area is dead in the finished game
    let mut live = Board::new();
    live.place(Color::Black, Point::new(3, 3));
    live.place(Color::White, Point::new(10, 10));
    let mut finished = Board::new();
    finished.place(Color::Black, Point::new(3, 3));
    finished.place(Color::Black, Point::new(10, 10));
    assert_eq!(live.get_guess_score(&finished), (361, 0));
}

#[test]
fn guess_score_keeps_agreed_stones() {
    let mut live = Board::new();
    live.place(Color::Black, Point::new(3, 3));
    live.place(Color::White, Point::new(15, 15));
    let finished = live_copy(&live);
    assert_eq!(live.get_guess_score(&finished), (1, 1));
}

fn live_copy(board: &Board) -> Board {
    Board { inner: board.inner.clone(), zobrist_hash: board.zobrist_hash }
}

#[test]
fn stone_status_reports_labels() {
    let mut live = Board::new();
    live.place(Color::Black, Point::new(3, 3));
    live.place(Color::White, Point::new(10, 10));
    let mut finished = Board::new();
    finished.place(Color::Black, Point::new(3, 3));
    finished.place(Color::Black, Point::new(10, 10));
    let status = live.get_stone_status(&finished);
    assert_eq!(status.len(), 361);
    let at = |p: Point| status.iter().find(|(q, _)| *q == p).map(|(_, l)| l.clone());
    assert_eq!(at(Point::new(3, 3)), Some(vec![StoneStatus::Alive, StoneStatus::BlackTerritory]));
    assert_eq!(at(Point::new(10, 10)), Some(vec![StoneStatus::Dead, StoneStatus::BlackTerritory]));
    assert_eq!(at(Point::new(0, 0)), Some(vec![StoneStatus::BlackTerritory]));
}

#[test]
fn stone_status_parses_tokens() {
    assert_eq!("alive".parse::<StoneStatus>(), Ok(StoneStatus::Alive));
    assert_eq!("DEAD".parse::<StoneStatus>(), Ok(StoneStatus::Dead));
    assert_eq!("Seki".parse::<StoneStatus>(), Ok(StoneStatus::Seki));
    assert_eq!("Black_Territory".parse::<StoneStatus>(), Ok(StoneStatus::BlackTerritory));
    assert_eq!("white_territory".parse::<StoneStatus>(), Ok(StoneStatus::WhiteTerritory));
    assert_eq!("territory".parse::<StoneStatus>(), Err(()));
    assert_eq!(StoneStatus::parse(""), Err(()));
}

#[test]
fn guess_score_removes_unreached_stone_missing_from_finished() {
    let mut live = Board::new();
    live.place(Color::White, Point::new(0, 0));
    let finished = Board::new();
    // the cleaned board is empty, and an empty board is all black area
    assert_eq!(live.get_guess_score(&finished), (361, 0));

    let mut live = Board::new();
    live.place(Color::White, Point::new(0, 0));
    live.place(Color::Black, Point::new(9, 9));
    let mut finished = Board::new();
    finished.place(Color::Black, Point::new(9, 9));
    assert_eq!(live.get_guess_score(&finished), (361, 0));
}

#[test]
fn stone_status_marks_every_missing_stone_dead() {
    let mut live = Board::new();
    live.place(Color::White, Point::new(0, 0));
    let finished = Board::new();
    let status = live.get_stone_status(&finished);
    assert_eq!(status, vec![(Point::new(0, 0), vec![StoneStatus::Dead, StoneStatus::BlackTerritory])]);
}

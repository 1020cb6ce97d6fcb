use dg_go::board_fast::BoardFast;
use dg_go::vertex::{EMPTY, INVALID};
use dg_go::zobrist;
use dg_go::{Color, Point};

fn from_scratch_hash(board: &BoardFast) -> u64 {
    let mut hash = 0;
    for p in Point::all() {
        if let Some(c) = board.vertices[p.to_i()].color() {
            hash ^= zobrist::value(c, p.to_i());
        }
    }
    hash
}

fn neighbours(p: usize) -> Vec<usize> {
    vec![p - 21, p + 1, p + 21, p - 1]
}

/// Checks the chain, head and liberty invariants of every stone.
fn check_invariants(board: &BoardFast) {
    for p in Point::all() {
        let i = p.to_i();
        let v = board.vertices[i];
        if v.state == EMPTY {
            continue;
        }
        let head = v.head as usize;
        assert_eq!(board.vertices[head].head as usize, head, "head of head at {}", i);

        let mut members = vec![i];
        let mut cur = v.next as usize;
        while cur != i {
            assert!(members.len() <= 361, "chain through {} does not close", i);
            assert!(!members.contains(&cur), "chain through {} repeats {}", i, cur);
            members.push(cur);
            cur = board.vertices[cur].next as usize;
        }
        for &m in &members {
            assert_eq!(board.vertices[m].state, v.state);
            assert_eq!(board.vertices[m].head as usize, head);
        }
        let same_head: Vec<usize> = (0..441)
            .filter(|&j| board.vertices[j].state == v.state && board.vertices[j].head as usize == head)
            .collect();
        assert_eq!(same_head.len(), members.len());

        let mut liberties: Vec<usize> = Vec::new();
        for &m in &members {
            for n in neighbours(m) {
                if board.vertices[n].state == EMPTY && !liberties.contains(&n) {
                    liberties.push(n);
                }
            }
        }
        assert_eq!(board.vertices[head].libs as usize, liberties.len(), "liberties of chain at {}", i);
        assert!(board.vertices[head].libs > 0);
        assert!(board.get_n_liberty(p) > 0);
    }
    for i in 0..441 {
        assert_eq!(board.vertices[i].state == INVALID, !Point::playable(i));
    }
}

/// Plays `moves` pseudo-random legal moves, checking every law after each.
fn random_game(seed: u64, moves: usize) {
    let mut board = BoardFast::new();
    let mut state = seed;
    let mut color = Color::Black;
    let mut played = 0;
    let mut attempts = 0;
    while played < moves && attempts < moves * 50 {
        attempts += 1;
        state = state.wrapping_mul(6364136223846793005).wrapping_add(1442695040888963407);
        let k = ((state >> 33) % 361) as usize;
        let p = Point::nth(k);
        if !board.is_valid(color, p) {
            continue;
        }
        let before = from_scratch_hash(&board);
        let preview = board.place_if(color, p);
        let delta = board.place(color, p);
        assert_eq!(delta, preview);
        assert_eq!(delta, before ^ from_scratch_hash(&board));
        check_invariants(&board);
        color = color.opposite();
        played += 1;
    }
    assert_eq!(played, moves);
}

#[test]
fn invariants_hold_over_random_games() {
    random_game(1, 300);
    random_game(7, 300);
    random_game(2024, 300);
}

#[test]
fn capture_matches_preview() {
    let mut board = BoardFast::new();
    board.place(Color::Black, Point::new(4, 4));
    board.place(Color::Black, Point::new(5, 4));
    board.place(Color::Black, Point::new(6, 4));
    let preview = board.capture_if(Color::Black, Point::new(5, 4));
    let mut copy = board.clone();
    let delta = copy.capture(Color::Black, Point::new(5, 4));
    assert_eq!(delta, preview);
    assert_eq!(
        delta,
        zobrist::value(Color::Black, Point::new(4, 4).to_i())
            ^ zobrist::value(Color::Black, Point::new(5, 4).to_i())
            ^ zobrist::value(Color::Black, Point::new(6, 4).to_i())
    );
    for x in 4..7 {
        assert_eq!(copy.vertices[Point::new(x, 4).to_i()].color(), None);
    }
}

#[test]
fn new_board_is_empty() {
    let board = BoardFast::new();
    for p in Point::all() {
        assert_eq!(board.vertices[p.to_i()].color(), None);
        assert!(board.is_part_of(p));
    }
    assert!(!board.is_part_of(Point::default()));
    assert_eq!(Point::all().len(), 361);
}

#[test]
fn adjacency_skips_padding() {
    let board = BoardFast::new();
    assert_eq!(board.adjacent_to(Point::new(0, 0)), vec![Point::new(1, 0), Point::new(0, 1)]);
    assert_eq!(
        board.adjacent_to(Point::new(5, 5)),
        vec![Point::new(5, 4), Point::new(6, 5), Point::new(5, 6), Point::new(4, 5)]
    );
}

#[test]
fn joined_block_is_listed_and_counted() {
    let mut board = BoardFast::new();
    board.place(Color::White, Point::new(0, 0));
    board.place(Color::White, Point::new(1, 0));
    board.place(Color::White, Point::new(0, 1));
    let block = board.block_at(Point::new(0, 0));
    let mut members: Vec<Point> = block.points().clone();
    members.sort_by_key(|p| p.to_i());
    assert_eq!(members, vec![Point::new(0, 0), Point::new(1, 0), Point::new(0, 1)]);
    assert_eq!(board.get_n_liberty(Point::new(1, 0)), 3);
    assert!(board.has_n_liberty(Point::new(0, 1), 3));
    assert!(!board.has_n_liberty(Point::new(0, 1), 4));
    let liberty = board.get_a_liberty(Point::new(0, 0)).unwrap();
    assert!([Point::new(2, 0), Point::new(1, 1), Point::new(0, 2)].contains(&liberty));
    check_invariants(&board);
}

#[test]
fn single_stone_capture_in_ko_shape() {
    let mut board = BoardFast::new();
    board.place(Color::Black, Point::new(1, 0));
    board.place(Color::Black, Point::new(0, 1));
    board.place(Color::Black, Point::new(2, 1));
    board.place(Color::Black, Point::new(1, 2));
    board.place(Color::White, Point::new(2, 0));
    board.place(Color::White, Point::new(3, 1));
    board.place(Color::White, Point::new(2, 2));
    assert_eq!(board.get_n_liberty(Point::new(2, 1)), 1);

    assert!(board.is_valid(Color::White, Point::new(1, 1)));
    let preview = board.place_if(Color::White, Point::new(1, 1));
    let delta = board.place(Color::White, Point::new(1, 1));
    assert_eq!(
        delta,
        zobrist::value(Color::White, Point::new(1, 1).to_i()) ^ zobrist::value(Color::Black, Point::new(2, 1).to_i())
    );
    assert_eq!(delta, preview);
    assert_eq!(board.vertices[Point::new(2, 1).to_i()].color(), None);
    assert_eq!(board.vertices[Point::new(1, 0).to_i()].color(), Some(Color::Black));
    assert_eq!(board.vertices[Point::new(0, 1).to_i()].color(), Some(Color::Black));
    assert_eq!(board.vertices[Point::new(1, 2).to_i()].color(), Some(Color::Black));
    assert_eq!(board.get_n_liberty(Point::new(1, 1)), 1);
    check_invariants(&board);
}

#[test]
fn suicide_is_invalid() {
    let mut board = BoardFast::new();
    board.place(Color::Black, Point::new(1, 0));
    board.place(Color::Black, Point::new(0, 1));
    assert!(!board.is_valid(Color::White, Point::new(0, 0)));
    assert!(board.is_valid(Color::Black, Point::new(0, 0)));

    board.place(Color::Black, Point::new(5, 4));
    board.place(Color::Black, Point::new(6, 5));
    board.place(Color::Black, Point::new(5, 6));
    board.place(Color::Black, Point::new(4, 5));
    assert!(!board.is_valid(Color::White, Point::new(5, 5)));
    assert!(!board.is_valid(Color::White, Point::new(5, 4)));
}

#[test]
fn capture_avoids_suicide() {
    let mut board = BoardFast::new();
    board.place(Color::White, Point::new(1, 0));
    board.place(Color::White, Point::new(0, 1));
    board.place(Color::Black, Point::new(2, 0));
    board.place(Color::Black, Point::new(1, 1));
    board.place(Color::Black, Point::new(0, 2));
    assert!(!board.is_valid(Color::White, Point::new(0, 0)));
    assert!(board.is_valid(Color::Black, Point::new(0, 0)));

    let delta = board.place(Color::Black, Point::new(0, 0));
    assert_eq!(
        delta,
        zobrist::value(Color::Black, Point::new(0, 0).to_i())
            ^ zobrist::value(Color::White, Point::new(1, 0).to_i())
            ^ zobrist::value(Color::White, Point::new(0, 1).to_i())
    );
    assert_eq!(board.vertices[Point::new(1, 0).to_i()].color(), None);
    assert_eq!(board.vertices[Point::new(0, 1).to_i()].color(), None);
    check_invariants(&board);
}

#[test]
fn zobrist_values_differ() {
    let a = zobrist::value(Color::Black, 22);
    let b = zobrist::value(Color::White, 22);
    let c = zobrist::value(Color::Black, 23);
    assert_ne!(a, b);
    assert_ne!(a, c);
    assert_ne!(a, 0);
}

use vstd::prelude::*;
use crate::board_fast::{is_stone, nb, BoardFast};
use crate::color::Color;
use crate::point::{is_playable, nth_point};
use crate::score::{
    area_upto, counts_black, counts_white, has_stones, is_distance_map, passable, scorable, some_stone_of, tt_area,
};
use crate::vertex::EMPTY;

verus! {

/// Every playable vertex is the `k`-th playable intersection for some `k`.
pub proof fn lemma_playable_is_nth(i: int)
    requires
        is_playable(i),
    ensures
        0 <= (i / 21 - 1) * 19 + (i % 21 - 1) < 361,
        nth_point((i / 21 - 1) * 19 + (i % 21 - 1)) == i,
{
}

/// An empty vertex that a distance map of colour `c` marks as reached
/// proves that a stone of colour `c` is on the board.
pub proof fn lemma_reached_has_source(board: BoardFast, c: Color, d: Seq<u8>, i: int)
    requires
        board.wf(),
        is_distance_map(board.vertices@, c, d),
        0 <= i < 441,
        board.vertices@[i].state == EMPTY,
        d[i] != 255,
    ensures
        some_stone_of(board.vertices@, c),
    decreases d[i],
{
    let b = board.vertices@;
    assert(b[i] == board.vertices@[i]);
    assert(is_playable(i));
    let k = choose|k: int| 0 <= k < 4 && #[trigger] d[nb(i, k)] < d[i];
    let j = nb(i, k);
    assert(0 <= j < 441);
    if d[j] == 0 {
        assert(b[j].has(c));
        assert(is_playable(j));
        lemma_playable_is_nth(j);
        let m = (j / 21 - 1) * 19 + (j % 21 - 1);
        assert(b[nth_point(m)].has(c));
    } else {
        assert(passable(b[j], c));
        assert(!b[j].has(c));
        lemma_reached_has_source(board, c, d, j);
    }
}

/// An empty board has no stones and cannot be scored, so its score is
/// `(0, 0)` and it is not scorable.
pub proof fn law_empty_board_scores_nothing(board: BoardFast, bd: Seq<u8>, wd: Seq<u8>)
    requires
        board.wf(),
        forall|i: int| is_playable(i) ==> (#[trigger] board.vertices@[i]).state == EMPTY,
    ensures
        !has_stones(board.vertices@),
        !scorable(board, bd, wd),
{
    assert forall|k: int| 0 <= k < 361 implies !is_stone(#[trigger] board.vertices@[nth_point(k)]) by {
        assert(is_playable(nth_point(k)));
    }
    assert forall|k: int| 0 <= k < 361 implies !(#[trigger] board.vertices@[nth_point(k)]).has(Color::Black) by {
        assert(is_playable(nth_point(k)));
    }
}

proof fn lemma_area_all_black(bd: Seq<u8>, wd: Seq<u8>, n: int)
    requires
        0 <= n <= 361,
        forall|k: int| 0 <= k < 361 ==> counts_black(bd, wd, #[trigger] nth_point(k)) && !counts_white(bd, wd, nth_point(k)),
    ensures
        area_upto(bd, wd, n, true) == n,
        area_upto(bd, wd, n, false) == 0,
    decreases n,
{
    if n > 0 {
        lemma_area_all_black(bd, wd, n - 1);
        assert(counts_black(bd, wd, nth_point(n - 1)));
    }
}

/// On a board without white stones, every intersection is black's area:
/// the Tromp-Taylor area is `(361, 0)`.
pub proof fn law_black_only_board_is_black_area(board: BoardFast, bd: Seq<u8>, wd: Seq<u8>)
    requires
        board.wf(),
        is_distance_map(board.vertices@, Color::Black, bd),
        is_distance_map(board.vertices@, Color::White, wd),
        !some_stone_of(board.vertices@, Color::White),
    ensures
        tt_area(bd, wd) == (361int, 0int),
{
    let b = board.vertices@;
    assert forall|k: int| 0 <= k < 361 implies counts_black(bd, wd, #[trigger] nth_point(k)) && !counts_white(bd, wd, nth_point(k)) by {
        let i = nth_point(k);
        assert(is_playable(i));
        assert(!b[i].has(Color::White));
        if b[i].state == EMPTY && wd[i] != 255 {
            lemma_reached_has_source(board, Color::White, wd, i);
        }
        assert(wd[i] == 255);
    }
    lemma_area_all_black(bd, wd, 361);
}

proof fn lemma_distance_map_below(board: BoardFast, c: Color, d1: Seq<u8>, d2: Seq<u8>, i: int)
    requires
        board.wf(),
        is_distance_map(board.vertices@, c, d1),
        is_distance_map(board.vertices@, c, d2),
        0 <= i < 441,
    ensures
        d1[i] <= d2[i],
    decreases d2[i],
{
    let b = board.vertices@;
    if d2[i] == 0 {
        assert(b[i].has(c));
        assert(d1[i] == 0);
    } else if d2[i] != 255 {
        assert(passable(b[i], c));
        assert(b[i].state == EMPTY);
        let k = choose|k: int| 0 <= k < 4 && #[trigger] d2[nb(i, k)] < d2[i];
        let j = nb(i, k);
        assert(is_playable(i));
        assert(0 <= j < 441);
        lemma_distance_map_below(board, c, d1, d2, j);
        assert(passable(b[j], c));
        assert(nb(j, (k + 2) % 4) == i);
        assert(d1[nb(j, (k + 2) % 4)] <= d1[j] + 1);
    }
}

/// A board and a colour determine their distance map: any two maps that
/// satisfy its description are equal, so every score stated over one is a
/// function of the position.
pub proof fn law_distance_map_is_unique(board: BoardFast, c: Color, d1: Seq<u8>, d2: Seq<u8>)
    requires
        board.wf(),
        is_distance_map(board.vertices@, c, d1),
        is_distance_map(board.vertices@, c, d2),
    ensures
        d1 == d2,
{
    assert forall|i: int| 0 <= i < 441 implies d1[i] == d2[i] by {
        lemma_distance_map_below(board, c, d1, d2, i);
        lemma_distance_map_below(board, c, d2, d1, i);
    }
    assert(d1 =~= d2);
}

} // verus!

use vstd::prelude::*;
use crate::board_fast::{place_upto, BoardFast};
use crate::color::Color;
use crate::point::{is_playable, Point};
use crate::score::{
    any_stone, clean_board, get_territory_distance, get_tt_score, is_scorable_from, scorable_territory_from,
    stone_status_from, Score, StoneStatus,
};
use crate::vertex::{code_of, EMPTY};

verus! {

/// A game position: the fast board and the Zobrist hash of its stones.
pub struct Board {
    pub inner: BoardFast,
    pub zobrist_hash: u64,
}

impl Board {
    /// Returns an empty position.
    pub fn new() -> (r: Board)
        ensures
            r.inner.wf(),
            r.zobrist_hash == 0,
            forall|i: int| is_playable(i) ==> (#[trigger] r.inner.vertices@[i]).state == EMPTY,
    {
        Board { inner: BoardFast::new(), zobrist_hash: 0 }
    }

    /// Returns whether a stone of colour `color` may be placed at `at_point`.
    pub fn is_valid(&self, color: Color, at_point: Point) -> (r: bool)
        requires
            self.inner.wf(),
            is_playable(at_point.index as int),
        ensures
            r == self.inner.is_legal(color, at_point.index as int),
    {
        self.inner.is_valid(color, at_point)
    }

    /// Places a stone of colour `color` at `at_point` and folds the move's
    /// Zobrist delta into the hash.
    pub fn place(&mut self, color: Color, at_point: Point)
        requires
            old(self).inner.wf(),
            is_playable(at_point.index as int),
            old(self).inner.is_legal(color, at_point.index as int),
        ensures
            final(self).inner.wf(),
            final(self).inner.vertices@[at_point.index as int].state == code_of(color),
            forall|i: int|
                0 <= i < 441 && i != at_point.index ==> (#[trigger] final(self).inner.vertices@[i]).state
                    == old(self).inner.vertices@[i].state || (old(self).inner.vertices@[i].has(color.opposite_spec())
                    && final(self).inner.vertices@[i].state == EMPTY),
            final(self).inner.vertices@ == place_upto(old(self).inner.vertices@, color, at_point.index as int, 4).0,
            final(self).zobrist_hash == old(self).zobrist_hash ^ place_upto(
                old(self).inner.vertices@,
                color,
                at_point.index as int,
                4,
            ).2,
    {
        let delta = self.inner.place(color, at_point);
        self.zobrist_hash = self.zobrist_hash ^ delta;
    }
}

impl Score for Board {
    open spec fn position(&self) -> BoardFast {
        self.inner
    }

    fn is_scorable(&self) -> (r: bool) {
        let black_distance = get_territory_distance(&self.inner, Color::Black);
        let white_distance = get_territory_distance(&self.inner, Color::White);
        is_scorable_from(&self.inner, &black_distance, &white_distance)
    }

    fn get_scorable_territory(&self) -> (r: Vec<Point>) {
        let black_distance = get_territory_distance(&self.inner, Color::Black);
        let white_distance = get_territory_distance(&self.inner, Color::White);
        scorable_territory_from(&black_distance, &white_distance)
    }

    fn get_score(&self) -> (r: (usize, usize)) {
        if any_stone(&self.inner) {
            get_tt_score(&self.inner)
        } else {
            (0, 0)
        }
    }

    fn get_guess_score(&self, finished: &Board) -> (r: (usize, usize)) {
        let other = clean_board(&self.inner, &finished.inner);
        get_tt_score(&other)
    }

    fn get_stone_status(&self, finished: &Board) -> (r: Vec<(Point, Vec<StoneStatus>)>) {
        let black_distance = get_territory_distance(&finished.inner, Color::Black);
        let white_distance = get_territory_distance(&finished.inner, Color::White);
        stone_status_from(&self.inner, &finished.inner, &black_distance, &white_distance)
    }
}

} // verus!

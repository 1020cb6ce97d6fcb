use vstd::prelude::*;
use crate::board_fast::{is_stone, nb, neighbor, BoardFast};
use crate::color::Color;
use crate::point::{is_playable, nth_point, Point};
use crate::vertex::{Vertex, EMPTY, INVALID};

verus! {

/// Whether a flood from stones of colour `c` may enter vertex `v`.
pub open spec fn passable(v: Vertex, c: Color) -> bool {
    v.state == EMPTY || v.has(c)
}

/// Sum of the entries of `s`.
pub open spec fn total(s: Seq<u8>) -> int
    decreases s.len(),
{
    if s.len() == 0 {
        0
    } else {
        total(s.drop_last()) + s.last()
    }
}

pub proof fn lemma_total_update(s: Seq<u8>, i: int, v: u8)
    requires
        0 <= i < s.len(),
    ensures
        total(s.update(i, v)) == total(s) - s[i] + v,
        total(s) >= 0,
    decreases s.len(),
{
    if i == s.len() - 1 {
        assert(s.update(i, v).drop_last() =~= s.drop_last());
        lemma_total_nonneg(s.drop_last());
    } else {
        assert(s.update(i, v).drop_last() =~= s.drop_last().update(i, v));
        lemma_total_update(s.drop_last(), i, v);
    }
}

pub proof fn lemma_total_nonneg(s: Seq<u8>)
    ensures
        total(s) >= 0,
    decreases s.len(),
{
    if s.len() > 0 {
        lemma_total_nonneg(s.drop_last());
    }
}

/// `d` is a distance map of colour `c` on the vertices `b`: it is zero on
/// exactly the stones of colour `c`, 255 (unreachable) on every vertex that
/// is neither empty nor of colour `c`, every empty vertex that it marks as
/// reached has a neighbour that it marks as closer, and no empty neighbour
/// of a reached vertex is more than one step further. Short of the cap at
/// 255, this is the length of a shortest path through empty vertices from a
/// stone of colour `c`.
pub open spec fn is_distance_map(b: Seq<Vertex>, c: Color, d: Seq<u8>) -> bool {
    &&& d.len() == 441
    &&& forall|i: int| 0 <= i < 441 ==> ((d[i] == 0) == (#[trigger] b[i]).has(c))
    &&& forall|i: int| 0 <= i < 441 && !passable(#[trigger] b[i], c) ==> d[i] == 255
    &&& descends(b, d)
    &&& forall|i: int, k: int|
        0 <= i < 441 && 0 <= k < 4 && passable(b[i], c) && d[i] < 255 && (#[trigger] b[nb(i, k)]).state
            == EMPTY ==> #[trigger] d[nb(i, k)] <= d[i] + 1
}

/// Every empty vertex that `d` marks as reached has a neighbour closer to
/// the source.
pub open spec fn descends(b: Seq<Vertex>, d: Seq<u8>) -> bool {
    forall|i: int|
        0 <= i < 441 && (#[trigger] b[i]).state == EMPTY && d[i] != 255 ==> exists|k: int|
            0 <= k < 4 && #[trigger] d[nb(i, k)] < d[i]
}

/// Returns, for every vertex, the distance to the nearest stone of colour
/// `color` along empty vertices; stones of the other colour are walls.
#[verifier::rlimit(100)]
pub fn get_territory_distance(board: &BoardFast, color: Color) -> (r: Vec<u8>)
    requires
        board.wf(),
    ensures
        is_distance_map(board.vertices@, color, r@),
{
    let ghost b = board.vertices@;
    let mut territory: Vec<u8> = vec![255u8; 441];
    let mut probes: Vec<usize> = Vec::new();
    let mut p: usize = 0;
    while p < 441
        invariant
            board.wf(),
            b == board.vertices@,
            p <= 441,
            territory@.len() == 441,
            forall|i: int| 0 <= i < 441 ==> #[trigger] territory@[i] == if i < p && b[i].has(color) { 0u8 } else { 255u8 },
            forall|j: int| 0 <= j < probes@.len() ==> is_playable(#[trigger] probes@[j] as int) && b[probes@[j] as int].has(color)
                && probes@[j] < p,
            forall|i: int| 0 <= i < p && #[trigger] b[i].has(color) ==> pending(probes@, 0, i),
        decreases 441 - p,
    {
        if board.vertices[p].is(color) {
            territory[p] = 0;
            let ghost before = probes@;
            probes.push(p);
            proof {
                assert(probes@ == before.push(p));
                assert(probes@[before.len() as int] == p);
                reveal(pending);
                assert forall|i: int| 0 <= i < p + 1 && #[trigger] b[i].has(color) implies pending(probes@, 0, i) by {
                    if i < p {
                        let j = choose|j: int| 0 <= j < before.len() && before[j] == i;
                        assert(probes@[j] == i);
                    }
                }
            }
        }
        p += 1;
    }
    proof {
        assert forall|i: int|
            0 <= i < 441 && (#[trigger] b[i]).state == EMPTY && territory@[i] != 255 implies exists|k: int|
                0 <= k < 4 && #[trigger] territory@[nb(i, k)] < territory@[i] by {
            assert(territory@[i] == 255);
        }
    }
    proof {
        reveal(flood_state);
    }
    let mut head: usize = 0;
    while head < probes.len()
        invariant
            board.wf(),
            b == board.vertices@,
            head <= probes@.len(),
            flood_state(b, color, territory@, probes@, head as int),
            forall|i: int|
                #![trigger relaxed(b, territory@, i)]
                0 <= i < 441 && passable(b[i], color) && territory@[i] < 255 && !pending(probes@, head as int, i)
                    ==> relaxed(b, territory@, i),
        decreases 2 * total(territory@) + (probes@.len() - head),
    {
        let index = probes[head];
        let ghost old_head = head;
        head += 1;
        proof {
            reveal(flood_state);
            assert(is_playable(index as int) && passable(b[index as int], color) && territory@[index as int] < 255);
            assert(flood_state(b, color, territory@, probes@, head as int));
            lemma_total_nonneg(territory@);
            assert forall|i: int|
                #![trigger relaxed(b, territory@, i)]
                0 <= i < 441 && i != index && passable(b[i], color) && territory@[i] < 255
                    && !pending(probes@, head as int, i) implies relaxed(b, territory@, i) by {
                reveal(pending);
                if pending(probes@, old_head as int, i) {
                    let j = choose|j: int| old_head <= j < probes@.len() && probes@[j] == i;
                    assert(j != old_head);
                    assert(pending(probes@, head as int, i));
                }
            }
        }
        relax_from(board, color, &mut territory, &mut probes, head, index);
        proof {
            lemma_total_nonneg(territory@);
        }
    }
    proof {
        reveal(flood_state);
        assert forall|i: int, k: int|
            0 <= i < 441 && 0 <= k < 4 && passable(b[i], color) && territory@[i] < 255
                && (#[trigger] b[nb(i, k)]).state == EMPTY implies #[trigger] territory@[nb(i, k)] <= territory@[i] + 1 by {
            reveal(pending);
            assert(!pending(probes@, head as int, i));
            assert(relaxed(b, territory@, i));
            reveal(relaxed);
        }
    }
    territory
}

/// Whether `i` waits in `probes` at or after position `head`.
#[verifier::opaque]
pub open spec fn pending(probes: Seq<usize>, head: int, i: int) -> bool {
    exists|j: int| head <= j < probes.len() && probes[j] == i
}

/// Every empty neighbour of `i` is at most one step further than `i`.
#[verifier::opaque]
pub open spec fn relaxed(b: Seq<Vertex>, d: Seq<u8>, i: int) -> bool {
    forall|k: int| 0 <= k < 4 && (#[trigger] b[nb(i, k)]).state == EMPTY ==> d[nb(i, k)] <= d[i] + 1
}

#[verifier::opaque]
/// The state of the flood between two steps: the queue from `head` on
/// holds playable vertices that the flood may enter, all marked reached,
/// and the map is zero on exactly the source stones, unreachable on walls,
/// and every reached empty vertex has a closer neighbour.
pub open spec fn flood_state(b: Seq<Vertex>, c: Color, d: Seq<u8>, probes: Seq<usize>, head: int) -> bool {
    &&& d.len() == 441
    &&& 0 <= head <= probes.len()
    &&& forall|j: int|
        0 <= j < probes.len() ==> is_playable(#[trigger] probes[j] as int) && passable(b[probes[j] as int], c)
            && d[probes[j] as int] < 255
    &&& forall|i: int| 0 <= i < 441 ==> ((#[trigger] d[i] == 0) == b[i].has(c))
    &&& forall|i: int| 0 <= i < 441 && !passable(#[trigger] b[i], c) ==> d[i] == 255
    &&& descends(b, d)
}

/// Lowers the distance of every empty neighbour of `index` that is more
/// than one step further than `index`, queueing each one lowered.
#[verifier::rlimit(60)]
fn relax_from(board: &BoardFast, color: Color, territory: &mut Vec<u8>, probes: &mut Vec<usize>, head: usize, index: usize)
    requires
        board.wf(),
        flood_state(board.vertices@, color, old(territory)@, old(probes)@, head as int),
        is_playable(index as int),
        passable(board.vertices@[index as int], color),
        old(territory)@[index as int] < 255,
        forall|i: int|
            #![trigger relaxed(board.vertices@, old(territory)@, i)]
            0 <= i < 441 && i != index && passable(board.vertices@[i], color) && old(territory)@[i] < 255
                && !pending(old(probes)@, head as int, i) ==> relaxed(board.vertices@, old(territory)@, i),
    ensures
        flood_state(board.vertices@, color, final(territory)@, final(probes)@, head as int),
        forall|i: int|
            #![trigger relaxed(board.vertices@, final(territory)@, i)]
            0 <= i < 441 && passable(board.vertices@[i], color) && final(territory)@[i] < 255
                && !pending(final(probes)@, head as int, i) ==> relaxed(board.vertices@, final(territory)@, i),
        2 * total(final(territory)@) + final(probes)@.len() <= 2 * total(old(territory)@) + old(probes)@.len(),
        final(probes)@.len() >= old(probes)@.len(),
{
    let ghost b = board.vertices@;
    let ghost t0 = territory@;
    let ghost p0 = probes@;
    proof {
        reveal(flood_state);
    }
    let t: u8 = territory[index] + 1;
    let mut k: usize = 0;
    while k < 4
        invariant
            board.wf(),
            b == board.vertices@,
            flood_state(b, color, territory@, probes@, head as int),
            is_playable(index as int),
            passable(b[index as int], color),
            t == territory@[index as int] + 1,
            k <= 4,
            forall|i: int|
                #![trigger relaxed(b, territory@, i)]
                0 <= i < 441 && i != index && passable(b[i], color) && territory@[i] < 255
                    && !pending(probes@, head as int, i) ==> relaxed(b, territory@, i),
            forall|m: int|
                0 <= m < k && (#[trigger] b[nb(index as int, m)]).state == EMPTY
                    ==> territory@[nb(index as int, m)] <= territory@[index as int] + 1,
            2 * total(territory@) + probes@.len() <= 2 * total(t0) + p0.len(),
            probes@.len() >= p0.len(),
        decreases 4 - k,
    {
        proof {
            reveal(flood_state);
            assert(territory@.len() == 441);
        }
        let w = neighbor(index, k);
        if board.vertices[w].is_empty() && territory[w] > t {
            let ghost tb = territory@;
            let ghost pb = probes@;
            proof {
                lemma_total_update(territory@, w as int, t);
            }
            probes.push(w);
            territory[w] = t;
            proof {
                reveal(flood_state);
                assert(territory@ == tb.update(w as int, t));
                assert(probes@ == pb.push(w));
                assert(is_playable(w as int));
                assert(nb(w as int, ((k + 2) % 4) as int) == index);
                assert forall|i: int|
                    0 <= i < 441 && (#[trigger] b[i]).state == EMPTY && territory@[i] != 255 implies exists|m: int|
                        0 <= m < 4 && #[trigger] territory@[nb(i, m)] < territory@[i] by {
                    if i == w {
                        assert(territory@[nb(i, ((k + 2) % 4) as int)] < territory@[i]);
                    } else {
                        let m = choose|m: int| 0 <= m < 4 && #[trigger] tb[nb(i, m)] < tb[i];
                        assert(territory@[nb(i, m)] < territory@[i]);
                    }
                }
                assert forall|j: int| 0 <= j < probes@.len() implies is_playable(#[trigger] probes@[j] as int)
                    && passable(b[probes@[j] as int], color) && territory@[probes@[j] as int] < 255 by {
                    if j < pb.len() {
                        assert(probes@[j] == pb[j]);
                    }
                }
                assert(pending(probes@, head as int, w as int)) by {
                    reveal(pending);
                    assert(probes@[pb.len() as int] == w);
                }
                assert forall|i: int|
                    #![trigger relaxed(b, territory@, i)]
                    0 <= i < 441 && i != index && passable(b[i], color) && territory@[i] < 255
                        && !pending(probes@, head as int, i) implies relaxed(b, territory@, i) by {
                    reveal(pending);
                    if pending(pb, head as int, i) {
                        let j = choose|j: int| head <= j < pb.len() && pb[j] == i;
                        assert(probes@[j] == i);
                    }
                    assert(i != w);
                    assert(relaxed(b, tb, i));
                    reveal(relaxed);
                    assert forall|m: int| 0 <= m < 4 && (#[trigger] b[nb(i, m)]).state == EMPTY implies territory@[nb(i, m)] <= territory@[i] + 1 by {
                        assert(tb[nb(i, m)] <= tb[i] + 1);
                    }
                }
                assert(flood_state(b, color, territory@, probes@, head as int));
            }
        }
        k += 1;
    }
    proof {
        reveal(relaxed);
        assert(relaxed(b, territory@, index as int));
    }
}

} // verus!

verus! {

/// Whether vertex `i` counts for black: a black stone (black distance 0),
/// or a vertex that no white stone reaches (white distance 255, which is
/// never the distance of a white stone).
pub open spec fn counts_black(bd: Seq<u8>, wd: Seq<u8>, i: int) -> bool {
    bd[i] == 0 || wd[i] == 255
}

/// Whether vertex `i` counts for white: a white stone, or a vertex that no
/// black stone reaches; a vertex that counts for black does not count for
/// white as well.
pub open spec fn counts_white(bd: Seq<u8>, wd: Seq<u8>, i: int) -> bool {
    !counts_black(bd, wd, i) && (wd[i] == 0 || bd[i] == 255)
}

/// Number of the first `n` playable intersections that count for black
/// (`black`) or for white (`!black`).
pub open spec fn area_upto(bd: Seq<u8>, wd: Seq<u8>, n: int, black: bool) -> int
    decreases n,
{
    if n <= 0 {
        0
    } else {
        let i = nth_point(n - 1);
        area_upto(bd, wd, n - 1, black) + if (black && counts_black(bd, wd, i)) || (!black && counts_white(bd, wd, i)) {
            1int
        } else {
            0int
        }
    }
}

/// The Tromp-Taylor area `(black, white)` given the two distance maps.
pub open spec fn tt_area(bd: Seq<u8>, wd: Seq<u8>) -> (int, int) {
    (area_upto(bd, wd, 361, true), area_upto(bd, wd, 361, false))
}

pub proof fn lemma_area_bounded(bd: Seq<u8>, wd: Seq<u8>, n: int, black: bool)
    requires
        n >= 0,
    ensures
        0 <= area_upto(bd, wd, n, black) <= n,
    decreases n,
{
    if n > 0 {
        lemma_area_bounded(bd, wd, n - 1, black);
    }
}

/// Returns the Tromp-Taylor area `(black, white)` from the two distance maps.
pub fn tt_score_from(black_distance: &Vec<u8>, white_distance: &Vec<u8>) -> (r: (usize, usize))
    requires
        black_distance@.len() == 441,
        white_distance@.len() == 441,
    ensures
        (r.0 as int, r.1 as int) == tt_area(black_distance@, white_distance@),
{
    let mut black: usize = 0;
    let mut white: usize = 0;
    let mut k: usize = 0;
    while k < 361
        invariant
            k <= 361,
            black_distance@.len() == 441,
            white_distance@.len() == 441,
            black == area_upto(black_distance@, white_distance@, k as int, true),
            white == area_upto(black_distance@, white_distance@, k as int, false),
        decreases 361 - k,
    {
        proof {
            lemma_area_bounded(black_distance@, white_distance@, k as int, true);
            lemma_area_bounded(black_distance@, white_distance@, k as int, false);
        }
        let i = Point::nth(k).index;
        if black_distance[i] == 0 {
            black += 1;
        } else if white_distance[i] == 0 {
            white += 1;
        } else if white_distance[i] == 255 {
            black += 1;
        } else if black_distance[i] == 255 {
            white += 1;
        }
        k += 1;
    }
    (black, white)
}

/// Returns the Tromp-Taylor area `(black, white)` of `board`: stones and the
/// empty vertices that only one colour reaches.
pub fn get_tt_score(board: &BoardFast) -> (r: (usize, usize))
    requires
        board.wf(),
    ensures
        exists|bd: Seq<u8>, wd: Seq<u8>|
            #![trigger is_distance_map(board.vertices@, Color::Black, bd), is_distance_map(board.vertices@, Color::White, wd)]
            is_distance_map(board.vertices@, Color::Black, bd) && is_distance_map(board.vertices@, Color::White, wd)
                && (r.0 as int, r.1 as int) == tt_area(bd, wd),
{
    let black_distance = get_territory_distance(board, Color::Black);
    let white_distance = get_territory_distance(board, Color::White);
    tt_score_from(&black_distance, &white_distance)
}

} // verus!

verus! {

/// Whether one of the playable intersections of `b` holds a stone of colour `c`.
pub open spec fn some_stone_of(b: Seq<Vertex>, c: Color) -> bool {
    exists|k: int| 0 <= k < 361 && (#[trigger] b[nth_point(k)]).has(c)
}

/// Whether every playable intersection is reached by at most one colour.
pub open spec fn no_dame(bd: Seq<u8>, wd: Seq<u8>) -> bool {
    forall|k: int| 0 <= k < 361 ==> bd[#[trigger] nth_point(k)] == 255 || wd[nth_point(k)] == 255
}

/// Whether no chain on `board` is in atari.
pub open spec fn no_atari(board: BoardFast) -> bool {
    forall|k: int|
        0 <= k < 361 ==> (#[trigger] board.vertices@[nth_point(k)]).state == EMPTY || board.libs_of(nth_point(k)) >= 2
}

/// Whether `board`, with distance maps `bd` and `wd`, can be scored: both
/// colours have played, no dame is left, and no chain is in atari.
pub open spec fn scorable(board: BoardFast, bd: Seq<u8>, wd: Seq<u8>) -> bool {
    &&& some_stone_of(board.vertices@, Color::Black)
    &&& some_stone_of(board.vertices@, Color::White)
    &&& no_dame(bd, wd)
    &&& no_atari(board)
}

/// Returns whether `board` can be scored, given its two distance maps.
pub fn is_scorable_from(board: &BoardFast, black_distance: &Vec<u8>, white_distance: &Vec<u8>) -> (r: bool)
    requires
        board.wf(),
        black_distance@.len() == 441,
        white_distance@.len() == 441,
    ensures
        r == scorable(*board, black_distance@, white_distance@),
{
    let mut some_black = false;
    let mut some_white = false;
    let mut k: usize = 0;
    while k < 361
        invariant
            board.wf(),
            k <= 361,
            some_black == exists|m: int| 0 <= m < k && (#[trigger] board.vertices@[nth_point(m)]).has(Color::Black),
            some_white == exists|m: int| 0 <= m < k && (#[trigger] board.vertices@[nth_point(m)]).has(Color::White),
        decreases 361 - k,
    {
        let i = Point::nth(k).index;
        if board.vertices[i].is(Color::Black) {
            some_black = true;
        }
        if board.vertices[i].is(Color::White) {
            some_white = true;
        }
        k += 1;
    }
    if !some_black || !some_white {
        return false;
    }
    k = 0;
    while k < 361
        invariant
            k <= 361,
            black_distance@.len() == 441,
            white_distance@.len() == 441,
            forall|m: int| 0 <= m < k ==> black_distance@[#[trigger] nth_point(m)] == 255 || white_distance@[nth_point(m)] == 255,
        decreases 361 - k,
    {
        let i = Point::nth(k).index;
        if black_distance[i] != 255 && white_distance[i] != 255 {
            return false;
        }
        k += 1;
    }
    k = 0;
    while k < 361
        invariant
            board.wf(),
            k <= 361,
            forall|m: int|
                0 <= m < k ==> (#[trigger] board.vertices@[nth_point(m)]).state == EMPTY || board.libs_of(nth_point(m)) >= 2,
        decreases 361 - k,
    {
        let p = Point::nth(k);
        if !board.vertices[p.index].is_empty() && !board.has_n_liberty(p, 2) {
            return false;
        }
        k += 1;
    }
    true
}

/// The first `n` playable intersections, row by row, that at most one
/// colour reaches.
pub open spec fn territory_upto(bd: Seq<u8>, wd: Seq<u8>, n: int) -> Seq<int>
    decreases n,
{
    if n <= 0 {
        seq![]
    } else {
        let i = nth_point(n - 1);
        let prev = territory_upto(bd, wd, n - 1);
        if bd[i] == 255 || wd[i] == 255 {
            prev.push(i)
        } else {
            prev
        }
    }
}

pub proof fn lemma_territory_len(bd: Seq<u8>, wd: Seq<u8>, n: int)
    requires
        n >= 0,
    ensures
        territory_upto(bd, wd, n).len() <= n,
    decreases n,
{
    if n > 0 {
        lemma_territory_len(bd, wd, n - 1);
    }
}

/// Returns, row by row, every intersection that at most one colour reaches.
pub fn scorable_territory_from(black_distance: &Vec<u8>, white_distance: &Vec<u8>) -> (r: Vec<Point>)
    requires
        black_distance@.len() == 441,
        white_distance@.len() == 441,
    ensures
        r@.len() == territory_upto(black_distance@, white_distance@, 361).len(),
        r@.len() <= 361,
        forall|j: int|
            0 <= j < r@.len() ==> (#[trigger] r@[j]).index == territory_upto(black_distance@, white_distance@, 361)[j],
{
    let mut out: Vec<Point> = Vec::new();
    let mut k: usize = 0;
    while k < 361
        invariant
            k <= 361,
            black_distance@.len() == 441,
            white_distance@.len() == 441,
            out@.len() == territory_upto(black_distance@, white_distance@, k as int).len(),
            forall|j: int|
                0 <= j < out@.len() ==> (#[trigger] out@[j]).index == territory_upto(black_distance@, white_distance@, k as int)[j],
        decreases 361 - k,
    {
        let p = Point::nth(k);
        if black_distance[p.index] == 255 || white_distance[p.index] == 255 {
            out.push(p);
        }
        k += 1;
    }
    proof {
        lemma_territory_len(black_distance@, white_distance@, 361);
    }
    out
}

/// The state of a vertex once the stones that the finished board shows to
/// be dead are removed: a live stone that the finished board does not hold
/// in the same colour is removed.
pub open spec fn cleaned_state(live: Vertex, fin: Vertex) -> u8 {
    if live.state != fin.state && is_stone(live) {
        EMPTY
    } else {
        live.state
    }
}

/// The vertices of `live` once the dead stones that `fin` shows are removed.
pub open spec fn cleaned(live: Seq<Vertex>, fin: Seq<Vertex>) -> Seq<Vertex> {
    Seq::new(441, |i: int| Vertex { state: cleaned_state(live[i], fin[i]), ..live[i] })
}

/// Returns a copy of `live` without the stones that `finished` shows to be
/// dead.
pub fn clean_board(live: &BoardFast, finished: &BoardFast) -> (r: BoardFast)
    requires
        live.wf(),
        finished.wf(),
    ensures
        r.wf(),
        r.vertices@ == cleaned(live.vertices@, finished.vertices@),
{
    let mut vertices: Vec<Vertex> = Vec::new();
    let mut i: usize = 0;
    while i < 441
        invariant
            live.wf(),
            finished.wf(),
            i <= 441,
            vertices@.len() == i,
            forall|j: int|
                0 <= j < i ==> #[trigger] vertices@[j] == (Vertex {
                    state: cleaned_state(live.vertices@[j], finished.vertices@[j]),
                    ..live.vertices@[j]
                }),
        decreases 441 - i,
    {
        let mut v = live.vertices[i];
        let f = finished.vertices[i];
        if v.state != f.state && v.state != EMPTY && v.state != INVALID {
            v.set_color(None);
        }
        vertices.push(v);
        i += 1;
    }
    assert(vertices@ =~= cleaned(live.vertices@, finished.vertices@));
    BoardFast { vertices }
}

/// Labels of a vertex in the status report.
#[derive(Clone, Copy, Debug, PartialEq, Eq, Structural)]
pub enum StoneStatus {
    Alive,
    Dead,
    Seki,
    BlackTerritory,
    WhiteTerritory,
}

/// The territory label of colour `c`.
pub open spec fn territory_label(c: Color) -> StoneStatus {
    match c {
        Color::Black => StoneStatus::BlackTerritory,
        Color::White => StoneStatus::WhiteTerritory,
    }
}

/// The labels of one playable vertex, comparing the live vertex with the
/// finished one; `None` where the vertex is not reported.
pub open spec fn status_of(live: Vertex, fin: Vertex, fbd: u8, fwd: u8) -> Option<Seq<StoneStatus>> {
    if live.state == fin.state {
        if is_stone(live) {
            Some(seq![StoneStatus::Alive, territory_label(live.color_spec().unwrap())])
        } else if fbd != 255 && fwd == 255 {
            Some(seq![StoneStatus::BlackTerritory])
        } else if fbd == 255 && fwd != 255 {
            Some(seq![StoneStatus::WhiteTerritory])
        } else {
            None
        }
    } else if is_stone(live) {
        Some(seq![StoneStatus::Dead, territory_label(live.color_spec().unwrap().opposite_spec())])
    } else {
        Some(seq![territory_label(fin.color_spec().unwrap())])
    }
}

/// The report for the first `n` playable intersections, row by row.
pub open spec fn status_upto(live: Seq<Vertex>, fin: Seq<Vertex>, bd: Seq<u8>, wd: Seq<u8>, n: int) -> Seq<(int, Seq<StoneStatus>)>
    decreases n,
{
    if n <= 0 {
        seq![]
    } else {
        let i = nth_point(n - 1);
        let prev = status_upto(live, fin, bd, wd, n - 1);
        match status_of(live[i], fin[i], bd[i], wd[i]) {
            Some(labels) => prev.push((i, labels)),
            None => prev,
        }
    }
}

/// Returns the labels of every reported playable intersection, row by row,
/// comparing `live` with `finished` and its distance maps.
pub fn stone_status_from(live: &BoardFast, finished: &BoardFast, black_distance: &Vec<u8>, white_distance: &Vec<u8>) -> (r: Vec<(Point, Vec<StoneStatus>)>)
    requires
        live.wf(),
        finished.wf(),
        black_distance@.len() == 441,
        white_distance@.len() == 441,
    ensures
        r@.len() == status_upto(live.vertices@, finished.vertices@, black_distance@, white_distance@, 361).len(),
        forall|j: int|
            0 <= j < r@.len() ==> (#[trigger] r@[j]).0.index == status_upto(live.vertices@, finished.vertices@, black_distance@, white_distance@, 361)[j].0
                && r@[j].1@ == status_upto(live.vertices@, finished.vertices@, black_distance@, white_distance@, 361)[j].1,
{
    let ghost lb = live.vertices@;
    let ghost fb = finished.vertices@;
    let mut out: Vec<(Point, Vec<StoneStatus>)> = Vec::new();
    let mut k: usize = 0;
    while k < 361
        invariant
            live.wf(),
            finished.wf(),
            lb == live.vertices@,
            fb == finished.vertices@,
            k <= 361,
            black_distance@.len() == 441,
            white_distance@.len() == 441,
            out@.len() == status_upto(lb, fb, black_distance@, white_distance@, k as int).len(),
            forall|j: int|
                0 <= j < out@.len() ==> (#[trigger] out@[j]).0.index == status_upto(lb, fb, black_distance@, white_distance@, k as int)[j].0
                    && out@[j].1@ == status_upto(lb, fb, black_distance@, white_distance@, k as int)[j].1,
        decreases 361 - k,
    {
        let p = Point::nth(k);
        let i = p.index;
        let v = live.vertices[i];
        let f = finished.vertices[i];
        let bd = black_distance[i];
        let wd = white_distance[i];
        let mut labels: Vec<StoneStatus> = Vec::new();
        if v.state == f.state {
            if v.is(Color::Black) {
                labels.push(StoneStatus::Alive);
                labels.push(StoneStatus::BlackTerritory);
            } else if v.is(Color::White) {
                labels.push(StoneStatus::Alive);
                labels.push(StoneStatus::WhiteTerritory);
            } else if bd != 255 && wd == 255 {
                labels.push(StoneStatus::BlackTerritory);
            } else if bd == 255 && wd != 255 {
                labels.push(StoneStatus::WhiteTerritory);
            }
        } else if !v.is_empty() {
            if v.is(Color::Black) {
                labels.push(StoneStatus::Dead);
                labels.push(StoneStatus::WhiteTerritory);
            } else {
                labels.push(StoneStatus::Dead);
                labels.push(StoneStatus::BlackTerritory);
            }
        } else if f.is(Color::Black) {
            labels.push(StoneStatus::BlackTerritory);
        } else {
            labels.push(StoneStatus::WhiteTerritory);
        }
        proof {
            assert(is_playable(i as int));
            assert(v == lb[i as int] && f == fb[i as int]);
            match status_of(v, f, bd, wd) {
                Some(ls) => {
                    assert(labels@ =~= ls);
                },
                None => {
                    assert(labels@.len() == 0);
                },
            }
        }
        if labels.len() > 0 {
            out.push((p, labels));
        }
        k += 1;
    }
    out
}

/// Whether one of the playable intersections of `b` holds a stone.
pub open spec fn has_stones(b: Seq<Vertex>) -> bool {
    exists|k: int| 0 <= k < 361 && is_stone(#[trigger] b[nth_point(k)])
}

/// Returns whether one of the playable intersections of `board` holds a stone.
pub fn any_stone(board: &BoardFast) -> (r: bool)
    requires
        board.wf(),
    ensures
        r == has_stones(board.vertices@),
{
    let mut k: usize = 0;
    while k < 361
        invariant
            board.wf(),
            k <= 361,
            forall|m: int| 0 <= m < k ==> !is_stone(#[trigger] board.vertices@[nth_point(m)]),
        decreases 361 - k,
    {
        let i = Point::nth(k).index;
        let v = board.vertices[i];
        if v.state != EMPTY && v.state != INVALID {
            assert(is_stone(board.vertices@[nth_point(k as int)]));
            return true;
        }
        k += 1;
    }
    false
}

/// Scoring of a position under Tromp-Taylor rules, without komi.
pub trait Score {
    /// The position that is scored.
    spec fn position(&self) -> BoardFast;

    /// Returns whether the game is fully scorable: both colours have
    /// played, every empty vertex is reached by at most one colour, and no
    /// chain is in atari.
    fn is_scorable(&self) -> (r: bool)
        requires
            self.position().wf(),
        ensures
            exists|bd: Seq<u8>, wd: Seq<u8>|
                #![trigger is_distance_map(self.position().vertices@, Color::Black, bd), is_distance_map(self.position().vertices@, Color::White, wd)]
                is_distance_map(self.position().vertices@, Color::Black, bd)
                    && is_distance_map(self.position().vertices@, Color::White, wd)
                    && r == scorable(self.position(), bd, wd),
    ;

    /// Returns, row by row, every intersection that at most one colour reaches.
    fn get_scorable_territory(&self) -> (r: Vec<Point>)
        requires
            self.position().wf(),
        ensures
            r@.len() <= 361,
            exists|bd: Seq<u8>, wd: Seq<u8>|
                #![trigger is_distance_map(self.position().vertices@, Color::Black, bd), is_distance_map(self.position().vertices@, Color::White, wd)]
                is_distance_map(self.position().vertices@, Color::Black, bd)
                    && is_distance_map(self.position().vertices@, Color::White, wd)
                    && r@.len() == territory_upto(bd, wd, 361).len()
                    && forall|j: int| 0 <= j < r@.len() ==> (#[trigger] r@[j]).index == territory_upto(bd, wd, 361)[j],
    ;

    /// Returns the Tromp-Taylor area `(black, white)`; `(0, 0)` while no
    /// stone is on the board.
    fn get_score(&self) -> (r: (usize, usize))
        requires
            self.position().wf(),
        ensures
            !has_stones(self.position().vertices@) ==> r == (0usize, 0usize),
            has_stones(self.position().vertices@) ==> exists|bd: Seq<u8>, wd: Seq<u8>|
                #![trigger is_distance_map(self.position().vertices@, Color::Black, bd), is_distance_map(self.position().vertices@, Color::White, wd)]
                is_distance_map(self.position().vertices@, Color::Black, bd)
                    && is_distance_map(self.position().vertices@, Color::White, wd)
                    && (r.0 as int, r.1 as int) == tt_area(bd, wd),
    ;

    /// Returns the Tromp-Taylor area `(black, white)` of this position once
    /// every stone that `finished` (this game played out by some heuristic)
    /// does not hold in the same colour is removed as dead.
    fn get_guess_score(&self, finished: &Self) -> (r: (usize, usize))
        requires
            self.position().wf(),
            finished.position().wf(),
        ensures
            exists|cbd: Seq<u8>, cwd: Seq<u8>|
                #![trigger is_distance_map(cleaned(self.position().vertices@, finished.position().vertices@), Color::Black, cbd), is_distance_map(cleaned(self.position().vertices@, finished.position().vertices@), Color::White, cwd)]
                is_distance_map(cleaned(self.position().vertices@, finished.position().vertices@), Color::Black, cbd)
                    && is_distance_map(cleaned(self.position().vertices@, finished.position().vertices@), Color::White, cwd)
                    && (r.0 as int, r.1 as int) == tt_area(cbd, cwd),
    ;

    /// Returns the labels of every reported intersection, comparing this
    /// position with `finished`.
    fn get_stone_status(&self, finished: &Self) -> (r: Vec<(Point, Vec<StoneStatus>)>)
        requires
            self.position().wf(),
            finished.position().wf(),
        ensures
            exists|fbd: Seq<u8>, fwd: Seq<u8>|
                #![trigger is_distance_map(finished.position().vertices@, Color::Black, fbd), is_distance_map(finished.position().vertices@, Color::White, fwd)]
                is_distance_map(finished.position().vertices@, Color::Black, fbd)
                    && is_distance_map(finished.position().vertices@, Color::White, fwd)
                    && r@.len() == status_upto(self.position().vertices@, finished.position().vertices@, fbd, fwd, 361).len()
                    && forall|j: int| 0 <= j < r@.len() ==> (#[trigger] r@[j]).0.index
                        == status_upto(self.position().vertices@, finished.position().vertices@, fbd, fwd, 361)[j].0
                        && r@[j].1@ == status_upto(self.position().vertices@, finished.position().vertices@, fbd, fwd, 361)[j].1,
    ;
}

/// The result of `str::to_lowercase` on `s`.
pub uninterp spec fn lower_of(s: Seq<char>) -> Seq<char>;

/// Relies on `str::to_lowercase`: the result depends on the characters of
/// `s` alone.
#[verifier::external_body]
fn lowercase(s: &str) -> (r: String)
    ensures
        r@ == lower_of(s@),
{
    s.to_lowercase()
}

/// The status that the lower-case token `t` names, if any.
pub open spec fn status_named(t: Seq<char>) -> Option<StoneStatus> {
    if t == "alive"@ {
        Some(StoneStatus::Alive)
    } else if t == "dead"@ {
        Some(StoneStatus::Dead)
    } else if t == "seki"@ {
        Some(StoneStatus::Seki)
    } else if t == "black_territory"@ {
        Some(StoneStatus::BlackTerritory)
    } else if t == "white_territory"@ {
        Some(StoneStatus::WhiteTerritory)
    } else {
        None
    }
}

/// Returns the status that the lower-case token `t` names.
pub fn status_from_lowercase(t: &String) -> (r: Result<StoneStatus, ()>)
    ensures
        r == match status_named(t@) {
            Some(x) => Ok::<StoneStatus, ()>(x),
            None => Err(()),
        },
{
    let alive: String = "alive".to_owned();
    let dead: String = "dead".to_owned();
    let seki: String = "seki".to_owned();
    let black: String = "black_territory".to_owned();
    let white: String = "white_territory".to_owned();
    if t.eq(&alive) {
        Ok(StoneStatus::Alive)
    } else if t.eq(&dead) {
        Ok(StoneStatus::Dead)
    } else if t.eq(&seki) {
        Ok(StoneStatus::Seki)
    } else if t.eq(&black) {
        Ok(StoneStatus::BlackTerritory)
    } else if t.eq(&white) {
        Ok(StoneStatus::WhiteTerritory)
    } else {
        Err(())
    }
}

impl StoneStatus {
    /// Returns the status that `s` names, ignoring case.
    pub fn parse(s: &str) -> (r: Result<StoneStatus, ()>)
        ensures
            r == match status_named(lower_of(s@)) {
                Some(x) => Ok::<StoneStatus, ()>(x),
                None => Err(()),
            },
    {
        let t = lowercase(s);
        status_from_lowercase(&t)
    }
}

impl std::str::FromStr for StoneStatus {
    type Err = ();

    fn from_str(s: &str) -> Result<StoneStatus, ()> {
        StoneStatus::parse(s)
    }
}

} // verus!

use vstd::prelude::*;
use crate::color::Color;
use crate::point::{is_playable, Point};
use crate::vertex::{code_of, Vertex, BLACK, EMPTY, INVALID, WHITE};
use crate::zobrist::{self, zobrist_value};

verus! {

/// The `k`-th neighbour (north, east, south, west) of vertex `p`.
pub open spec fn nb(p: int, k: int) -> int {
    if k == 0 {
        p - 21
    } else if k == 1 {
        p + 1
    } else if k == 2 {
        p + 21
    } else {
        p - 1
    }
}

/// Returns the `k`-th neighbour (north, east, south, west) of playable vertex `p`.
pub fn neighbor(p: usize, k: usize) -> (r: usize)
    requires
        is_playable(p as int),
        k < 4,
    ensures
        r == nb(p as int, k as int),
        0 < r < 441,
{
    if k == 0 {
        p - 21
    } else if k == 1 {
        p + 1
    } else if k == 2 {
        p + 21
    } else {
        p - 1
    }
}

/// Whether `a` and `b` are 4-adjacent vertices.
pub open spec fn adjacent(a: int, b: int) -> bool {
    exists|k: int| 0 <= k < 4 && nb(a, k) == b
}

/// The members of a chain visited by following `next` links from `cur`,
/// stopping before `start` comes round again or after `fuel` vertices.
pub open spec fn chain_from(b: Seq<Vertex>, start: int, cur: int, fuel: nat) -> Seq<int>
    decreases fuel,
{
    if fuel == 0 {
        seq![]
    } else {
        let nx = b[cur].next as int;
        if nx == start {
            seq![cur]
        } else {
            seq![cur] + chain_from(b, start, nx, (fuel - 1) as nat)
        }
    }
}

/// The chain through `p`: the vertices met walking `next` links from `p`
/// until `p` comes round again, at most one lap of the board.
pub open spec fn chain(b: Seq<Vertex>, p: int) -> Seq<int> {
    chain_from(b, p, p, 441)
}

/// XOR of the Zobrist values of colour `c` over the vertices `s`.
pub open spec fn xor_all(c: Color, s: Seq<int>) -> u64
    decreases s.len(),
{
    if s.len() == 0 {
        0
    } else {
        xor_all(c, s.drop_last()) ^ zobrist_value(c, s.last())
    }
}

/// Playable vertices link only to playable vertices.
pub open spec fn links_playable(b: Seq<Vertex>) -> bool {
    forall|i: int|
        #![trigger b[i]]
        is_playable(i) ==> is_playable(b[i].next as int) && is_playable(b[i].head as int)
}

/// Two vertex arrays of the same length with the same `next` links.
pub open spec fn same_links(b1: Seq<Vertex>, b2: Seq<Vertex>) -> bool {
    b1.len() == b2.len() && forall|i: int| 0 <= i < b1.len() ==> #[trigger] b1[i].next == b2[i].next
}

pub proof fn lemma_chain_from_playable(b: Seq<Vertex>, start: int, cur: int, fuel: nat)
    requires
        b.len() == 441,
        links_playable(b),
        is_playable(cur),
    ensures
        chain_from(b, start, cur, fuel).len() <= fuel,
        fuel > 0 ==> chain_from(b, start, cur, fuel).len() > 0 && chain_from(b, start, cur, fuel)[0] == cur,
        forall|k: int|
            0 <= k < chain_from(b, start, cur, fuel).len() ==> is_playable(
                #[trigger] chain_from(b, start, cur, fuel)[k],
            ),
    decreases fuel,
{
    if fuel > 0 {
        let nx = b[cur].next as int;
        if nx != start {
            lemma_chain_from_playable(b, start, nx, (fuel - 1) as nat);
        }
    }
}

pub proof fn lemma_push_contains(s: Seq<int>, x: int, i: int)
    ensures
        s.push(x).contains(i) == (s.contains(i) || i == x),
{
    if s.push(x).contains(i) {
        let w = choose|w: int| 0 <= w < s.len() + 1 && s.push(x)[w] == i;
        if w < s.len() {
            assert(s[w] == i);
        }
    }
    if s.contains(i) {
        let w = choose|w: int| 0 <= w < s.len() && s[w] == i;
        assert(s.push(x)[w] == i);
    }
    if i == x {
        assert(s.push(x)[s.len() as int] == i);
    }
}

pub proof fn lemma_chain_from_same_links(b1: Seq<Vertex>, b2: Seq<Vertex>, start: int, cur: int, fuel: nat)
    requires
        b1.len() == 441,
        links_playable(b1),
        same_links(b1, b2),
        is_playable(cur),
    ensures
        chain_from(b1, start, cur, fuel) == chain_from(b2, start, cur, fuel),
    decreases fuel,
{
    if fuel > 0 {
        let nx = b1[cur].next as int;
        if nx != start {
            lemma_chain_from_same_links(b1, b2, start, nx, (fuel - 1) as nat);
        }
    }
}


/// Whether vertex `v` holds a stone of either colour.
pub open spec fn is_stone(v: Vertex) -> bool {
    EMPTY < v.state < INVALID
}

/// `v` with its liberty count raised by one, stopping at `u16::MAX`.
pub open spec fn inc_libs(v: Vertex) -> Vertex {
    Vertex { libs: if v.libs + 1 <= u16::MAX { (v.libs + 1) as u16 } else { u16::MAX }, ..v }
}

/// Whether one of the first `upto` neighbours of `p` is a stone of a chain
/// with head `h` other than the chain of `p`.
pub open spec fn bumps(b: Seq<Vertex>, p: int, h: int, upto: int) -> bool {
    &&& h != b[p].head
    &&& exists|k: int| 0 <= k < upto && is_stone(#[trigger] b[nb(p, k)]) && b[nb(p, k)].head == h
}

/// The liberties of the chain with head `h`: the empty vertices that touch
/// one of its members.
pub open spec fn liberty_set(b: Seq<Vertex>, h: int) -> Set<int> {
    Set::new(|e: int| 0 <= e < 441 && b[e].state == EMPTY && liberty_of(b, e, h))
}

/// The chain invariants: for every stone `v`, its head is a stone of the
/// same colour that is its own head; walking `next` from `v` meets distinct
/// stones of that colour and head and comes back to `v`; and the head's
/// count is the number of the chain's liberties, which is not zero.
pub open spec fn chains_sound(b: Seq<Vertex>) -> bool {
    forall|v: int|
        #![trigger b[v]]
        is_playable(v) && is_stone(b[v]) ==> {
            let h = b[v].head as int;
            let c = chain(b, v);
            &&& b[h].head == h
            &&& b[h].state == b[v].state
            &&& c.no_duplicates()
            &&& b[c.last()].next == v
            &&& forall|j: int| 0 <= j < c.len() ==> b[#[trigger] c[j]].state == b[v].state && b[c[j]].head == h
            &&& b[h].libs == liberty_set(b, h).len()
            &&& b[h].libs > 0
        }
}

/// `b` after raising by one the liberty count of each distinct chain next
/// to `p` other than the chain of `p`.
pub open spec fn bump_adjacent(b: Seq<Vertex>, p: int) -> Seq<Vertex> {
    Seq::new(441, |i: int| if bumps(b, p, i, 4) { inc_libs(b[i]) } else { b[i] })
}

/// `b` after removing, in the order of `s`, each vertex of `s` that still
/// holds a stone of colour `c`, giving a liberty back to each chain next to
/// a removed stone.
pub open spec fn removal(b: Seq<Vertex>, c: Color, s: Seq<int>) -> Seq<Vertex>
    decreases s.len(),
{
    if s.len() == 0 {
        b
    } else {
        let prev = removal(b, c, s.drop_last());
        let v = s.last();
        if prev[v].has(c) {
            bump_adjacent(prev.update(v, Vertex { state: EMPTY, ..prev[v] }), v)
        } else {
            prev
        }
    }
}

/// Whether some neighbour of `m` is empty.
pub open spec fn touches_empty(b: Seq<Vertex>, m: int) -> bool {
    exists|k: int| 0 <= k < 4 && (#[trigger] b[nb(m, k)]).state == EMPTY
}

/// The Zobrist value of vertex `i` in state `v`: zero unless it holds a stone.
pub open spec fn stone_hash(v: Vertex, i: int) -> u64 {
    if v.state == BLACK {
        zobrist_value(Color::Black, i)
    } else if v.state == WHITE {
        zobrist_value(Color::White, i)
    } else {
        0
    }
}

/// XOR of the Zobrist values of the stones on the first `n` vertices.
pub open spec fn hash_upto(b: Seq<Vertex>, n: int) -> u64
    decreases n,
{
    if n <= 0 {
        0
    } else {
        hash_upto(b, n - 1) ^ stone_hash(b[n - 1], n - 1)
    }
}

/// The Zobrist hash of a position, computed from scratch.
pub open spec fn board_hash(b: Seq<Vertex>) -> u64 {
    hash_upto(b, 441)
}

/// A chain whose members are distinct stones of colour `c`.
pub open spec fn proper_chain(b: Seq<Vertex>, c: Color, s: Seq<int>) -> bool {
    &&& s.no_duplicates()
    &&& forall|j: int| 0 <= j < s.len() ==> b[#[trigger] s[j]].has(c)
}

/// Changing the stone on vertex `p` by `x` changes the hash of every prefix
/// that covers `p` by `x`, and no other.
pub proof fn lemma_hash_toggle(b1: Seq<Vertex>, b2: Seq<Vertex>, p: int, x: u64, n: int)
    requires
        forall|i: int| 0 <= i < n && i != p ==> stone_hash(#[trigger] b2[i], i) == stone_hash(b1[i], i),
        stone_hash(b2[p], p) == stone_hash(b1[p], p) ^ x,
    ensures
        hash_upto(b2, n) == hash_upto(b1, n) ^ (if 0 <= p < n { x } else { 0 }),
    decreases n,
{
    if n > 0 {
        lemma_hash_toggle(b1, b2, p, x, n - 1);
        let h = hash_upto(b1, n - 1);
        let s1 = stone_hash(b1[n - 1], n - 1);
        assert(h ^ 0 == h) by (bit_vector);
        if p == n - 1 {
            assert(h ^ (s1 ^ x) == (h ^ s1) ^ x) by (bit_vector);
        } else if 0 <= p < n - 1 {
            assert(stone_hash(b2[n - 1], n - 1) == s1);
            assert((h ^ x) ^ s1 == (h ^ s1) ^ x) by (bit_vector);
        } else {
            assert(stone_hash(b2[n - 1], n - 1) == s1);
            assert(h ^ 0 == h) by (bit_vector);
            assert((h ^ s1) ^ 0 == h ^ s1) by (bit_vector);
        }
    } else {
        assert(0u64 ^ 0u64 == 0u64) by (bit_vector);
    }
}

/// Emptying vertex `p`, which holds a stone of colour `c`, and then changing
/// no stone changes the hash by the stone's Zobrist value.
pub proof fn lemma_capture_step(b: Seq<Vertex>, s0: Seq<Vertex>, s1: Seq<Vertex>, s2: Seq<Vertex>, p: int, c: Color, h0: u64)
    requires
        board_hash(s0) == board_hash(b) ^ h0,
        0 <= p < 441,
        s0[p].state == code_of(c),
        s1[p].state == EMPTY,
        forall|i: int| 0 <= i < 441 && i != p ==> (#[trigger] s1[i]).state == s0[i].state,
        forall|i: int| 0 <= i < 441 ==> (#[trigger] s2[i]).state == s1[i].state,
    ensures
        board_hash(s2) == board_hash(b) ^ (h0 ^ zobrist_value(c, p)),
{
    let z = zobrist_value(c, p);
    assert(stone_hash(s0[p], p) == z);
    assert(z ^ z == 0) by (bit_vector);
    assert forall|i: int| 0 <= i < 441 && i != p implies stone_hash(#[trigger] s1[i], i) == stone_hash(s0[i], i) by {
        assert(s1[i].state == s0[i].state);
    }
    lemma_hash_toggle(s0, s1, p, z, 441);
    assert forall|i: int| 0 <= i < 441 && i != p implies stone_hash(#[trigger] s2[i], i) == stone_hash(s1[i], i) by {
        assert(s2[i].state == s1[i].state);
    }
    assert(stone_hash(s2[p], p) == stone_hash(s1[p], p) ^ 0) by {
        let v = stone_hash(s1[p], p);
        assert(v ^ 0 == v) by (bit_vector);
    }
    lemma_hash_toggle(s1, s2, p, 0, 441);
    let hb = board_hash(b);
    let hs1 = board_hash(s1);
    assert(hs1 ^ 0 == hs1) by (bit_vector);
    assert((hb ^ h0) ^ z == hb ^ (h0 ^ z)) by (bit_vector);
}

/// The next vertex of a walk along a proper chain is a stone of the chain's
/// colour that the walk has not met yet.
pub proof fn lemma_proper_chain_next(b: Seq<Vertex>, c: Color, at: int, done: Seq<int>, cur: int, fuel: nat)
    requires
        b.len() == 441,
        links_playable(b),
        is_playable(cur),
        fuel >= 1,
        done + chain_from(b, at, cur, fuel) == chain(b, at),
        proper_chain(b, c, chain(b, at)),
    ensures
        b[cur].has(c),
        !done.contains(cur),
{
    let s = chain_from(b, at, cur, fuel);
    lemma_chain_from_playable(b, at, cur, fuel);
    assert((done + s)[done.len() as int] == cur);
    assert(chain(b, at)[done.len() as int] == cur);
    assert forall|j: int| 0 <= j < done.len() implies done[j] != cur by {
        assert(chain(b, at)[j] == done[j]);
    }
}

/// Minimal representation of a Go board that implements all rules except
/// super-ko. The vertex array is padded with invalid vertices so that the
/// neighbours of every playable vertex lie inside it.
#[derive(Clone, Debug)]
pub struct BoardFast {
    pub vertices: Vec<Vertex>,
}

/// The stones of a chain, as collected by a walk along its links.
pub struct Block {
    pub starting_point: Point,
    pub members: Vec<Point>,
}

impl Block {
    /// Collects the members of the chain through `starting_point`.
    pub fn new(board: &BoardFast, starting_point: Point) -> (r: Block)
        requires
            board.wf(),
            is_playable(starting_point.index as int),
        ensures
            r.starting_point == starting_point,
            r.members@.len() == chain(board.vertices@, starting_point.index as int).len(),
            forall|k: int|
                0 <= k < r.members@.len() ==> (#[trigger] r.members@[k]).index == chain(
                    board.vertices@,
                    starting_point.index as int,
                )[k],
    {
        let ghost b = board.vertices@;
        let at = starting_point.index;
        let mut members: Vec<Point> = Vec::new();
        let mut cur: usize = at;
        let mut fuel: usize = 441;
        let ghost mut done: Seq<int> = seq![];
        proof {
            lemma_chain_from_playable(b, at as int, at as int, 441);
        }
        loop
            invariant_except_break
                1 <= fuel <= 441,
                is_playable(cur as int),
                done + chain_from(b, at as int, cur as int, fuel as nat) == chain(b, at as int),
            invariant
                board.wf(),
                b == board.vertices@,
                is_playable(at as int),
                members@.len() == done.len(),
                forall|k: int| 0 <= k < members@.len() ==> (#[trigger] members@[k]).index == done[k],
            ensures
                done == chain(b, at as int),
            decreases fuel,
        {
            members.push(Point { index: cur });
            let nx = board.vertices[cur].next_point();
            proof {
                lemma_chain_from_playable(b, at as int, nx as int, (fuel - 1) as nat);
                if nx != at {
                    assert(done.push(cur as int) + chain_from(b, at as int, nx as int, (fuel - 1) as nat)
                        =~= done + chain_from(b, at as int, cur as int, fuel as nat));
                } else {
                    assert(done.push(cur as int) =~= done + chain_from(b, at as int, cur as int, fuel as nat));
                }
                done = done.push(cur as int);
            }
            if nx == at || fuel == 1 {
                proof {
                    if nx != at {
                        assert(chain_from(b, at as int, nx as int, 0) =~= seq![]);
                        assert(done + seq![] =~= done);
                    }
                }
                break;
            }
            cur = nx;
            fuel -= 1;
        }
        Block { starting_point, members }
    }

    /// Returns the members of this chain, starting with its starting point.
    pub fn points(&self) -> (r: &Vec<Point>)
        ensures
            r@ == self.members@,
    {
        &self.members
    }
}

impl BoardFast {
    /// The board is well formed: every vertex of the padded array is present,
    /// exactly the playable ones are not padding, and playable vertices link
    /// only to playable vertices.
    pub open spec fn wf(&self) -> bool {
        &&& self.vertices@.len() == 441
        &&& forall|i: int|
            0 <= i < 441 ==> (is_playable(i) <==> (#[trigger] self.vertices@[i]).state != INVALID)
        &&& forall|i: int| 0 <= i < 441 ==> (#[trigger] self.vertices@[i]).state <= INVALID
        &&& links_playable(self.vertices@)
    }

    /// The liberty count stored on the head of the chain through `p`.
    pub open spec fn libs_of(&self, p: int) -> int {
        self.vertices@[self.vertices@[p].head as int].libs as int
    }

    /// The Zobrist delta of removing the chain through `p` as stones of colour `c`.
    pub open spec fn capture_delta(&self, c: Color, p: int) -> u64 {
        xor_all(c, chain(self.vertices@, p))
    }

    /// Returns an empty board.
    pub fn new() -> (r: BoardFast)
        ensures
            r.wf(),
            chains_sound(r.vertices@),
            forall|i: int| is_playable(i) ==> (#[trigger] r.vertices@[i]).state == EMPTY,
    {
        let mut vertices: Vec<Vertex> = Vec::new();
        let mut i: usize = 0;
        while i < Point::MAX
            invariant
                i <= 441,
                vertices@.len() == i,
                forall|j: int|
                    0 <= j < i ==> (is_playable(j) <==> (#[trigger] vertices@[j]).state != INVALID),
                forall|j: int| 0 <= j < i ==> (#[trigger] vertices@[j]).state <= INVALID,
                forall|j: int| 0 <= j < i && is_playable(j) ==> (#[trigger] vertices@[j]).state == EMPTY,
                forall|j: int|
                    #![trigger vertices@[j]]
                    0 <= j < i && is_playable(j) ==> vertices@[j].next == j && vertices@[j].head == j,
            decreases 441 - i,
        {
            if Point::playable(i) {
                let mut v = Vertex::empty();
                v.set_next_point(i);
                v.set_head_point(i);
                vertices.push(v);
            } else {
                vertices.push(Vertex::invalid());
            }
            i += 1;
        }
        BoardFast { vertices }
    }

    /// Returns whether `p` is a vertex of this board (not padding).
    pub fn is_part_of(&self, p: Point) -> (r: bool)
        requires
            self.wf(),
        ensures
            r == is_playable(p.index as int),
    {
        p.index < self.vertices.len() && self.vertices[p.index].is_valid()
    }

    /// Returns the neighbours of `at_point` that are on the board, in the
    /// order north, east, south, west.
    pub fn adjacent_to(&self, at_point: Point) -> (r: Vec<Point>)
        requires
            self.wf(),
            is_playable(at_point.index as int),
        ensures
            r@.len() <= 4,
            forall|k: int| 0 <= k < r@.len() ==> is_playable(#[trigger] r@[k].index as int)
                && adjacent(at_point.index as int, r@[k].index as int),
            forall|k: int|
                0 <= k < 4 && is_playable(nb(at_point.index as int, k)) ==> exists|j: int|
                    0 <= j < r@.len() && r@[j].index == nb(at_point.index as int, k),
    {
        let mut out: Vec<Point> = Vec::new();
        let mut k: usize = 0;
        while k < 4
            invariant
                self.wf(),
                is_playable(at_point.index as int),
                k <= 4,
                out@.len() <= k,
                forall|j: int| 0 <= j < out@.len() ==> is_playable(#[trigger] out@[j].index as int)
                    && adjacent(at_point.index as int, out@[j].index as int),
                forall|m: int|
                    0 <= m < k && is_playable(nb(at_point.index as int, m)) ==> exists|j: int|
                        0 <= j < out@.len() && out@[j].index == nb(at_point.index as int, m),
            decreases 4 - k,
        {
            let n = neighbor(at_point.index, k);
            let ghost before = out@;
            if self.vertices[n].is_valid() {
                out.push(Point { index: n });
                assert(out@[out@.len() - 1].index == nb(at_point.index as int, k as int));
            }
            assert forall|m: int|
                0 <= m < k + 1 && is_playable(nb(at_point.index as int, m)) implies exists|j: int|
                    0 <= j < out@.len() && out@[j].index == nb(at_point.index as int, m) by {
                if m < k {
                    let j = choose|j: int| 0 <= j < before.len() && before[j].index == nb(at_point.index as int, m);
                    assert(out@[j] == before[j]);
                } else {
                    assert(out@[out@.len() - 1].index == nb(at_point.index as int, k as int));
                }
            }
            k += 1;
        }
        out
    }

    /// Returns the stones of the chain through `at_point`.
    pub fn block_at(&self, at_point: Point) -> (r: Block)
        requires
            self.wf(),
            is_playable(at_point.index as int),
        ensures
            r.starting_point == at_point,
            r.members@.len() == chain(self.vertices@, at_point.index as int).len(),
            forall|k: int|
                0 <= k < r.members@.len() ==> (#[trigger] r.members@[k]).index == chain(
                    self.vertices@,
                    at_point.index as int,
                )[k],
    {
        Block::new(self, at_point)
    }

    /// Returns the liberty count of the chain through `at_point`.
    pub fn get_n_liberty(&self, at_point: Point) -> (r: usize)
        requires
            self.wf(),
            is_playable(at_point.index as int),
        ensures
            r == self.libs_of(at_point.index as int),
            chains_sound(self.vertices@) && is_stone(self.vertices@[at_point.index as int]) ==> r == liberty_set(
                self.vertices@,
                self.vertices@[at_point.index as int].head as int,
            ).len() && r > 0,
    {
        let head = self.vertices[at_point.index].head_point();
        self.vertices[head].num_liberties()
    }

    /// Returns whether the chain through `at_point` has at least `n` liberties.
    pub fn has_n_liberty(&self, at_point: Point, n: usize) -> (r: bool)
        requires
            self.wf(),
            is_playable(at_point.index as int),
        ensures
            r == (self.libs_of(at_point.index as int) >= n),
    {
        let head = self.vertices[at_point.index].head_point();
        self.vertices[head].num_liberties() >= n
    }
}


impl BoardFast {
    /// Whether the `k`-th neighbour of `at` makes a move of colour `c` at `at`
    /// legal: it is empty, or it is a friendly chain with at least two
    /// liberties, or an opposing chain with fewer than two.
    pub open spec fn supports(&self, c: Color, at: int, k: int) -> bool {
        let n = nb(at, k);
        let v = self.vertices@[n];
        v.state == EMPTY || (v.state != INVALID && (v.state == code_of(c)) == (self.libs_of(n) >= 2))
    }

    /// Whether a stone of colour `c` may be placed at `at` under
    /// Tromp-Taylor rules without super-ko.
    pub open spec fn is_legal(&self, c: Color, at: int) -> bool {
        &&& self.vertices@[at].state == EMPTY
        &&& exists|k: int| 0 <= k < 4 && self.supports(c, at, k)
    }

    /// Returns one empty neighbour of some member of the chain through
    /// `at_point`, or `None` when the chain touches no empty vertex.
    pub fn get_a_liberty(&self, at_point: Point) -> (r: Option<Point>)
        requires
            self.wf(),
            is_playable(at_point.index as int),
        ensures
            r is Some ==> is_playable(r->0.index as int),
            r is Some ==> self.vertices@[r->0.index as int].state == EMPTY,
            r is Some ==> exists|j: int|
                0 <= j < chain(self.vertices@, at_point.index as int).len() && adjacent(
                    #[trigger] chain(self.vertices@, at_point.index as int)[j],
                    r->0.index as int,
                ),
            r is None ==> forall|j: int|
                0 <= j < chain(self.vertices@, at_point.index as int).len() ==> !touches_empty(
                    self.vertices@,
                    #[trigger] chain(self.vertices@, at_point.index as int)[j],
                ),
    {
        let ghost b = self.vertices@;
        let at = at_point.index;
        let mut cur: usize = at;
        let mut fuel: usize = 441;
        let ghost mut done: Seq<int> = seq![];
        proof {
            lemma_chain_from_playable(b, at as int, at as int, 441);
        }
        loop
            invariant_except_break
                1 <= fuel <= 441,
                is_playable(cur as int),
                done + chain_from(b, at as int, cur as int, fuel as nat) == chain(b, at as int),
            invariant
                self.wf(),
                b == self.vertices@,
                at == at_point.index,
                is_playable(at as int),
                forall|j: int| 0 <= j < done.len() ==> !touches_empty(b, #[trigger] done[j]),
            ensures
                done == chain(b, at as int),
            decreases fuel,
        {
            proof {
                lemma_chain_from_playable(b, at as int, cur as int, fuel as nat);
            }
            let mut k: usize = 0;
            while k < 4
                invariant
                    self.wf(),
                    b == self.vertices@,
                    at == at_point.index,
                    is_playable(cur as int),
                    1 <= fuel <= 441,
                    done + chain_from(b, at as int, cur as int, fuel as nat) == chain(b, at as int),
                    chain_from(b, at as int, cur as int, fuel as nat).len() > 0,
                    chain_from(b, at as int, cur as int, fuel as nat)[0] == cur,
                    k <= 4,
                    forall|m: int| 0 <= m < k ==> (#[trigger] b[nb(cur as int, m)]).state != EMPTY,
                decreases 4 - k,
            {
                let n = neighbor(cur, k);
                if self.vertices[n].is_empty() {
                    proof {
                        let c = chain_from(b, at as int, cur as int, fuel as nat);
                        assert((done + c)[done.len() as int] == c[0]);
                        assert((done + c).len() == done.len() + c.len());
                        assert(done.len() < chain(b, at as int).len());
                        assert(chain(b, at as int)[done.len() as int] == cur);
                        assert(adjacent(chain(b, at as int)[done.len() as int], n as int));
                        assert(is_playable(n as int));
                    }
                    return Some(Point { index: n });
                }
                k += 1;
            }
            let nx = self.vertices[cur].next_point();
            proof {
                lemma_chain_from_playable(b, at as int, nx as int, (fuel - 1) as nat);
                if nx != at {
                    assert(done.push(cur as int) + chain_from(b, at as int, nx as int, (fuel - 1) as nat)
                        =~= done + chain_from(b, at as int, cur as int, fuel as nat));
                } else {
                    assert(done.push(cur as int) =~= done + chain_from(b, at as int, cur as int, fuel as nat));
                }
                done = done.push(cur as int);
            }
            if nx == at || fuel == 1 {
                proof {
                    if nx != at {
                        assert(chain_from(b, at as int, nx as int, 0) =~= seq![]);
                        assert(done + seq![] =~= done);
                    }
                }
                break;
            }
            cur = nx;
            fuel -= 1;
        }
        None
    }
}


impl BoardFast {
    /// Returns whether a stone of colour `color` may be placed at `at_point`
    /// under Tromp-Taylor rules (super-ko aside).
    pub fn is_valid(&self, color: Color, at_point: Point) -> (r: bool)
        requires
            self.wf(),
            is_playable(at_point.index as int),
        ensures
            r == self.is_legal(color, at_point.index as int),
    {
        let at = at_point.index;
        if !self.vertices[at].is_empty() {
            return false;
        }
        let mut k: usize = 0;
        while k < 4
            invariant
                self.wf(),
                is_playable(at as int),
                at == at_point.index,
                self.vertices@[at as int].state == EMPTY,
                k <= 4,
                forall|m: int| 0 <= m < k ==> !self.supports(color, at as int, m),
            decreases 4 - k,
        {
            let n = neighbor(at, k);
            let v = self.vertices[n];
            if v.is_empty() {
                assert(self.supports(color, at as int, k as int));
                return true;
            }
            if v.is_valid() && v.is(color) == self.has_n_liberty(Point { index: n }, 2) {
                assert(self.supports(color, at as int, k as int));
                return true;
            }
            k += 1;
        }
        false
    }

    /// Returns the Zobrist delta that capturing the chain through
    /// `at_point`, as stones of colour `color`, would make.
    pub fn capture_if(&self, color: Color, at_point: Point) -> (r: u64)
        requires
            self.wf(),
            is_playable(at_point.index as int),
        ensures
            r == self.capture_delta(color, at_point.index as int),
    {
        let ghost b = self.vertices@;
        let at = at_point.index;
        let mut adjust: u64 = 0;
        let mut cur: usize = at;
        let mut fuel: usize = 441;
        let ghost mut done: Seq<int> = seq![];
        proof {
            lemma_chain_from_playable(b, at as int, at as int, 441);
        }
        loop
            invariant_except_break
                1 <= fuel <= 441,
                is_playable(cur as int),
                done + chain_from(b, at as int, cur as int, fuel as nat) == chain(b, at as int),
            invariant
                self.wf(),
                b == self.vertices@,
                is_playable(at as int),
                adjust == xor_all(color, done),
            ensures
                done == chain(b, at as int),
            decreases fuel,
        {
            adjust = adjust ^ zobrist::value(color, cur);
            let nx = self.vertices[cur].next_point();
            proof {
                assert(done.push(cur as int).drop_last() =~= done);
                lemma_chain_from_playable(b, at as int, nx as int, (fuel - 1) as nat);
                if nx != at {
                    assert(done.push(cur as int) + chain_from(b, at as int, nx as int, (fuel - 1) as nat)
                        =~= done + chain_from(b, at as int, cur as int, fuel as nat));
                } else {
                    assert(done.push(cur as int) =~= done + chain_from(b, at as int, cur as int, fuel as nat));
                }
                done = done.push(cur as int);
            }
            if nx == at || fuel == 1 {
                proof {
                    if nx != at {
                        assert(chain_from(b, at as int, nx as int, 0) =~= seq![]);
                        assert(done + seq![] =~= done);
                    }
                }
                break;
            }
            cur = nx;
            fuel -= 1;
        }
        adjust
    }

    /// Returns whether one of the first `k` neighbours of `p` is a stone
    /// whose chain has head `h`.
    fn seen_before(&self, p: usize, k: usize, h: usize) -> (r: bool)
        requires
            self.wf(),
            is_playable(p as int),
            k <= 4,
        ensures
            r == exists|j: int|
                0 <= j < k && is_stone(#[trigger] self.vertices@[nb(p as int, j)])
                    && self.vertices@[nb(p as int, j)].head == h,
    {
        let mut j: usize = 0;
        while j < k
            invariant
                self.wf(),
                is_playable(p as int),
                j <= k <= 4,
                forall|m: int|
                    0 <= m < j ==> !(is_stone(#[trigger] self.vertices@[nb(p as int, m)])
                        && self.vertices@[nb(p as int, m)].head == h),
            decreases k - j,
        {
            let n = neighbor(p, j);
            let v = self.vertices[n];
            if v.state != EMPTY && v.state != INVALID && v.head_point() == h {
                assert(is_stone(self.vertices@[nb(p as int, j as int)]));
                return true;
            }
            j += 1;
        }
        false
    }

    /// Raises by one the liberty count of each distinct chain adjacent to
    /// `p`, other than the chain of `p` itself.
    fn incr_adjacent_liberties(&mut self, p: usize)
        requires
            old(self).wf(),
            is_playable(p as int),
        ensures
            final(self).wf(),
            final(self).vertices@.len() == old(self).vertices@.len(),
            forall|i: int|
                0 <= i < 441 ==> #[trigger] final(self).vertices@[i] == if bumps(old(self).vertices@, p as int, i, 4) {
                    inc_libs(old(self).vertices@[i])
                } else {
                    old(self).vertices@[i]
                },
    {
        let ghost b = self.vertices@;
        let head = self.vertices[p].head_point();
        let mut k: usize = 0;
        while k < 4
            invariant
                self.wf(),
                is_playable(p as int),
                b.len() == 441,
                head == b[p as int].head,
                k <= 4,
                self.vertices@.len() == 441,
                forall|i: int|
                    0 <= i < 441 ==> #[trigger] self.vertices@[i] == if bumps(b, p as int, i, k as int) {
                        inc_libs(b[i])
                    } else {
                        b[i]
                    },
            decreases 4 - k,
        {
            let n = neighbor(p, k);
            let v = self.vertices[n];
            proof {
                assert(is_stone(v) == is_stone(b[n as int]));
                assert(v.head == b[n as int].head);
            }
            if v.state != EMPTY && v.state != INVALID {
                let adj_head = v.head_point();
                proof {
                    assert(is_playable(n as int));
                    assert(is_playable(adj_head as int));
                }
                if adj_head != head && !self.seen_before(p, k, adj_head) {
                    proof {
                        assert forall|j: int| 0 <= j < k implies !(is_stone(#[trigger] b[nb(p as int, j)])
                            && b[nb(p as int, j)].head == adj_head) by {
                            let q = nb(p as int, j);
                            assert(is_stone(self.vertices@[q]) == is_stone(b[q]));
                            assert(self.vertices@[q].head == b[q].head);
                        }
                        assert(!bumps(b, p as int, adj_head as int, k as int));
                    }
                    self.vertices[adj_head].add_liberties(1);
                }
            }
            proof {
                assert forall|i: int|
                    0 <= i < 441 implies #[trigger] self.vertices@[i] == if bumps(b, p as int, i, k + 1) {
                        inc_libs(b[i])
                    } else {
                        b[i]
                    } by {
                    if bumps(b, p as int, i, k as int) {
                        assert(bumps(b, p as int, i, k + 1));
                    } else if bumps(b, p as int, i, k + 1) {
                        assert(b[nb(p as int, k as int)].head == i);
                        if is_stone(b[nb(p as int, k as int)]) {
                        }
                    }
                }
            }
            k += 1;
        }
    }

    /// Removes every stone of colour `color` on the chain through `at_point`,
    /// giving a liberty back to each chain next to a removed stone. Returns
    /// the Zobrist delta of the removal.
    #[verifier::rlimit(60)]
    pub fn capture(&mut self, color: Color, at_point: Point) -> (r: u64)
        requires
            old(self).wf(),
            is_playable(at_point.index as int),
        ensures
            final(self).wf(),
            r == old(self).capture_delta(color, at_point.index as int),
            forall|i: int|
                0 <= i < 441 ==> #[trigger] final(self).vertices@[i].next == old(self).vertices@[i].next
                    && final(self).vertices@[i].head == old(self).vertices@[i].head,
            forall|i: int|
                0 <= i < 441 ==> #[trigger] final(self).vertices@[i].state == if chain(old(self).vertices@, at_point.index as int).contains(i)
                    && old(self).vertices@[i].has(color) {
                    EMPTY
                } else {
                    old(self).vertices@[i].state
                },
            proper_chain(old(self).vertices@, color, chain(old(self).vertices@, at_point.index as int))
                ==> r == board_hash(old(self).vertices@) ^ board_hash(final(self).vertices@),
            final(self).vertices@ == removal(old(self).vertices@, color, chain(old(self).vertices@, at_point.index as int)),
    {
        let ghost b = self.vertices@;
        let at = at_point.index;
        let mut hash: u64 = 0;
        let mut cur: usize = at;
        let mut fuel: usize = 441;
        let ghost mut done: Seq<int> = seq![];
        proof {
            lemma_chain_from_playable(b, at as int, at as int, 441);
            let hb = board_hash(b);
            assert(hb ^ 0 == hb) by (bit_vector);
        }
        loop
            invariant_except_break
                1 <= fuel <= 441,
                is_playable(cur as int),
                done + chain_from(b, at as int, cur as int, fuel as nat) == chain(b, at as int),
            invariant
                self.wf(),
                b.len() == 441,
                links_playable(b),
                same_links(b, self.vertices@),
                forall|i: int| 0 <= i < 441 ==> #[trigger] self.vertices@[i].head == b[i].head,
                forall|i: int|
                    0 <= i < 441 ==> #[trigger] self.vertices@[i].state == if done.contains(i) && b[i].has(color) {
                        EMPTY
                    } else {
                        b[i].state
                    },
                is_playable(at as int),
                at == at_point.index,
                hash == xor_all(color, done),
                proper_chain(b, color, chain(b, at as int)) ==> board_hash(self.vertices@) == board_hash(b) ^ hash,
                self.vertices@ == removal(b, color, done),
            ensures
                done == chain(b, at as int),
            decreases fuel,
        {
            let ghost h0 = hash;
            let ghost s0 = self.vertices@;
            proof {
                if proper_chain(b, color, chain(b, at as int)) {
                    lemma_proper_chain_next(b, color, at as int, done, cur as int, fuel as nat);
                }
            }
            let z = zobrist::value(color, cur);
            hash = hash ^ z;
            proof {
                assert(done.push(cur as int).drop_last() =~= done);
            }
            if self.vertices[cur].is(color) {
                self.vertices[cur].set_color(None);
                let ghost s1 = self.vertices@;
                self.incr_adjacent_liberties(cur);
                proof {
                    assert(s1 =~= s0.update(cur as int, Vertex { state: EMPTY, ..s0[cur as int] }));
                    assert(self.vertices@ =~= bump_adjacent(s1, cur as int));
                }
                proof {
                    if proper_chain(b, color, chain(b, at as int)) {
                        assert(s0[cur as int].state == code_of(color));
                        lemma_capture_step(b, s0, s1, self.vertices@, cur as int, color, h0);
                    }
                }
            }
            proof {
                assert forall|i: int|
                    0 <= i < 441 implies #[trigger] self.vertices@[i].state == if done.push(cur as int).contains(i) && b[i].has(color) {
                        EMPTY
                    } else {
                        b[i].state
                    } by {
                    if i == cur {
                        assert(done.push(cur as int)[done.len() as int] == i);
                    } else {
                        assert(done.push(cur as int).contains(i) == done.contains(i)) by {
                            if done.push(cur as int).contains(i) {
                                let w = choose|w: int| 0 <= w < done.len() + 1 && done.push(cur as int)[w] == i;
                                assert(w < done.len());
                                assert(done[w] == i);
                            }
                            if done.contains(i) {
                                let w = choose|w: int| 0 <= w < done.len() && done[w] == i;
                                assert(done.push(cur as int)[w] == i);
                            }
                        }
                    }
                }
            }
            let nx = self.vertices[cur].next_point();
            proof {
                assert(done.push(cur as int).drop_last() =~= done);
                lemma_chain_from_playable(b, at as int, nx as int, (fuel - 1) as nat);
                if nx != at {
                    assert(done.push(cur as int) + chain_from(b, at as int, nx as int, (fuel - 1) as nat)
                        =~= done + chain_from(b, at as int, cur as int, fuel as nat));
                } else {
                    assert(done.push(cur as int) =~= done + chain_from(b, at as int, cur as int, fuel as nat));
                }
                done = done.push(cur as int);
            }
            if nx == at || fuel == 1 {
                proof {
                    if nx != at {
                        assert(chain_from(b, at as int, nx as int, 0) =~= seq![]);
                        assert(done + seq![] =~= done);
                    }
                }
                break;
            }
            cur = nx;
            fuel -= 1;
        }
        proof {
            let hb = board_hash(b);
            let hf = board_hash(self.vertices@);
            assert(hf == hb ^ hash ==> hash == hb ^ hf) by (bit_vector);
        }
        hash
    }
}


/// Whether the empty vertex `l` touches a member of the chain with head `h`
/// (a stone of the same colour as `h` whose head is `h`).
pub open spec fn liberty_of(b: Seq<Vertex>, l: int, h: int) -> bool {
    exists|k: int|
        0 <= k < 4 && (#[trigger] b[nb(l, k)]).state == b[h].state && b[nb(l, k)].head == h
}

/// Whether `e` is a liberty that the chain through `one` brings to the
/// chain with head `h`: an empty vertex next to a member of the first chain
/// that does not already touch the second.
pub open spec fn new_liberty(b: Seq<Vertex>, one: int, h: int, e: int) -> bool {
    &&& 0 <= e < 441
    &&& b[e].state == EMPTY
    &&& !liberty_of(b, e, h)
    &&& exists|j: int| 0 <= j < chain(b, one).len() && adjacent(#[trigger] chain(b, one)[j], e)
}

/// The liberties that the chain through `one` brings to the chain with head `h`.
pub open spec fn new_liberties(b: Seq<Vertex>, one: int, h: int) -> Set<int> {
    Set::new(|e: int| new_liberty(b, one, h, e))
}

/// The liberty count `l`, less the liberty filled by a merge, plus `n`
/// new liberties, stopping at zero and at `u16::MAX`.
pub open spec fn merged_libs(l: u16, n: nat) -> u16 {
    let base = if l >= 1 { l - 1 } else { 0 };
    if base + n <= u16::MAX { (base + n) as u16 } else { u16::MAX }
}

/// `b` after merging the chain through `one` into the chain through `two`.
pub open spec fn join_effect(b: Seq<Vertex>, one: int, two: int) -> Seq<Vertex> {
    let h2 = b[two].head as int;
    if b[one].head == b[two].head {
        b
    } else {
        Seq::new(
            441,
            |i: int|
                Vertex {
                    state: b[i].state,
                    next: if i == two { b[one].next } else if i == one { b[two].next } else { b[i].next },
                    head: if chain(b, one).contains(i) { h2 as u16 } else { b[i].head },
                    libs: if i == h2 { merged_libs(b[h2].libs, new_liberties(b, one, h2).len()) } else { b[i].libs },
                    visited: b[i].visited,
                },
        )
    }
}

/// Number of the first `k` neighbours of `at` that are empty.
pub open spec fn empty_count(b: Seq<Vertex>, at: int, k: int) -> nat
    decreases k,
{
    if k <= 0 {
        0
    } else {
        empty_count(b, at, k - 1) + if b[nb(at, k - 1)].state == EMPTY { 1nat } else { 0nat }
    }
}

/// `b` with a lone stone of colour `c` written at `at`: its own chain and
/// head, with its empty neighbours as liberties.
pub open spec fn place_start(b: Seq<Vertex>, c: Color, at: int) -> Seq<Vertex> {
    b.update(
        at,
        Vertex { state: code_of(c), next: at as u16, head: at as u16, libs: empty_count(b, at, 4) as u16, visited: true },
    )
}

/// One neighbour step of a move of colour `c` at `at`, on `b` with the
/// opposing heads already handled in `seen`: a friendly neighbour is
/// merged; a new opposing head loses a liberty and is removed when it has
/// none left. Gives the new vertices, heads and Zobrist delta.
pub open spec fn place_step(b: Seq<Vertex>, c: Color, at: int, seen: Seq<usize>, k: int) -> (Seq<Vertex>, Seq<usize>, u64) {
    let n = nb(at, k);
    let opp = c.opposite_spec();
    if b[n].has(c) {
        (join_effect(b, at, n), seen, 0u64)
    } else if b[n].has(opp) {
        let h = b[n].head as usize;
        if seen.contains(h) {
            (b, seen, 0u64)
        } else {
            let b1 = b.update(h as int, Vertex { libs: if b[h as int].libs >= 1 { (b[h as int].libs - 1) as u16 } else { 0 }, ..b[h as int] });
            if b1[b1[h as int].head as int].libs >= 1 {
                (b1, seen.push(h), 0u64)
            } else {
                (removal(b1, opp, chain(b1, h as int)), seen.push(h), xor_all(opp, chain(b1, h as int)))
            }
        }
    } else {
        (b, seen, 0u64)
    }
}

/// The state of a move of colour `c` at `at` on `b` after its first `k`
/// neighbour steps: vertices, opposing heads handled, and Zobrist delta.
pub open spec fn place_upto(b: Seq<Vertex>, c: Color, at: int, k: nat) -> (Seq<Vertex>, Seq<usize>, u64)
    decreases k,
{
    if k == 0 {
        (place_start(b, c, at), seq![], zobrist_value(c, at))
    } else {
        let prev = place_upto(b, c, at, (k - 1) as nat);
        let st = place_step(prev.0, c, at, prev.1, k - 1);
        (st.0, st.1, prev.2 ^ st.2)
    }
}

/// Whether `e` is an empty vertex, not touching the chain with head `h`,
/// next to one of the vertices `done` or to one of the first `k` neighbours
/// of `cur`.
pub open spec fn found_liberty(b: Seq<Vertex>, h: int, done: Seq<int>, cur: int, k: int, e: int) -> bool {
    &&& b[e].state == EMPTY
    &&& !liberty_of(b, e, h)
    &&& ((exists|j: int| 0 <= j < done.len() && adjacent(#[trigger] done[j], e)) || (exists|m: int|
        0 <= m < k && nb(cur, m) == e))
}

impl BoardFast {
    /// Returns whether `liberty` touches a member of the chain whose head is `block_at`.
    fn is_liberty_of(&self, liberty: usize, block_at: usize) -> (r: bool)
        requires
            self.wf(),
            is_playable(liberty as int),
            is_playable(block_at as int),
        ensures
            r == liberty_of(self.vertices@, liberty as int, block_at as int),
    {
        let block_state = self.vertices[block_at].state;
        let mut k: usize = 0;
        while k < 4
            invariant
                self.wf(),
                is_playable(liberty as int),
                is_playable(block_at as int),
                block_state == self.vertices@[block_at as int].state,
                k <= 4,
                forall|m: int|
                    0 <= m < k ==> !((#[trigger] self.vertices@[nb(liberty as int, m)]).state == block_state
                        && self.vertices@[nb(liberty as int, m)].head == block_at),
            decreases 4 - k,
        {
            let n = neighbor(liberty, k);
            let v = self.vertices[n];
            if v.state == block_state && v.head_point() == block_at {
                assert(self.vertices@[nb(liberty as int, k as int)] == v);
                return true;
            }
            k += 1;
        }
        false
    }

    /// Merges the chain through `one` into the chain through `two`. The head
    /// of `two` stays head; it loses the liberty that `one` filled and gains
    /// every empty neighbour of the first chain that it did not have yet. The
    /// two circular lists are spliced into one.
    fn join_blocks(&mut self, one: usize, two: usize)
        requires
            old(self).wf(),
            is_playable(one as int),
            is_playable(two as int),
        ensures
            final(self).wf(),
            final(self).vertices@ == join_effect(old(self).vertices@, one as int, two as int),
            ({
                let b = old(self).vertices@;
                let f = final(self).vertices@;
                let head_two = b[two as int].head as int;
                if b[one as int].head == b[two as int].head {
                    f == b
                } else {
                    &&& f[two as int].next == b[one as int].next
                    &&& f[one as int].next == b[two as int].next
                    &&& f[head_two].libs == merged_libs(b[head_two].libs, new_liberties(b, one as int, head_two).len())
                    &&& forall|i: int|
                        0 <= i < 441 ==> (#[trigger] f[i]).state == b[i].state
                            && (i != one && i != two ==> f[i].next == b[i].next)
                            && (i != head_two ==> f[i].libs == b[i].libs)
                            && f[i].head == if chain(b, one as int).contains(i) {
                                head_two as u16
                            } else {
                                b[i].head
                            }
                }
            }),
    {
        let head_one = self.vertices[one].head_point();
        let head_two = self.vertices[two].head_point();
        if head_one == head_two {
            return;
        }
        let ghost b0 = self.vertices@;
        self.vertices[head_two].sub_liberties(1);
        let ghost b = self.vertices@;
        proof {
            assert(same_links(b0, b));
            lemma_chain_from_same_links(b0, b, one as int, one as int, 441);
        }
        let mut already_added: Vec<bool> = vec![false; 441];
        let mut num_additional_liberties: usize = 0;
        let mut cur: usize = one;
        let mut fuel: usize = 441;
        let ghost mut done: Seq<int> = seq![];
        let ghost mut added: Set<int> = Set::empty();
        proof {
            lemma_chain_from_playable(b, one as int, one as int, 441);
        }
        loop
            invariant_except_break
                1 <= fuel <= 441,
                done.len() + fuel == 441,
                is_playable(cur as int),
                done + chain_from(b, one as int, cur as int, fuel as nat) == chain(b, one as int),
            invariant
                self.wf(),
                self.vertices@ == b,
                is_playable(one as int),
                is_playable(head_two as int),
                already_added@.len() == 441,
                done.len() <= 441,
                num_additional_liberties <= 4 * done.len(),
                added.finite(),
                num_additional_liberties == added.len(),
                forall|e: int| 0 <= e < 441 ==> (#[trigger] added.contains(e) == already_added@[e]),
                forall|e: int| added.contains(e) ==> 0 <= e < 441,
                forall|e: int| 0 <= e < 441 ==> (#[trigger] already_added@[e] == found_liberty(b, head_two as int, done, 0, 0, e)),
            ensures
                done == chain(b, one as int),
            decreases fuel,
        {
            let mut k: usize = 0;
            while k < 4
                invariant
                    self.wf(),
                    self.vertices@ == b,
                    is_playable(cur as int),
                    is_playable(head_two as int),
                    already_added@.len() == 441,
                    done.len() < 441,
                    k <= 4,
                    num_additional_liberties <= 4 * done.len() + k,
                    added.finite(),
                    num_additional_liberties == added.len(),
                    forall|e: int| 0 <= e < 441 ==> (#[trigger] added.contains(e) == already_added@[e]),
                    forall|e: int| added.contains(e) ==> 0 <= e < 441,
                    forall|e: int|
                        0 <= e < 441 ==> (#[trigger] already_added@[e] == found_liberty(b, head_two as int, done, cur as int, k as int, e)),
                decreases 4 - k,
            {
                let n = neighbor(cur, k);
                if self.vertices[n].is_empty() && !already_added[n] && !self.is_liberty_of(n, head_two) {
                    already_added[n] = true;
                    num_additional_liberties += 1;
                    proof {
                        added = added.insert(n as int);
                    }
                }
                proof {
                    assert forall|e: int|
                        0 <= e < 441 implies (#[trigger] already_added@[e] == found_liberty(b, head_two as int, done, cur as int, k + 1, e)) by {
                        if found_liberty(b, head_two as int, done, cur as int, k as int, e) {
                            assert(found_liberty(b, head_two as int, done, cur as int, k + 1, e));
                        }
                        if e == n {
                            if b[e].state == EMPTY && !liberty_of(b, e, head_two as int) {
                                assert(found_liberty(b, head_two as int, done, cur as int, k + 1, e));
                            }
                        } else if found_liberty(b, head_two as int, done, cur as int, k + 1, e) {
                            if !(exists|j: int| 0 <= j < done.len() && adjacent(#[trigger] done[j], e)) {
                                let m = choose|m: int| 0 <= m < k + 1 && nb(cur as int, m) == e;
                                assert(m != k);
                                assert(found_liberty(b, head_two as int, done, cur as int, k as int, e));
                            }
                        }
                    }
                }
                k += 1;
            }
            proof {
                assert forall|e: int|
                    0 <= e < 441 implies (#[trigger] already_added@[e] == found_liberty(b, head_two as int, done.push(cur as int), 0, 0, e)) by {
                    let d2 = done.push(cur as int);
                    if found_liberty(b, head_two as int, done, cur as int, 4, e) {
                        if exists|j: int| 0 <= j < done.len() && adjacent(#[trigger] done[j], e) {
                            let j = choose|j: int| 0 <= j < done.len() && adjacent(#[trigger] done[j], e);
                            assert(d2[j] == done[j]);
                        } else {
                            let m = choose|m: int| 0 <= m < 4 && nb(cur as int, m) == e;
                            assert(d2[done.len() as int] == cur);
                            assert(adjacent(d2[done.len() as int], e));
                        }
                        assert(found_liberty(b, head_two as int, d2, 0, 0, e));
                    }
                    if found_liberty(b, head_two as int, d2, 0, 0, e) {
                        let j = choose|j: int| 0 <= j < d2.len() && adjacent(#[trigger] d2[j], e);
                        if j < done.len() {
                            assert(d2[j] == done[j]);
                            assert(adjacent(done[j], e));
                        } else {
                            let m = choose|m: int| 0 <= m < 4 && nb(cur as int, m) == e;
                        }
                        assert(found_liberty(b, head_two as int, done, cur as int, 4, e));
                    }
                }
            }
            let nx = self.vertices[cur].next_point();
            proof {
                lemma_chain_from_playable(b, one as int, nx as int, (fuel - 1) as nat);
                if nx != one {
                    assert(done.push(cur as int) + chain_from(b, one as int, nx as int, (fuel - 1) as nat)
                        =~= done + chain_from(b, one as int, cur as int, fuel as nat));
                } else {
                    assert(done.push(cur as int) =~= done + chain_from(b, one as int, cur as int, fuel as nat));
                }
                done = done.push(cur as int);
            }
            if nx == one || fuel == 1 {
                proof {
                    if nx != one {
                        assert(chain_from(b, one as int, nx as int, 0) =~= seq![]);
                        assert(done + seq![] =~= done);
                    }
                }
                break;
            }
            cur = nx;
            fuel -= 1;
        }

        proof {
            assert(added =~= new_liberties(b, one as int, head_two as int)) by {
                assert forall|e: int| added.contains(e) implies new_liberty(b, one as int, head_two as int, e) by {
                    assert(found_liberty(b, head_two as int, done, 0, 0, e));
                }
                assert forall|e: int| new_liberty(b, one as int, head_two as int, e) implies added.contains(e) by {
                    assert(found_liberty(b, head_two as int, done, 0, 0, e));
                }
            }
            assert(forall|x: int| 0 <= x < 441 ==> (#[trigger] b[x]).state == b0[x].state && b[x].head == b0[x].head);
            assert forall|e: int| #![trigger liberty_of(b0, e, head_two as int)]
                0 <= e < 441 && b[e].state == EMPTY implies liberty_of(b0, e, head_two as int) == liberty_of(b, e, head_two as int) by {
                assert(is_playable(e));
                if liberty_of(b, e, head_two as int) {
                    let k = choose|k: int| 0 <= k < 4 && (#[trigger] b[nb(e, k)]).state == b[head_two as int].state && b[nb(e, k)].head == head_two;
                    assert(b0[nb(e, k)].state == b[nb(e, k)].state);
                }
                if liberty_of(b0, e, head_two as int) {
                    let k = choose|k: int| 0 <= k < 4 && (#[trigger] b0[nb(e, k)]).state == b0[head_two as int].state && b0[nb(e, k)].head == head_two;
                    assert(b0[nb(e, k)].state == b[nb(e, k)].state);
                }
            }
            assert(chain(b0, one as int) == chain(b, one as int));
            assert forall|e: int| #[trigger] new_liberty(b0, one as int, head_two as int, e) == new_liberty(b, one as int, head_two as int, e) by {
                if 0 <= e < 441 && b[e].state == EMPTY {
                    assert(liberty_of(b0, e, head_two as int) == liberty_of(b, e, head_two as int));
                }
            }
            assert(new_liberties(b0, one as int, head_two as int) =~= new_liberties(b, one as int, head_two as int));
        }
        // every member of the first chain now belongs to the second
        cur = one;
        fuel = 441;
        proof {
            done = seq![];
        }
        loop
            invariant_except_break
                1 <= fuel <= 441,
                is_playable(cur as int),
                done + chain_from(b, one as int, cur as int, fuel as nat) == chain(b, one as int),
            invariant
                self.wf(),
                self.vertices@.len() == 441,
                b.len() == 441,
                b0.len() == 441,
                links_playable(b),
                same_links(b0, b),
                forall|i: int| 0 <= i < 441 && i != head_two ==> (#[trigger] b[i]) == b0[i],
                is_playable(one as int),
                is_playable(head_two as int),
                head_two == b0[two as int].head,
                forall|i: int|
                    0 <= i < 441 ==> (#[trigger] self.vertices@[i]).state == b[i].state
                        && self.vertices@[i].next == b[i].next
                        && self.vertices@[i].libs == b[i].libs
                        && self.vertices@[i].visited == b[i].visited
                        && self.vertices@[i].head == if done.contains(i) {
                            head_two as u16
                        } else {
                            b[i].head
                        },
            ensures
                done == chain(b, one as int),
            decreases fuel,
        {
            self.vertices[cur].set_head_point(head_two);
            proof {
                assert forall|i: int| 0 <= i < 441 implies (#[trigger] self.vertices@[i]).head == if done.push(cur as int).contains(i) {
                    head_two as u16
                } else {
                    b[i].head
                } by {
                    lemma_push_contains(done, cur as int, i);
                }
            }
            let nx = self.vertices[cur].next_point();
            proof {
                lemma_chain_from_playable(b, one as int, nx as int, (fuel - 1) as nat);
                if nx != one {
                    assert(done.push(cur as int) + chain_from(b, one as int, nx as int, (fuel - 1) as nat)
                        =~= done + chain_from(b, one as int, cur as int, fuel as nat));
                } else {
                    assert(done.push(cur as int) =~= done + chain_from(b, one as int, cur as int, fuel as nat));
                }
                done = done.push(cur as int);
            }
            if nx == one || fuel == 1 {
                proof {
                    if nx != one {
                        assert(chain_from(b, one as int, nx as int, 0) =~= seq![]);
                        assert(done + seq![] =~= done);
                    }
                }
                break;
            }
            cur = nx;
            fuel -= 1;
        }
        self.vertices[head_two].add_liberties(num_additional_liberties);

        // splice the two circular lists into one
        let one_next = self.vertices[one].next_point();
        let two_next = self.vertices[two].next_point();
        self.vertices[two].set_next_point(one_next);
        self.vertices[one].set_next_point(two_next);
        proof {
            assert(self.vertices@ =~= join_effect(b0, one as int, two as int));
        }
    }
}


impl BoardFast {
    /// Whether the `k`-th neighbour of `at` is an opposing stone whose chain
    /// has fewer than two liberties, so that a stone of colour `c` at `at`
    /// captures it.
    pub open spec fn captures_at(&self, c: Color, at: int, k: int) -> bool {
        let n = nb(at, k);
        self.vertices@[n].has(c.opposite_spec()) && self.libs_of(n) < 2
    }

    /// The head of the chain of the `k`-th neighbour of `at`.
    pub open spec fn nb_head(&self, at: int, k: int) -> int {
        self.vertices@[nb(at, k)].head as int
    }

    /// Whether the `k`-th neighbour of `at` is captured and is the first
    /// neighbour on its chain.
    pub open spec fn first_capture(&self, c: Color, at: int, k: int) -> bool {
        &&& self.captures_at(c, at, k)
        &&& forall|j: int|
            0 <= j < k ==> !(#[trigger] self.captures_at(c, at, j) && self.nb_head(at, j) == self.nb_head(at, k))
    }

    /// The Zobrist delta of a stone of colour `c` at `at` and of the chains
    /// that it captures among the first `k` neighbours.
    pub open spec fn place_delta_upto(&self, c: Color, at: int, k: nat) -> u64
        decreases k,
    {
        if k == 0 {
            zobrist_value(c, at)
        } else {
            let prev = self.place_delta_upto(c, at, (k - 1) as nat);
            if self.first_capture(c, at, k - 1) {
                prev ^ self.capture_delta(c.opposite_spec(), self.nb_head(at, k - 1))
            } else {
                prev
            }
        }
    }

    /// The Zobrist delta of placing a stone of colour `c` at `at`.
    pub open spec fn place_delta(&self, c: Color, at: int) -> u64 {
        self.place_delta_upto(c, at, 4)
    }

    /// Returns the Zobrist delta that placing a stone of colour `color` at
    /// `at_point` would make: the placed stone and every stone of each
    /// adjacent opposing chain that has a single liberty left.
    pub fn place_if(&self, color: Color, at_point: Point) -> (r: u64)
        requires
            self.wf(),
            is_playable(at_point.index as int),
        ensures
            r == self.place_delta(color, at_point.index as int),
    {
        let at = at_point.index;
        let opponent = color.opposite();
        let mut adjust: u64 = zobrist::value(color, at);
        let mut k: usize = 0;
        while k < 4
            invariant
                self.wf(),
                is_playable(at as int),
                at == at_point.index,
                opponent == color.opposite_spec(),
                k <= 4,
                adjust == self.place_delta_upto(color, at as int, k as nat),
            decreases 4 - k,
        {
            let n = neighbor(at, k);
            let v = self.vertices[n];
            if v.is(opponent) && !self.has_n_liberty(Point { index: n }, 2) {
                let head = v.head_point();
                let mut dup = false;
                let mut j: usize = 0;
                while j < k
                    invariant
                        self.wf(),
                        is_playable(at as int),
                        j <= k < 4,
                        head == self.nb_head(at as int, k as int),
                        opponent == color.opposite_spec(),
                        dup == exists|m: int|
                            0 <= m < j && #[trigger] self.captures_at(color, at as int, m)
                                && self.nb_head(at as int, m) == head,
                    decreases k - j,
                {
                    let m = neighbor(at, j);
                    let w = self.vertices[m];
                    if w.is(opponent) && !self.has_n_liberty(Point { index: m }, 2) && w.head_point() == head {
                        assert(self.captures_at(color, at as int, j as int));
                        dup = true;
                    }
                    j += 1;
                }
                if !dup {
                    proof {
                        assert(is_playable(n as int));
                        assert(is_playable(head as int));
                    }
                    adjust = adjust ^ self.capture_if(opponent, Point { index: head });
                }
            }
            k += 1;
        }
        adjust
    }

    /// Returns whether `h` is among the first entries of `seen`.
    fn seen_contains(seen: &Vec<usize>, h: usize) -> (r: bool)
        ensures
            r == seen@.contains(h),
    {
        let mut i: usize = 0;
        while i < seen.len()
            invariant
                i <= seen@.len(),
                forall|m: int| 0 <= m < i ==> seen@[m] != h,
            decreases seen@.len() - i,
        {
            if seen[i] == h {
                return true;
            }
            i += 1;
        }
        false
    }

    /// Places a stone of colour `color` at `at_point`: the stone joins every
    /// adjacent friendly chain, and every adjacent opposing chain that loses
    /// its last liberty is captured. Returns the Zobrist delta of the move.
    pub fn place(&mut self, color: Color, at_point: Point) -> (r: u64)
        requires
            old(self).wf(),
            is_playable(at_point.index as int),
            old(self).is_legal(color, at_point.index as int),
        ensures
            final(self).wf(),
            final(self).vertices@[at_point.index as int].state == code_of(color),
            forall|i: int|
                0 <= i < 441 && i != at_point.index ==> (#[trigger] final(self).vertices@[i]).state
                    == old(self).vertices@[i].state || (old(self).vertices@[i].has(color.opposite_spec())
                    && final(self).vertices@[i].state == EMPTY),
            final(self).vertices@ == place_upto(old(self).vertices@, color, at_point.index as int, 4).0,
            r == place_upto(old(self).vertices@, color, at_point.index as int, 4).2,
    {
        let ghost b0 = self.vertices@;
        let at = at_point.index;
        let mut num_immediate_liberties: usize = 0;
        let mut k: usize = 0;
        while k < 4
            invariant
                self.wf(),
                is_playable(at as int),
                k <= 4,
                num_immediate_liberties <= k,
                b0 == self.vertices@,
                num_immediate_liberties == empty_count(b0, at as int, k as int),
            decreases 4 - k,
        {
            if self.vertices[neighbor(at, k)].is_empty() {
                num_immediate_liberties += 1;
            }
            k += 1;
        }
        self.vertices[at].set_color(Some(color));
        self.vertices[at].set_next_point(at);
        self.vertices[at].set_head_point(at);
        self.vertices[at].set_liberties(num_immediate_liberties);
        self.vertices[at].set_visited(true);
        proof {
            assert(self.vertices@ =~= place_start(b0, color, at as int));
        }

        let mut hash: u64 = zobrist::value(color, at);
        let opponent = color.opposite();
        let mut seen: Vec<usize> = Vec::new();
        k = 0;
        while k < 4
            invariant
                self.wf(),
                is_playable(at as int),
                at == at_point.index,
                opponent == color.opposite_spec(),
                k <= 4,
                b0.len() == 441,
                self.vertices@[at as int].state == code_of(color),
                forall|i: int|
                    0 <= i < 441 && i != at ==> (#[trigger] self.vertices@[i]).state == b0[i].state
                        || (b0[i].has(opponent) && self.vertices@[i].state == EMPTY),
                self.vertices@ == place_upto(b0, color, at as int, k as nat).0,
                seen@ == place_upto(b0, color, at as int, k as nat).1,
                hash == place_upto(b0, color, at as int, k as nat).2,
            decreases 4 - k,
        {
            let ghost hk = hash;
            proof {
                assert(hk ^ 0u64 == hk) by (bit_vector);
            }
            let n = neighbor(at, k);
            let v = self.vertices[n];
            if v.is(color) {
                self.join_blocks(at, n);
            } else if v.is(opponent) {
                let head = v.head_point();
                proof {
                    assert(is_playable(n as int));
                    assert(is_playable(head as int));
                }
                if !Self::seen_contains(&seen, head) {
                    self.vertices[head].sub_liberties(1);
                    seen.push(head);
                    if !self.has_n_liberty(Point { index: head }, 1) {
                        hash = hash ^ self.capture(opponent, Point { index: head });
                    }
                }
            }
            k += 1;
        }
        hash
    }
}

} // verus!

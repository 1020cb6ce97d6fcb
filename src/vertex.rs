use vstd::prelude::*;
use crate::color::Color;

verus! {

/// Code of an empty vertex.
pub const EMPTY: u8 = 0;
/// Code of a vertex holding a black stone.
pub const BLACK: u8 = 1;
/// Code of a vertex holding a white stone.
pub const WHITE: u8 = 2;
/// Code of a padding vertex.
pub const INVALID: u8 = 3;

/// The code that a stone of colour `c` is stored under.
pub open spec fn code_of(c: Color) -> u8 {
    match c {
        Color::Black => BLACK,
        Color::White => WHITE,
    }
}

/// The state of one vertex: its colour, its link to the next member of its
/// chain, the chain's head, the liberty count (meaningful on heads only), and
/// a scratch flag.
#[derive(Clone, Copy, Debug, PartialEq, Eq, Structural)]
pub struct Vertex {
    pub state: u8,
    pub next: u16,
    pub head: u16,
    pub libs: u16,
    pub visited: bool,
}

impl Vertex {
    /// The colour of the stone on this vertex, if any.
    pub open spec fn color_spec(self) -> Option<Color> {
        if self.state == BLACK {
            Some(Color::Black)
        } else if self.state == WHITE {
            Some(Color::White)
        } else {
            None
        }
    }

    /// Whether this vertex holds a stone of colour `c`.
    pub open spec fn has(self, c: Color) -> bool {
        self.state == code_of(c)
    }

    /// An empty playable vertex with its chain fields cleared.
    pub fn empty() -> (r: Vertex)
        ensures
            r.state == EMPTY,
    {
        Vertex { state: EMPTY, next: 0, head: 0, libs: 0, visited: false }
    }

    /// A padding vertex.
    pub fn invalid() -> (r: Vertex)
        ensures
            r.state == INVALID,
    {
        Vertex { state: INVALID, next: 0, head: 0, libs: 0, visited: false }
    }

    /// Whether this vertex is part of the board (not padding).
    pub fn is_valid(&self) -> (r: bool)
        ensures
            r == (self.state != INVALID),
    {
        self.state != INVALID
    }

    /// Returns the colour of the stone on this vertex, if any.
    pub fn color(&self) -> (r: Option<Color>)
        ensures
            r == self.color_spec(),
    {
        if self.state == BLACK {
            Some(Color::Black)
        } else if self.state == WHITE {
            Some(Color::White)
        } else {
            None
        }
    }

    /// Returns whether this vertex holds no stone and is not padding.
    pub fn is_empty(&self) -> (r: bool)
        ensures
            r == (self.state == EMPTY),
    {
        self.state == EMPTY
    }

    /// Returns whether this vertex holds a stone of colour `c`.
    pub fn is(&self, c: Color) -> (r: bool)
        ensures
            r == self.has(c),
    {
        match c {
            Color::Black => self.state == BLACK,
            Color::White => self.state == WHITE,
        }
    }

    /// Puts a stone of colour `c` on this vertex, or empties it.
    pub fn set_color(&mut self, c: Option<Color>)
        ensures
            final(self).state == match c {
                Some(k) => code_of(k),
                None => EMPTY,
            },
            final(self).next == old(self).next,
            final(self).head == old(self).head,
            final(self).libs == old(self).libs,
            final(self).visited == old(self).visited,
    {
        self.state = match c {
            Some(Color::Black) => BLACK,
            Some(Color::White) => WHITE,
            None => EMPTY,
        };
    }

    /// Index of the next member of this vertex's chain.
    pub fn next_point(&self) -> (r: usize)
        ensures
            r == self.next,
    {
        self.next as usize
    }

    /// Sets the index of the next member of this vertex's chain.
    pub fn set_next_point(&mut self, p: usize)
        requires
            p < 441,
        ensures
            *final(self) == (Vertex { next: p as u16, ..*old(self) }),
    {
        self.next = p as u16;
    }

    /// Index of the head of this vertex's chain.
    pub fn head_point(&self) -> (r: usize)
        ensures
            r == self.head,
    {
        self.head as usize
    }

    /// Sets the index of the head of this vertex's chain.
    pub fn set_head_point(&mut self, p: usize)
        requires
            p < 441,
        ensures
            *final(self) == (Vertex { head: p as u16, ..*old(self) }),
    {
        self.head = p as u16;
    }

    /// The liberty count stored on this vertex.
    pub fn num_liberties(&self) -> (r: usize)
        ensures
            r == self.libs,
    {
        self.libs as usize
    }

    /// Sets the liberty count stored on this vertex.
    pub fn set_liberties(&mut self, n: usize)
        requires
            n <= 4,
        ensures
            *final(self) == (Vertex { libs: n as u16, ..*old(self) }),
    {
        self.libs = n as u16;
    }

    /// Adds `k` to the liberty count; the count stops at `u16::MAX`.
    pub fn add_liberties(&mut self, k: usize)
        ensures
            *final(self) == (Vertex {
                libs: if old(self).libs + k <= u16::MAX { (old(self).libs + k) as u16 } else { u16::MAX },
                ..*old(self)
            }),
    {
        if k <= (u16::MAX - self.libs) as usize {
            self.libs = self.libs + k as u16;
        } else {
            self.libs = u16::MAX;
        }
    }

    /// Removes `k` from the liberty count; the count stops at zero.
    pub fn sub_liberties(&mut self, k: usize)
        ensures
            *final(self) == (Vertex {
                libs: if old(self).libs >= k { (old(self).libs - k) as u16 } else { 0 },
                ..*old(self)
            }),
    {
        if k <= self.libs as usize {
            self.libs = self.libs - k as u16;
        } else {
            self.libs = 0;
        }
    }

    /// The scratch flag.
    pub fn visited(&self) -> (r: bool)
        ensures
            r == self.visited,
    {
        self.visited
    }

    /// Sets the scratch flag.
    pub fn set_visited(&mut self, v: bool)
        ensures
            *final(self) == (Vertex { visited: v, ..*old(self) }),
    {
        self.visited = v;
    }
}

} // verus!

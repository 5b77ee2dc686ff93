//! Life cell neighborhood enumerator.

use vstd::prelude::*;

verus! {

/// The coordinate at offset `(dr, dc)` from `x`, if it lies inside `(0, 0)..rx`
/// and is not `x` itself.
pub open spec fn offset_cell(x: (usize, usize), rx: (usize, usize), dr: int, dc: int) -> Option<
    (usize, usize),
> {
    let r = x.0 + dr;
    let c = x.1 + dc;
    if 0 <= r < rx.0 && 0 <= c < rx.1 && !(dr == 0 && dc == 0) {
        Some((r as usize, c as usize))
    } else {
        None
    }
}

/// The neighbors of `x` produced from cursor position `k` on, where the nine
/// offsets of the 3x3 block are numbered row by row from 0 to 8.
pub open spec fn neighbors_from(x: (usize, usize), rx: (usize, usize), k: int) -> Seq<
    (usize, usize),
>
    decreases 9 - k,
{
    if k < 0 || k >= 9 {
        Seq::empty()
    } else {
        let rest = neighbors_from(x, rx, k + 1);
        match offset_cell(x, rx, k / 3 - 1, k % 3 - 1) {
            Some(p) => seq![p] + rest,
            None => rest,
        }
    }
}

/// All neighbors of `x` within `(0, 0)..rx`, in row-major order.
pub open spec fn neighbors(x: (usize, usize), rx: (usize, usize)) -> Seq<(usize, usize)> {
    neighbors_from(x, rx, 0)
}

/// `p` is one of the up to eight cells adjacent to `x` (diagonals included)
/// that lie inside `(0, 0)..rx`.
pub open spec fn is_neighbor(x: (usize, usize), rx: (usize, usize), p: (usize, usize)) -> bool {
    &&& p.0 < rx.0
    &&& p.1 < rx.1
    &&& x.0 - 1 <= p.0 <= x.0 + 1
    &&& x.1 - 1 <= p.1 <= x.1 + 1
    &&& p != x
}

/// Position of the offset from `x` to `p` in the row-by-row numbering of the block.
pub open spec fn offset_index(x: (usize, usize), p: (usize, usize)) -> int {
    (p.0 - x.0 + 1) * 3 + (p.1 - x.1 + 1)
}

proof fn lemma_neighbors_from(x: (usize, usize), rx: (usize, usize), k: int)
    requires
        0 <= k <= 9,
    ensures
        ({
            let s = neighbors_from(x, rx, k);
            &&& s.len() <= 9 - k - (if k <= 4 { 1int } else { 0 })
            &&& forall|i: int| 0 <= i < s.len() ==> is_neighbor(x, rx, #[trigger] s[i])
            &&& forall|i: int| 0 <= i < s.len() ==> k <= offset_index(x, #[trigger] s[i])
            &&& forall|i: int, j: int|
                0 <= i < j < s.len() ==> offset_index(x, #[trigger] s[i]) < offset_index(
                    x,
                    #[trigger] s[j],
                )
            &&& forall|p: (usize, usize)|
                is_neighbor(x, rx, p) && k <= offset_index(x, p) ==> #[trigger] s.contains(p)
        }),
    decreases 9 - k,
{
    if k < 9 {
        lemma_neighbors_from(x, rx, k + 1);
        let rest = neighbors_from(x, rx, k + 1);
        let s = neighbors_from(x, rx, k);
        let dr = k / 3 - 1;
        let dc = k % 3 - 1;
        assert(-1 <= dr <= 1 && -1 <= dc <= 1 && (dr + 1) * 3 + (dc + 1) == k);
        match offset_cell(x, rx, dr, dc) {
            Some(p) => {
                assert(s == seq![p] + rest);
                assert(offset_index(x, p) == k);
                assert forall|i: int| 0 <= i < s.len() implies is_neighbor(x, rx, #[trigger] s[i])
                    && k <= offset_index(x, s[i]) by {
                    if i > 0 {
                        assert(s[i] == rest[i - 1]);
                    }
                }
                assert forall|i: int, j: int|
                    0 <= i < j < s.len() implies offset_index(x, #[trigger] s[i]) < offset_index(
                    x,
                    #[trigger] s[j],
                ) by {
                    assert(s[j] == rest[j - 1]);
                    if i > 0 {
                        assert(s[i] == rest[i - 1]);
                    }
                }
                assert forall|q: (usize, usize)|
                    is_neighbor(x, rx, q) && k <= offset_index(x, q) implies #[trigger] s.contains(
                    q,
                ) by {
                    if offset_index(x, q) == k {
                        assert(q == p);
                        assert(s[0] == p);
                    } else {
                        assert(rest.contains(q));
                        let j = choose|j: int| 0 <= j < rest.len() && rest[j] == q;
                        assert(s[j + 1] == q);
                    }
                }
            },
            None => {
                assert forall|q: (usize, usize)|
                    is_neighbor(x, rx, q) && k <= offset_index(x, q) implies #[trigger] s.contains(
                    q,
                ) by {
                    if offset_index(x, q) == k {
                        assert(q.0 == x.0 + dr && q.1 == x.1 + dc);
                        assert(false);
                    }
                }
            },
        }
    }
}

/// The neighborhood of an in-bounds coordinate holds exactly the adjacent
/// in-bounds cells, each once, never the center, at most eight of them, and
/// at least three once the grid has two rows and two columns.
pub proof fn lemma_neighborhood_bounds(x: (usize, usize), rx: (usize, usize))
    requires
        x.0 < rx.0,
        x.1 < rx.1,
    ensures
        neighbors(x, rx).len() <= 8,
        rx.0 >= 2 && rx.1 >= 2 ==> neighbors(x, rx).len() >= 3,
        neighbors(x, rx).no_duplicates(),
        forall|i: int|
            0 <= i < neighbors(x, rx).len() ==> is_neighbor(x, rx, #[trigger] neighbors(x, rx)[i]),
        forall|p: (usize, usize)| is_neighbor(x, rx, p) ==> #[trigger] neighbors(x, rx).contains(p),
{
    lemma_neighbors_from(x, rx, 0);
    let s = neighbors(x, rx);
    assert forall|p: (usize, usize)| is_neighbor(x, rx, p) implies #[trigger] s.contains(p) by {
        assert(0 <= offset_index(x, p));
    }
    assert forall|i: int, j: int| 0 <= i < s.len() && 0 <= j < s.len() && i != j implies s[i]
        != s[j] by {
        if i < j {
            assert(offset_index(x, s[i]) < offset_index(x, s[j]));
        } else {
            assert(offset_index(x, s[j]) < offset_index(x, s[i]));
        }
    }
    if rx.0 >= 2 && rx.1 >= 2 {
        let r2: usize = if x.0 + 1 < rx.0 { (x.0 + 1) as usize } else { (x.0 - 1) as usize };
        let c2: usize = if x.1 + 1 < rx.1 { (x.1 + 1) as usize } else { (x.1 - 1) as usize };
        let a = (r2, x.1);
        let b = (x.0, c2);
        let c = (r2, c2);
        assert(is_neighbor(x, rx, a) && is_neighbor(x, rx, b) && is_neighbor(x, rx, c));
        assert(s.contains(a) && s.contains(b) && s.contains(c));
        let ia = choose|i: int| 0 <= i < s.len() && s[i] == a;
        let ib = choose|i: int| 0 <= i < s.len() && s[i] == b;
        let ic = choose|i: int| 0 <= i < s.len() && s[i] == c;
        assert(ia != ib && ib != ic && ia != ic);
    }
}

/// Enumerator of the row-column coordinates in the 3x3 neighborhood
/// surrounding a coordinate, clipped against a bounding box.
pub struct Neighborhood {
    rx: (usize, usize),
    x: (usize, usize),
    dx: (isize, isize),
}

impl View for Neighborhood {
    type V = Seq<(usize, usize)>;

    /// The coordinates still to be produced.
    closed spec fn view(&self) -> Seq<(usize, usize)> {
        neighbors_from(self.x, self.rx, self.cursor())
    }
}

impl Neighborhood {
    spec fn cursor(&self) -> int {
        (self.dx.0 + 1) * 3 + (self.dx.1 + 1)
    }

    /// The enumerator's internal state is consistent.
    pub closed spec fn wf(&self) -> bool {
        &&& self.x.0 < self.rx.0
        &&& self.x.1 < self.rx.1
        &&& self.rx.0 <= isize::MAX
        &&& self.rx.1 <= isize::MAX
        &&& -1 <= self.dx.0 <= 2
        &&& -1 <= self.dx.1 <= 2
        &&& self.dx.0 == 2 ==> self.dx.1 == -1
    }

    /// Make a new neighborhood centered at `x`. The produced coordinates are
    /// clipped against the bounding box `(0, 0)..rx`.
    pub fn new(x: (usize, usize), rx: (usize, usize)) -> (r: Self)
        requires
            x.0 < rx.0,
            x.1 < rx.1,
            rx.0 <= isize::MAX,
            rx.1 <= isize::MAX,
        ensures
            r.wf(),
            r@ == neighbors(x, rx),
            r@.len() <= 8,
            rx.0 >= 2 && rx.1 >= 2 ==> r@.len() >= 3,
            r@.no_duplicates(),
            forall|i: int| 0 <= i < r@.len() ==> is_neighbor(x, rx, #[trigger] r@[i]),
            forall|p: (usize, usize)| is_neighbor(x, rx, p) ==> #[trigger] r@.contains(p),
    {
        proof {
            lemma_neighborhood_bounds(x, rx);
        }
        Self { x, rx, dx: (-1, -1) }
    }

    /// Produce the next neighbor coordinate, in row-major order, or `None`
    /// once all have been produced.
    pub fn next(&mut self) -> (r: Option<(usize, usize)>)
        requires
            old(self).wf(),
        ensures
            final(self).wf(),
            old(self)@.len() == 0 ==> r is None && final(self)@ == old(self)@,
            old(self)@.len() > 0 ==> r == Some(old(self)@[0]) && final(self)@ == old(self)@.drop_first(),
    {
        while self.dx.0 <= 1
            invariant
                self.wf(),
                self.x == old(self).x,
                self.rx == old(self).rx,
                self@ == old(self)@,
            decreases 2 - self.dx.0,
        {
            let ghost d0 = self.dx.0;
            while self.dx.1 <= 1
                invariant
                    self.wf(),
                    self.dx.0 == d0 <= 1,
                    self.x == old(self).x,
                    self.rx == old(self).rx,
                    self@ == old(self)@,
                decreases 2 - self.dx.1,
            {
                let ghost k = self.cursor();
                let r = clip(self.x.0, self.rx.0, self.dx.0);
                let c = clip(self.x.1, self.rx.1, self.dx.1);
                assert(k / 3 - 1 == self.dx.0 && k % 3 - 1 == self.dx.1);
                self.dx.1 = self.dx.1 + 1;
                match (r, c) {
                    (Some(r), Some(c)) => {
                        if r != self.x.0 || c != self.x.1 {
                            return Some((r, c));
                        }
                    },
                    _ => {},
                }
            }
            self.dx.1 = -1;
            self.dx.0 = self.dx.0 + 1;
        }
        None
    }
}

/// Check coordinate `x` for being in the range `0..rx` after offset `dx`,
/// and return the offset coordinate if it is.
pub fn clip(x: usize, rx: usize, dx: isize) -> (r: Option<usize>)
    requires
        x <= isize::MAX,
        rx <= isize::MAX,
        isize::MIN <= x + dx <= isize::MAX,
    ensures
        r == (if 0 <= x + dx < rx {
            Some((x + dx) as usize)
        } else {
            None
        }),
{
    let x = x as isize;
    let rx = rx as isize;
    let nx = x + dx;
    if nx >= 0 && nx < rx {
        Some(nx as usize)
    } else {
        None
    }
}

} // verus!

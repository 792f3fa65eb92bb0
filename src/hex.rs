use vstd::prelude::*;

verus! {

/// Absolute value over the mathematical integers.
pub open spec fn abs_int(x: int) -> int {
    if x < 0 {
        -x
    } else {
        x
    }
}

/// Axial hex distance between `(aq, ar)` and `(bq, br)`.
pub open spec fn hex_distance(aq: int, ar: int, bq: int, br: int) -> int {
    (abs_int(aq - bq) + abs_int(ar - br) + abs_int(aq + ar - bq - br)) / 2
}

/// An axial coordinate on the hex grid.
#[derive(Clone, Copy, Debug, PartialEq, Eq, Hash, Structural)]
pub struct HexCoord {
    pub q: i32,
    pub r: i32,
}

impl HexCoord {
    /// Hex distance between two coordinates.
    pub open spec fn dist(self, other: HexCoord) -> int {
        hex_distance(self.q as int, self.r as int, other.q as int, other.r as int)
    }

    /// The coordinate shifted by `(dq, dr)`.
    pub open spec fn shifted(self, dq: int, dr: int) -> HexCoord {
        HexCoord { q: (self.q + dq) as i32, r: (self.r + dr) as i32 }
    }

    /// Every neighbour of the coordinate is representable.
    pub open spec fn interior(self) -> bool {
        i32::MIN < self.q < i32::MAX && i32::MIN < self.r < i32::MAX
    }

    /// The six neighbours, in the fixed direction order used everywhere.
    pub open spec fn neighbor_seq(self) -> Seq<HexCoord> {
        seq![
            self.shifted(1, 0),
            self.shifted(-1, 0),
            self.shifted(0, 1),
            self.shifted(0, -1),
            self.shifted(1, -1),
            self.shifted(-1, 1),
        ]
    }

    /// The seven-hex cluster: the coordinate itself followed by its neighbours.
    pub open spec fn cluster_seq(self) -> Seq<HexCoord> {
        seq![self].add(self.neighbor_seq())
    }

    pub fn new(q: i32, r: i32) -> (c: HexCoord)
        ensures
            c.q == q,
            c.r == r,
    {
        HexCoord { q, r }
    }

    pub fn distance(&self, other: &HexCoord) -> (d: i64)
        ensures
            d == self.dist(*other),
            d >= 0,
    {
        let dq: i64 = self.q as i64 - other.q as i64;
        let dr: i64 = self.r as i64 - other.r as i64;
        let ds: i64 = dq + dr;
        let adq: i64 = if dq < 0 { -dq } else { dq };
        let adr: i64 = if dr < 0 { -dr } else { dr };
        let ads: i64 = if ds < 0 { -ds } else { ds };
        (adq + adr + ads) / 2
    }

    pub fn neighbors(&self) -> (ns: Vec<HexCoord>)
        requires
            self.interior(),
        ensures
            ns@ == self.neighbor_seq(),
    {
        let ns = vec![
            HexCoord::new(self.q + 1, self.r),
            HexCoord::new(self.q - 1, self.r),
            HexCoord::new(self.q, self.r + 1),
            HexCoord::new(self.q, self.r - 1),
            HexCoord::new(self.q + 1, self.r - 1),
            HexCoord::new(self.q - 1, self.r + 1),
        ];
        assert(ns@ =~= self.neighbor_seq());
        ns
    }
}

/// Hex distance is symmetric, never negative, and zero from a coordinate to itself.
pub proof fn lemma_distance_symmetric(a: HexCoord, b: HexCoord)
    ensures
        a.dist(b) == b.dist(a),
        a.dist(b) >= 0,
        a.dist(a) == 0,
{
}

/// Each of the six neighbours lies at distance one, and the six are pairwise distinct.
pub proof fn lemma_neighbors_adjacent(a: HexCoord)
    requires
        a.interior(),
    ensures
        a.neighbor_seq().len() == 6,
        forall|i: int| 0 <= i < 6 ==> #[trigger] a.dist(a.neighbor_seq()[i]) == 1,
        forall|i: int, j: int|
            0 <= i < j < 6 ==> #[trigger] a.neighbor_seq()[i] != #[trigger] a.neighbor_seq()[j],
{
    let ns = a.neighbor_seq();
    assert(a.dist(ns[0]) == 1);
    assert(a.dist(ns[1]) == 1);
    assert(a.dist(ns[2]) == 1);
    assert(a.dist(ns[3]) == 1);
    assert(a.dist(ns[4]) == 1);
    assert(a.dist(ns[5]) == 1);
}

/// A coordinate belongs to the seven-hex cluster of `center` exactly when it lies
/// within distance one of it.
pub proof fn lemma_cluster_is_ball(center: HexCoord, c: HexCoord)
    requires
        center.interior(),
    ensures
        center.cluster_seq().len() == 7,
        center.cluster_seq().contains(c) <==> center.dist(c) <= 1,
{
    let cs = center.cluster_seq();
    assert(cs[0] == center);
    assert(forall|i: int| 0 <= i < 6 ==> cs[i + 1] == #[trigger] center.neighbor_seq()[i]);
    lemma_neighbors_adjacent(center);
    if cs.contains(c) {
        let k = choose|k: int| 0 <= k < cs.len() && cs[k] == c;
        if k > 0 {
            assert(center.neighbor_seq()[k - 1] == c);
        }
    }
    if center.dist(c) <= 1 {
        let dq = c.q - center.q;
        let dr = c.r - center.r;
        if dq == 0 && dr == 0 {
            assert(cs[0] == c);
        } else if dq == 1 && dr == 0 {
            assert(cs[1] == c);
        } else if dq == -1 && dr == 0 {
            assert(cs[2] == c);
        } else if dq == 0 && dr == 1 {
            assert(cs[3] == c);
        } else if dq == 0 && dr == -1 {
            assert(cs[4] == c);
        } else if dq == 1 && dr == -1 {
            assert(cs[5] == c);
        } else {
            assert(dq == -1 && dr == 1);
            assert(cs[6] == c);
        }
    }
}

} // verus!

use vstd::prelude::*;

verus! {

use crate::game::{on_map, tile_at};
use crate::tile::Tile;

/// Two cells are adjacent when they differ by one step along exactly
/// one axis (the 4-neighborhood a flood fill uses).
pub open spec fn adjacent(a: (int, int), b: (int, int)) -> bool {
    (a.0 == b.0 && (a.1 == b.1 + 1 || a.1 == b.1 - 1)) || (a.1 == b.1 && (a.0 == b.0 + 1 || a.0
        == b.0 - 1))
}

/// A cell is carved when it lies on the grid and its tile can be
/// entered.
pub open spec fn carved(m: Seq<Vec<Tile>>, p: (int, int)) -> bool {
    on_map(p.0, p.1) && !tile_at(m, p.0, p.1).is_blocked
}

/// A walk over carved cells: nonempty, every cell carved, consecutive
/// cells adjacent.
pub open spec fn is_carved_path(m: Seq<Vec<Tile>>, path: Seq<(int, int)>) -> bool {
    &&& path.len() >= 1
    &&& forall|i: int| 0 <= i < path.len() ==> carved(m, #[trigger] path[i])
    &&& forall|i: int| 0 <= i < path.len() - 1 ==> adjacent(#[trigger] path[i], path[i + 1])
}

/// `b` can be reached from `a` through carved cells only.
pub open spec fn reachable(m: Seq<Vec<Tile>>, a: (int, int), b: (int, int)) -> bool {
    exists|path: Seq<(int, int)>|
        #[trigger] is_carved_path(m, path) && path.first() == a && path.last() == b
}

/// A carved cell reaches itself.
pub proof fn lemma_reachable_refl(m: Seq<Vec<Tile>>, a: (int, int))
    requires
        carved(m, a),
    ensures
        reachable(m, a, a),
{
    let path = seq![a];
    assert(is_carved_path(m, path));
    assert(path.first() == a && path.last() == a);
}

/// Reachability composes: a walk to `b` extended by a walk from `b`
/// reaches `c`.
pub proof fn lemma_reachable_trans(m: Seq<Vec<Tile>>, a: (int, int), b: (int, int), c: (int, int))
    requires
        reachable(m, a, b),
        reachable(m, b, c),
    ensures
        reachable(m, a, c),
{
    let p1 = choose|p: Seq<(int, int)>|
        #[trigger] is_carved_path(m, p) && p.first() == a && p.last() == b;
    let p2 = choose|p: Seq<(int, int)>|
        #[trigger] is_carved_path(m, p) && p.first() == b && p.last() == c;
    if p2.len() == 1 {
        assert(is_carved_path(m, p1) && p1.first() == a && p1.last() == c);
    } else {
        let p = p1 + p2.drop_first();
        assert forall|i: int| 0 <= i < p.len() implies carved(m, #[trigger] p[i]) by {
            if i < p1.len() {
                assert(p[i] == p1[i]);
            } else {
                assert(p[i] == p2[i - p1.len() + 1]);
            }
        }
        assert forall|i: int| 0 <= i < p.len() - 1 implies adjacent(#[trigger] p[i], p[i + 1]) by {
            if i + 1 < p1.len() {
                assert(p[i] == p1[i] && p[i + 1] == p1[i + 1]);
            } else if i + 1 == p1.len() {
                assert(p[i] == p1[p1.len() - 1]);
                assert(p[i + 1] == p2[1]);
                assert(p1.last() == b && p2.first() == b);
                assert(adjacent(p2[0], p2[1]));
            } else {
                assert(p[i] == p2[i - p1.len() + 1] && p[i + 1] == p2[i - p1.len() + 2]);
            }
        }
        assert(is_carved_path(m, p));
        assert(p.first() == a && p.last() == c);
    }
}

/// Carving only ever opens cells: `m2` keeps carved everything `m1`
/// had carved.
pub open spec fn carve_monotone(m1: Seq<Vec<Tile>>, m2: Seq<Vec<Tile>>) -> bool {
    forall|x: int, y: int|
        on_map(x, y) && !(#[trigger] tile_at(m1, x, y)).is_blocked ==> !(#[trigger] tile_at(
            m2,
            x,
            y,
        )).is_blocked
}

/// A walk stays valid when more of the map is carved open.
pub proof fn lemma_reachable_monotone(
    m1: Seq<Vec<Tile>>,
    m2: Seq<Vec<Tile>>,
    a: (int, int),
    b: (int, int),
)
    requires
        reachable(m1, a, b),
        carve_monotone(m1, m2),
    ensures
        reachable(m2, a, b),
{
    let p = choose|p: Seq<(int, int)>|
        #[trigger] is_carved_path(m1, p) && p.first() == a && p.last() == b;
    assert forall|i: int| 0 <= i < p.len() implies carved(m2, #[trigger] p[i]) by {
        assert(carved(m1, p[i]));
    }
    assert(is_carved_path(m2, p));
}

/// A horizontal run of carved cells connects its two ends.
pub proof fn lemma_h_segment_reachable(m: Seq<Vec<Tile>>, x1: int, x2: int, y: int)
    requires
        x1 <= x2,
        forall|x: int| x1 <= x <= x2 ==> #[trigger] carved(m, (x, y)),
    ensures
        reachable(m, (x1, y), (x2, y)),
    decreases x2 - x1,
{
    if x1 == x2 {
        lemma_reachable_refl(m, (x1, y));
    } else {
        lemma_h_segment_reachable(m, x1, x2 - 1, y);
        let hop = seq![(x2 - 1, y), (x2, y)];
        assert(is_carved_path(m, hop));
        assert(reachable(m, (x2 - 1, y), (x2, y)));
        lemma_reachable_trans(m, (x1, y), (x2 - 1, y), (x2, y));
    }
}

/// A vertical run of carved cells connects its two ends.
pub proof fn lemma_v_segment_reachable(m: Seq<Vec<Tile>>, y1: int, y2: int, x: int)
    requires
        y1 <= y2,
        forall|y: int| y1 <= y <= y2 ==> #[trigger] carved(m, (x, y)),
    ensures
        reachable(m, (x, y1), (x, y2)),
    decreases y2 - y1,
{
    if y1 == y2 {
        lemma_reachable_refl(m, (x, y1));
    } else {
        lemma_v_segment_reachable(m, y1, y2 - 1, x);
        let hop = seq![(x, y2 - 1), (x, y2)];
        assert(is_carved_path(m, hop));
        assert(reachable(m, (x, y2 - 1), (x, y2)));
        lemma_reachable_trans(m, (x, y1), (x, y2 - 1), (x, y2));
    }
}

/// Reachability runs both ways: the reversed walk is a walk.
pub proof fn lemma_reachable_sym(m: Seq<Vec<Tile>>, a: (int, int), b: (int, int))
    requires
        reachable(m, a, b),
    ensures
        reachable(m, b, a),
{
    let p = choose|p: Seq<(int, int)>|
        #[trigger] is_carved_path(m, p) && p.first() == a && p.last() == b;
    let q = p.reverse();
    assert forall|i: int| 0 <= i < q.len() implies carved(m, #[trigger] q[i]) by {
        assert(q[i] == p[p.len() - 1 - i]);
    }
    assert forall|i: int| 0 <= i < q.len() - 1 implies adjacent(#[trigger] q[i], q[i + 1]) by {
        assert(q[i] == p[p.len() - 1 - i]);
        assert(q[i + 1] == p[p.len() - 2 - i]);
        assert(adjacent(p[p.len() - 2 - i], p[p.len() - 1 - i]));
    }
    assert(is_carved_path(m, q));
    assert(q.first() == b && q.last() == a);
}

} // verus!

use distmesh::arena::EMPTY;
use distmesh::triangulation::{Bar, Triangulation};

fn point(x: f64, y: f64) -> delaunator::Point {
    delaunator::Point { x, y }
}

fn triangulate(points: &[delaunator::Point]) -> Triangulation {
    let t = delaunator::triangulate(points);
    Triangulation::new(t.triangles, t.halfedges, t.hull)
}

#[test]
fn four_points_give_two_triangles() {
    let points = vec![point(0., 0.), point(1., 0.), point(2., 1.), point(0., 1.)];
    let t = triangulate(&points);
    assert_eq!(t.triangles.len(), 6);
    assert_eq!(t.len(), 2);
    assert!(!t.is_empty());
    assert!(t.is_valid(4));
    assert!(!t.is_valid(3));
    // one shared edge, there and back; the rest is hull
    let paired: Vec<usize> = (0..6).filter(|&i| !t.on_hull(i)).collect();
    assert_eq!(paired.len(), 2);
    assert_eq!(t.halfedges[paired[0]], paired[1]);
    assert_eq!(t.halfedges[paired[1]], paired[0]);
    let bars = t.interior_bars(4);
    assert_eq!(bars.len(), 2);
    assert_eq!((bars[0].u, bars[0].v), (bars[1].v, bars[1].u));
    // the circle through (0,0), (1,0), (0,1) leaves (2,1) out, so the shared
    // edge joins points 1 and 3
    let mut ends = vec![bars[0].u, bars[0].v];
    ends.sort();
    assert_eq!(ends, vec![1, 3]);
    // both triangles have hull edges on both other sides
    assert!(bars[0].hull_corner.is_some());
    assert!(bars[1].hull_corner.is_some());
    let mut corners = vec![bars[0].hull_corner.unwrap(), bars[1].hull_corner.unwrap()];
    corners.sort();
    assert_eq!(corners, vec![0, 2]);
    assert_eq!(t.hull.len(), 4);
    let hull = t.hull_bars();
    assert_eq!(hull.len(), 8);
    for i in 0..4 {
        let here = t.hull[i];
        let after = t.hull[(i + 1) % 4];
        assert_eq!(hull[2 * i], Bar { u: after, v: here, hull_corner: None });
        assert_eq!(hull[2 * i + 1], Bar { u: here, v: after, hull_corner: None });
    }
    let all = t.bars(4);
    assert_eq!(all.len(), 10);
    assert_eq!(&all[..2], &bars[..]);
    assert_eq!(&all[2..], &hull[..]);
}

#[test]
fn bars_of_a_hand_made_triangulation() {
    // two triangles 0-1-2 and 2-1-3 that share the edge between 1 and 2
    let t = Triangulation::new(
        vec![0, 1, 2, 2, 1, 3],
        vec![EMPTY, 3, EMPTY, 1, EMPTY, EMPTY],
        vec![0, 1, 3, 2],
    );
    assert!(t.is_valid(4));
    assert!(t.on_hull(0));
    assert!(!t.on_hull(1));
    // half-edge 1 has the other side 3: the bar leads from where 3 starts
    // (point 2) to where 1 starts (point 1). After half-edge 3 comes 4, on
    // the hull, so the corner before 3, which 5 starts at, is the hull corner.
    // Half-edge 3 has the other side 1; after 1 comes 2, on the hull, and
    // before it comes 0.
    assert_eq!(
        t.interior_bars(4),
        vec![
            Bar { u: 2, v: 1, hull_corner: Some(3) },
            Bar { u: 1, v: 2, hull_corner: Some(0) },
        ]
    );
    let along = |u: usize, v: usize| Bar { u, v, hull_corner: None };
    assert_eq!(
        t.hull_bars(),
        vec![
            along(1, 0),
            along(0, 1),
            along(3, 1),
            along(1, 3),
            along(2, 3),
            along(3, 2),
            along(0, 2),
            along(2, 0),
        ]
    );
    assert_eq!(t.bars(4).len(), 10);
}

#[test]
fn a_bar_inside_has_no_hull_corner() {
    // a fan of three triangles around point 3; every spoke is shared
    let t = Triangulation::new(
        vec![0, 1, 3, 1, 2, 3, 2, 0, 3],
        vec![EMPTY, 5, 7, EMPTY, 8, 1, EMPTY, 2, 4],
        vec![0, 1, 2],
    );
    assert!(t.is_valid(4));
    let bars = t.interior_bars(4);
    assert_eq!(bars.len(), 6);
    // half-edge 1 (1 -> 3) has the other side 5 (3 -> 1); after 5 comes 3,
    // which lies on the hull; before 5 comes 4, which starts at 2
    assert_eq!(bars[0], Bar { u: 3, v: 1, hull_corner: Some(2) });
    // half-edge 2 (3 -> 0) has the other side 7 (0 -> 3); after 7 comes 8,
    // which is shared
    assert_eq!(bars[1], Bar { u: 0, v: 3, hull_corner: None });
}

#[test]
fn invalid_triangulations_are_told() {
    assert!(Triangulation::new(vec![], vec![], vec![]).is_valid(0));
    assert!(Triangulation::new(vec![], vec![], vec![0, 1]).is_valid(2));
    assert!(!Triangulation::new(vec![], vec![], vec![0, 2]).is_valid(2));
    assert!(!Triangulation::new(vec![0, 1], vec![EMPTY, EMPTY], vec![]).is_valid(3));
    assert!(!Triangulation::new(vec![0, 1, 2], vec![EMPTY, EMPTY], vec![]).is_valid(3));
    assert!(!Triangulation::new(vec![0, 1, 3], vec![EMPTY, EMPTY, EMPTY], vec![]).is_valid(3));
    assert!(!Triangulation::new(vec![0, 1, 2], vec![EMPTY, 5, EMPTY], vec![]).is_valid(3));
    assert!(!Triangulation::new(vec![0, 1, 2], vec![EMPTY, 2, EMPTY], vec![]).is_valid(3));
    assert!(!Triangulation::new(vec![0, 1, 2], vec![1, 2, 0], vec![]).is_valid(3));
    assert!(Triangulation::new(vec![0, 1, 2], vec![EMPTY, EMPTY, EMPTY], vec![0, 1, 2]).is_valid(3));
}

#[test]
fn points_on_a_line_have_no_bars() {
    let points = vec![point(0., 0.), point(1., 0.), point(2., 0.)];
    let t = triangulate(&points);
    assert!(t.is_empty());
    assert_eq!(t.len(), 0);
    assert!(t.is_valid(3));
    assert!(t.interior_bars(3).is_empty());
    assert!(t.hull_bars().is_empty());
    assert!(t.bars(3).is_empty());
    let empty = Triangulation::empty();
    assert!(empty.is_empty());
    assert!(empty.is_valid(0));
    assert!(empty.bars(0).is_empty());
    // a hull of one point has no bar
    let single = Triangulation::new(vec![0, 1, 2], vec![EMPTY, EMPTY, EMPTY], vec![1]);
    assert!(single.is_valid(3));
    assert!(single.hull_bars().is_empty());
}

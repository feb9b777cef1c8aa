use distmesh::arena::EMPTY;
use distmesh::engine::DistMesh;
use distmesh::triangulation::Triangulation;

type P = (f64, f64);

fn two_triangles() -> Triangulation {
    // triangles 0-1-2 and 2-1-3 that share the edge between 1 and 2
    Triangulation::new(
        vec![0, 1, 2, 2, 1, 3],
        vec![EMPTY, 3, EMPTY, 1, EMPTY, EMPTY],
        vec![0, 1, 3, 2],
    )
}

fn square() -> Vec<P> {
    vec![(0.0, 0.0), (1.0, 0.0), (0.0, 1.0), (1.0, 1.0)]
}

fn engine(use_virtual_edges: bool) -> DistMesh<P> {
    let mut free = square();
    let fixed = free.split_off(2);
    let mut e = DistMesh::new(free, fixed, use_virtual_edges, true);
    e.retriangulate(two_triangles());
    e
}

#[test]
fn free_points_come_first() {
    let e = DistMesh::new(vec![(0.0, 0.0), (1.0, 0.0)], vec![(5.0, 5.0)], true, false);
    assert_eq!(e.points(), &vec![(0.0, 0.0), (1.0, 0.0), (5.0, 5.0)]);
    assert!(!e.is_fixpoint(0));
    assert!(!e.is_fixpoint(1));
    assert!(e.is_fixpoint(2));
    assert!(e.uses_virtual_edges());
    assert!(!e.breaks_edges());
    assert_eq!(e.steps(), 0);
    assert!(e.triangulation().is_empty());
    assert!(e.bars().is_empty());
    assert!(e.is_empty(EMPTY));
    assert!(!e.is_empty(0));
}

#[test]
fn a_triangulation_of_other_points_counts_as_empty() {
    let mut e = DistMesh::new(vec![(0.0, 0.0), (1.0, 0.0), (0.0, 1.0)], vec![], false, false);
    e.retriangulate(two_triangles());
    assert!(e.triangulation().is_empty());
    assert!(e.triangulation().hull.is_empty());
    e.finish_update(Triangulation::new(vec![0, 1, 2], vec![EMPTY, EMPTY, EMPTY], vec![0, 1, 2]));
    assert_eq!(e.triangulation().triangles, vec![0, 1, 2]);
    assert_eq!(e.steps(), 1);
    e.finish_update(two_triangles());
    assert!(e.triangulation().is_empty());
    assert_eq!(e.steps(), 2);
}

#[test]
fn fixed_points_never_move() {
    let mut e = engine(false);
    let forces = vec![(1.0, 2.0), (3.0, 4.0), (5.0, 6.0), (7.0, 8.0)];
    e.update_points(&forces, &|p: &P, f: &P| (p.0 + 0.5 * f.0, p.1 + 0.5 * f.1));
    assert_eq!(e.points(), &vec![(0.5, 1.0), (2.5, 2.0), (0.0, 1.0), (1.0, 1.0)]);
    e.pushback_points(&|p: &P| if p.0 > 1.0 { Some((1.0, p.1)) } else { None });
    assert_eq!(e.points(), &vec![(0.5, 1.0), (1.0, 2.0), (0.0, 1.0), (1.0, 1.0)]);
    // a projection that would move every point still leaves the fixed ones
    e.pushback_points(&|_: &P| Some((9.0, 9.0)));
    assert_eq!(e.points(), &vec![(9.0, 9.0), (9.0, 9.0), (0.0, 1.0), (1.0, 1.0)]);
    assert!(e.is_fixpoint(2) && e.is_fixpoint(3));
}

#[test]
fn forces_that_reach_only_some_points() {
    let mut e = engine(false);
    let forces = vec![(1.0, 1.0)];
    e.update_points(&forces, &|p: &P, f: &P| (p.0 + f.0, p.1 + f.1));
    assert_eq!(e.points(), &vec![(1.0, 1.0), (1.0, 0.0), (0.0, 1.0), (1.0, 1.0)]);
}

#[test]
fn break_edges_appends_free_points() {
    let mut e = engine(false);
    // the hull is 0, 1, 3, 2: asked about (1,0), (3,1), (2,3), (0,2)
    let asked = std::cell::RefCell::new(Vec::new());
    let added = e.break_edges(&|u: &P, v: &P| {
        asked.borrow_mut().push((*u, *v));
        if u.1 == v.1 {
            Some(((u.0 + v.0) / 2.0, u.1))
        } else {
            None
        }
    });
    assert_eq!(added, 2);
    assert_eq!(
        asked.into_inner(),
        vec![
            ((1.0, 0.0), (0.0, 0.0)),
            ((1.0, 1.0), (1.0, 0.0)),
            ((0.0, 1.0), (1.0, 1.0)),
            ((0.0, 0.0), (0.0, 1.0)),
        ]
    );
    assert_eq!(
        e.points(),
        &vec![(0.0, 0.0), (1.0, 0.0), (0.0, 1.0), (1.0, 1.0), (0.5, 0.0), (0.5, 1.0)]
    );
    assert!(!e.is_fixpoint(4));
    assert!(!e.is_fixpoint(5));
    assert!(e.is_fixpoint(2));
    // the triangulation is still the one of the first four points
    assert_eq!(e.bars().len(), 10);
    // without triangles there is nothing to split
    let mut flat = DistMesh::new(square(), vec![], false, true);
    flat.retriangulate(Triangulation::new(vec![], vec![], vec![0, 1, 2, 3]));
    assert_eq!(flat.break_edges(&|u: &P, _: &P| Some(*u)), 0);
    assert_eq!(flat.points().len(), 4);
}

#[test]
fn scaling_sums_run_over_every_bar() {
    let e = engine(false);
    // two bars inside, there and back, and eight along the hull
    let count = e.compute_scaling(0usize, &|n: usize, _: &P, _: &P| n + 1);
    assert_eq!(count, 10);
    let sums = e.compute_scaling((0.0, 0.0), &|s: (f64, f64), u: &P, v: &P| {
        let (dx, dy) = (u.0 - v.0, u.1 - v.1);
        (s.0 + dx * dx + dy * dy, s.1 + 1.0)
    });
    // the diagonal has squared length 2, the four sides 1; each counts twice
    assert_eq!(sums, (12.0, 10.0));
    let empty = DistMesh::<P>::new(square(), vec![], false, false);
    assert_eq!(empty.compute_scaling(7usize, &|n: usize, _: &P, _: &P| n + 1), 7);
}

#[test]
fn forces_add_up_bar_by_bar() {
    let force = |u: &P, v: &P| (u.0 - v.0, u.1 - v.1);
    let pull = |_: &P, _: &P, _: &P| (100.0, 0.0);
    let sum = |a: &P, b: &P| (a.0 + b.0, a.1 + b.1);
    let e = engine(false);
    let forces = e.compute_forces((0.0, 0.0), &force, &pull, &sum);
    // point 0 = (0,0) has the hull bars to 1 and 2; point 1 = (1,0) has the
    // bar to 2 inside and the hull bars to 0 and 3; and so on
    assert_eq!(forces, vec![(-1.0, -1.0), (2.0, -2.0), (-2.0, 2.0), (1.0, 1.0)]);
    // with virtual edges each of the two bars inside brings one pull more
    let e = engine(true);
    let forces = e.compute_forces((0.0, 0.0), &force, &pull, &sum);
    assert_eq!(forces, vec![(-1.0, -1.0), (102.0, -2.0), (98.0, 2.0), (1.0, 1.0)]);
    // the order of the sums: the pull of the virtual edge comes first
    let trace = |a: &P, b: &P| (a.0 * 10.0 + b.0, 0.0);
    let one = |_: &P, _: &P| (1.0, 0.0);
    let two = |_: &P, _: &P, _: &P| (2.0, 0.0);
    let forces = e.compute_forces((0.0, 0.0), &one, &two, &trace);
    assert_eq!(forces[2], (2111.0, 0.0));
    assert_eq!(forces[0], (11.0, 0.0));
    let empty = DistMesh::<P>::new(square(), vec![], true, false);
    assert_eq!(empty.compute_forces((0.0, 0.0), &force, &pull, &sum), vec![(0.0, 0.0); 4]);
}

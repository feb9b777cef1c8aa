use std::cmp::Ordering;

use distmesh::arena::{Face, FaceType, Halfedge, Vertex, EMPTY};
use distmesh::mesh::Mesh;
use distmesh::predicate::Orientation;

#[derive(Debug, Clone, PartialEq)]
struct Point {
    x: f64,
    y: f64,
}

fn coord(p: &Point) -> robust::Coord<f64> {
    robust::Coord { x: p.x, y: p.y }
}

fn orient(p: &Point, q: &Point, r: &Point) -> Orientation {
    let d = robust::orient2d(coord(p), coord(q), coord(r));
    Orientation::from_sign(d.partial_cmp(&0.0).unwrap())
}

fn in_circle(p: &Point, a: &Point, b: &Point, c: &Point) -> bool {
    let dx = p.x - c.x;
    let dy = p.y - c.y;
    let ex = a.x - c.x;
    let ey = a.y - c.y;
    let fx = b.x - c.x;
    let fy = b.y - c.y;

    let ap = dx * dx + dy * dy;
    let bp = ex * ex + ey * ey;
    let cp = fx * fx + fy * fy;

    dx * (ey * cp - bp * fy) - dy * (ex * cp - bp * fx) + ap * (ex * fy - ey * fx) < 0.0
}

fn equiliteral_triangle(seg_len: f64) -> (Point, Point, Point) {
    let u1 = Point { x: 0.0, y: 0.0 };
    let u2 = Point { x: seg_len, y: 0.0 };
    let u3 = Point { x: seg_len / 2.0, y: seg_len * f64::sqrt(3.0) / 2.0 };
    (u1, u2, u3)
}

fn face_edges(mesh: &Mesh<Point>, face: usize) -> Vec<usize> {
    let mut walk = mesh.iter_face(face);
    let mut edges = Vec::new();
    while let Some(halfedge) = walk.next() {
        edges.push(halfedge);
    }
    edges
}

fn all_edges(mesh: &Mesh<Point>) -> Vec<usize> {
    let mut walk = mesh.iter_edges();
    let mut edges = Vec::new();
    while let Some(halfedge) = walk.next() {
        edges.push(halfedge);
    }
    edges
}

fn all_faces(mesh: &Mesh<Point>) -> Vec<usize> {
    let mut walk = mesh.iter_faces();
    let mut faces = Vec::new();
    while let Some(face) = walk.next() {
        faces.push(face);
    }
    faces
}

fn all_vertices(mesh: &Mesh<Point>) -> Vec<usize> {
    let mut walk = mesh.iter_vertices();
    let mut vertices = Vec::new();
    while let Some(vertex) = walk.next() {
        vertices.push(vertex);
    }
    vertices
}

fn boundary_points(mesh: &Mesh<Point>) -> Vec<Point> {
    face_edges(mesh, mesh.boundary()).iter().map(|&halfedge| mesh.point_of_edge(halfedge).clone()).collect()
}

fn legalizing_scenario() {
    let p = Point { x: 5.0, y: -1.0 };
    assert!(in_circle(
        &p,
        &Point { x: 0.0, y: 0.0 },
        &Point { x: 10.0, y: 0.0 },
        &Point { x: 5.0, y: 1.0 }
    ));

    let mut mesh = Mesh::triangle(
        Point { x: 0.0, y: 0.0 },
        Point { x: 10.0, y: 0.0 },
        Point { x: 5.0, y: 1.0 },
    );
    let halfedge = mesh.find_visible_edge(&p, &orient).unwrap();
    assert!(all_edges(&mesh).len() == 6);

    mesh.insert(halfedge, p);
    assert!(mesh.is_illegal(halfedge, &in_circle));
    assert!(boundary_points(&mesh).iter().any(|u| u.x == 5.0 && u.y == -1.0));
    assert!(all_edges(&mesh).len() == 10);
    assert!(all_edges(&mesh).iter().any(|&halfedge| mesh.is_illegal(halfedge, &in_circle)));

    mesh.legalize(halfedge, &in_circle);
    assert!(all_edges(&mesh).iter().all(|&halfedge| !mesh.is_illegal(halfedge, &in_circle)));
}

fn boundary_scenario() {
    let (u1, u2, u3) = equiliteral_triangle(1.0);

    let mesh = Mesh::triangle(
        Point { x: u1.x, y: u1.y },
        Point { x: u2.x, y: u2.y },
        Point { x: u3.x, y: u3.y },
    );

    assert!(boundary_points(&mesh).iter().any(|p| p.x == u1.x && p.y == u1.y));
    assert!(boundary_points(&mesh).iter().any(|p| p.x == u2.x && p.y == u2.y));
    assert!(boundary_points(&mesh).iter().any(|p| p.x == u3.x && p.y == u3.y));
    assert!(boundary_points(&mesh).len() == 3);
}

#[test]
fn mesh_simple_face_iteration() {
    legalizing_scenario();
}

#[test]
fn test_legalizing_simple_face_iteration() {
    legalizing_scenario();
}

#[test]
fn test_simple_face_iteration() {
    boundary_scenario();
}

#[test]
fn test_iterator_simple_face_iteration() {
    boundary_scenario();
}

#[test]
fn test_face_iterator_simple_face_iteration() {
    boundary_scenario();
}

#[test]
fn test_simple_edge_iteration() {
    let (u1, u2, u3) = equiliteral_triangle(1.0);
    let mesh = Mesh::triangle(u1, u2, u3);
    assert!(all_edges(&mesh).len() == 6);
}

#[test]
fn simple_edge_iteration() {
    let (u1, u2, u3) = equiliteral_triangle(1.0);
    let mesh = Mesh::triangle(u1, u2, u3);
    assert!(all_edges(&mesh).len() == 6);
}

#[test]
fn test_simple_faces_iteration() {
    let (u1, u2, u3) = equiliteral_triangle(1.0);
    let mesh = Mesh::triangle(u1, u2, u3);
    assert!(all_faces(&mesh).len() == 1);
}

#[test]
fn simple_faces_iteration() {
    let (u1, u2, u3) = equiliteral_triangle(1.0);
    let mesh = Mesh::triangle(u1, u2, u3);
    assert!(all_faces(&mesh).len() == 1);
}

#[test]
fn test_simple_vertex_iteration() {
    let (u1, u2, u3) = equiliteral_triangle(1.0);
    let mesh = Mesh::triangle(u1, u2, u3);
    assert!(all_vertices(&mesh).len() == 3);
}

#[test]
fn simple_vertex_iteration() {
    let (u1, u2, u3) = equiliteral_triangle(1.0);
    let mesh = Mesh::triangle(u1, u2, u3);
    assert!(all_vertices(&mesh).len() == 3);
}

#[test]
fn seed_triangle_layout() {
    let (u1, u2, u3) = equiliteral_triangle(1.0);
    let mesh = Mesh::triangle(u1.clone(), u2.clone(), u3.clone());
    assert!(mesh.validate());
    assert_eq!(mesh.number_of_faces(), 2);
    assert_eq!(mesh.number_of_vertices(), 3);
    assert_eq!(mesh.number_of_halfedges(), 6);
    assert_eq!(mesh.boundary(), 0);
    assert_eq!(mesh.face_type(0), FaceType::Boundary);
    assert_eq!(mesh.face_type(1), FaceType::Normal);
    assert_eq!(mesh.some_face(), Some(1));
    assert_eq!(all_faces(&mesh), vec![1]);
    assert_eq!(all_vertices(&mesh), vec![0, 1, 2]);
    // the triangle runs 0, 1, 2; the outside runs the other way round
    assert_eq!(face_edges(&mesh, 1), vec![0, 1, 2]);
    assert_eq!(face_edges(&mesh, 0), vec![3, 5, 4]);
    assert_eq!(all_edges(&mesh), vec![0, 1, 2, 3, 5, 4]);
    assert_eq!(face_edges(&mesh, EMPTY), Vec::<usize>::new());
    for h in 0..6 {
        assert_eq!(mesh.twin(mesh.twin(h)), h);
        assert_ne!(mesh.twin(h), h);
        assert_eq!(mesh.prev(mesh.next(h)), h);
        assert_eq!(mesh.next(mesh.prev(h)), h);
        assert_eq!(mesh.next(mesh.next(mesh.next(h))), h);
        assert_eq!(mesh.face(mesh.next(h)), mesh.face(h));
        assert!(mesh.is_border(h));
        assert!(!mesh.is_illegal(h, &in_circle));
    }
    for v in 0..3 {
        assert_eq!(mesh.vertex(mesh.edge_of_vertex(v)), v);
        assert_eq!(mesh.vertex_of_edge(v), v);
        assert_eq!(mesh.vertex_of_edge(mesh.twin(v)), (v + 2) % 3);
    }
    assert_eq!(mesh.face(mesh.edge_of_face(0)), 0);
    assert_eq!(mesh.face(mesh.edge_of_face(1)), 1);
    assert_eq!(mesh.point_of_vertex(0), &u1);
    assert_eq!(mesh.point_of_vertex(1), &u2);
    assert_eq!(mesh.point_of_vertex(2), &u3);
    assert_eq!(mesh.point_of_edge(3), &u3);
    assert_eq!(mesh.point_of_edge(4), &u1);
    assert_eq!(mesh.point_of_edge(5), &u2);
}

#[test]
fn insert_adds_one_triangle_and_two_border_edges() {
    let p = Point { x: 5.0, y: -1.0 };
    let mut mesh = Mesh::triangle(
        Point { x: 0.0, y: 0.0 },
        Point { x: 10.0, y: 0.0 },
        Point { x: 5.0, y: 1.0 },
    );
    // the outside is walked 3, 5, 4; half-edge 3 runs from (0,0) to (5,1)
    // and has the point on its right
    let halfedge = mesh.find_visible_edge(&p, &orient).unwrap();
    assert_eq!(halfedge, 3);
    let border = mesh.insert(halfedge, p.clone());
    assert_eq!(border, 9);
    assert!(mesh.validate());
    assert_eq!(mesh.number_of_faces(), 3);
    assert_eq!(mesh.number_of_vertices(), 4);
    assert_eq!(mesh.number_of_halfedges(), 10);
    assert_eq!(mesh.face_type(2), FaceType::Normal);
    assert_eq!(face_edges(&mesh, 2), vec![3, 6, 7]);
    // half-edge 3 named the outside; now the one after it does
    assert_eq!(mesh.edge_of_face(0), 5);
    assert_eq!(face_edges(&mesh, 0), vec![5, 4, 9, 8]);
    assert_eq!(mesh.vertex(border), 3);
    assert_eq!(mesh.point_of_edge(border), &p);
    assert_eq!(mesh.twin(6), 8);
    assert_eq!(mesh.twin(8), 6);
    assert_eq!(mesh.twin(7), 9);
    assert_eq!(mesh.twin(9), 7);
    assert_eq!(mesh.vertex(6), 3);
    assert_eq!(mesh.vertex(7), 0);
    assert_eq!(mesh.vertex(8), 2);
    assert_eq!(mesh.edge_of_vertex(3), 6);
    assert!(!mesh.is_border(3));
    assert!(!mesh.is_border(0));
    assert!(mesh.is_border(6));
    assert!(mesh.is_border(8));
    assert_eq!(all_faces(&mesh), vec![1, 2]);
    assert_eq!(all_vertices(&mesh), vec![0, 1, 2, 3]);
    for h in 0..10 {
        assert_eq!(mesh.prev(mesh.next(h)), h);
        assert_eq!(mesh.next(mesh.prev(h)), h);
        assert_eq!(mesh.twin(mesh.twin(h)), h);
        assert_eq!(mesh.vertex(mesh.twin(h)), mesh.vertex(mesh.prev(h)));
        assert_eq!(mesh.face(mesh.next(h)), mesh.face(h));
    }
}

#[test]
fn insert_keeps_the_name_of_the_outside_when_it_can() {
    let mut mesh = Mesh::triangle(
        Point { x: 0.0, y: 0.0 },
        Point { x: 10.0, y: 0.0 },
        Point { x: 5.0, y: 1.0 },
    );
    let border = mesh.insert(4, Point { x: 5.0, y: -1.0 });
    assert_eq!(border, 9);
    assert_eq!(mesh.edge_of_face(0), 3);
    assert_eq!(face_edges(&mesh, 0), vec![3, 5, 9, 8]);
    assert_eq!(face_edges(&mesh, 2), vec![4, 6, 7]);
}

#[test]
fn flip_turns_the_diagonal_and_flips_back() {
    let mut mesh = Mesh::triangle(
        Point { x: 0.0, y: 0.0 },
        Point { x: 10.0, y: 0.0 },
        Point { x: 5.0, y: 1.0 },
    );
    mesh.insert(3, Point { x: 5.0, y: -1.0 });
    // the diagonal joins vertices 0 and 2; the apexes are 3 and 1
    assert_eq!((mesh.vertex(3), mesh.vertex(0)), (2, 0));
    let faces = (mesh.face(3), mesh.face(0));
    mesh.flip(3);
    assert!(mesh.validate());
    assert_eq!((mesh.vertex(3), mesh.vertex(0)), (3, 1));
    assert_eq!((mesh.face(3), mesh.face(0)), faces);
    assert_eq!(mesh.next(3), 7);
    assert_eq!(mesh.next(7), 1);
    assert_eq!(mesh.next(1), 3);
    assert_eq!(mesh.next(0), 2);
    assert_eq!(mesh.next(2), 6);
    assert_eq!(mesh.next(6), 0);
    assert_eq!(mesh.face(1), faces.0);
    assert_eq!(mesh.face(6), faces.1);
    assert_eq!(face_edges(&mesh, faces.0).len(), 3);
    assert_eq!(face_edges(&mesh, faces.1).len(), 3);
    for h in 0..10 {
        assert_eq!(mesh.prev(mesh.next(h)), h);
        assert_eq!(mesh.twin(mesh.twin(h)), h);
        assert_eq!(mesh.vertex(mesh.twin(h)), mesh.vertex(mesh.prev(h)));
        assert_eq!(mesh.face(mesh.next(h)), mesh.face(h));
        assert_eq!(mesh.face(mesh.edge_of_face(mesh.face(h))), mesh.face(h));
    }
    for v in 0..4 {
        assert_eq!(mesh.vertex(mesh.edge_of_vertex(v)), v);
    }
    // a second flip brings the diagonal back, with its two halves swapped
    mesh.flip(3);
    assert_eq!((mesh.vertex(3), mesh.vertex(0)), (0, 2));
    assert_eq!(mesh.next(3), 1);
    assert_eq!(mesh.next(1), 2);
    assert_eq!(mesh.next(2), 3);
    assert_eq!(mesh.next(0), 6);
    assert_eq!(mesh.next(6), 7);
    assert_eq!(mesh.next(7), 0);
    // after four flips every half-edge is where it was
    mesh.flip(3);
    mesh.flip(3);
    assert_eq!((mesh.vertex(3), mesh.vertex(0)), (2, 0));
    assert_eq!(mesh.next(3), 6);
    assert_eq!(mesh.next(6), 7);
    assert_eq!(mesh.next(7), 3);
    assert_eq!(mesh.next(0), 1);
    assert_eq!(mesh.next(1), 2);
    assert_eq!(mesh.next(2), 0);
    assert_eq!((mesh.face(3), mesh.face(0)), faces);
}

#[test]
fn legalize_flips_the_thin_diagonal() {
    let p = Point { x: 5.0, y: -1.0 };
    let mut mesh = Mesh::triangle(
        Point { x: 0.0, y: 0.0 },
        Point { x: 10.0, y: 0.0 },
        Point { x: 5.0, y: 1.0 },
    );
    assert_eq!(mesh.flip_budget(), 3);
    let halfedge = mesh.find_visible_edge(&p, &orient).unwrap();
    mesh.insert(halfedge, p);
    assert_eq!(mesh.flip_budget(), 6);
    assert!(mesh.is_illegal(halfedge, &in_circle));
    assert!(mesh.legalize(halfedge, &in_circle));
    // one flip: the diagonal now joins the two apexes
    assert_eq!((mesh.vertex(halfedge), mesh.vertex(mesh.twin(halfedge))), (3, 1));
    assert!(mesh.validate());
    for h in 0..10 {
        assert!(!mesh.is_illegal(h, &in_circle));
    }
    // legalizing a legal edge changes nothing
    let before: Vec<usize> = (0..10).map(|h| mesh.next(h)).collect();
    assert!(mesh.legalize(halfedge, &in_circle));
    let after: Vec<usize> = (0..10).map(|h| mesh.next(h)).collect();
    assert_eq!(before, after);
}

#[test]
fn legalize_gives_up_when_the_test_never_settles() {
    let mut mesh = Mesh::triangle(
        Point { x: 0.0, y: 0.0 },
        Point { x: 10.0, y: 0.0 },
        Point { x: 5.0, y: 1.0 },
    );
    mesh.insert(3, Point { x: 5.0, y: -1.0 });
    // a test that calls every edge illegal: edge 3 is flipped, then edge 1
    // and edge 7 are looked at, which lie on the border and stay
    let always = |_: &Point, _: &Point, _: &Point, _: &Point| true;
    assert!(mesh.legalize(3, &always));
    assert_eq!((mesh.vertex(3), mesh.vertex(0)), (3, 1));
    // a border edge is never illegal, so nothing is left to do
    let mut tiny: Mesh<Point> = Mesh::triangle(
        Point { x: 0.0, y: 0.0 },
        Point { x: 10.0, y: 0.0 },
        Point { x: 5.0, y: 1.0 },
    );
    assert!(tiny.legalize(0, &always));
    assert!(tiny.validate());
    let never = |_: &Point, _: &Point, _: &Point, _: &Point| false;
    assert!(mesh.legalize(3, &never));
    assert_eq!((mesh.vertex(3), mesh.vertex(0)), (3, 1));
    // with a third triangle the flips go round and round between the two
    // inner edges, until the budget of ten flips is used up
    let mut fan = Mesh::triangle(
        Point { x: 0.0, y: 0.0 },
        Point { x: 10.0, y: 0.0 },
        Point { x: 5.0, y: 1.0 },
    );
    fan.insert(3, Point { x: 5.0, y: -1.0 });
    fan.insert(9, Point { x: 0.0, y: -3.0 });
    assert_eq!(fan.flip_budget(), 10);
    let rim_before = face_edges(&fan, fan.boundary());
    assert!(!fan.legalize(3, &always));
    assert!(fan.validate());
    assert_eq!(fan.number_of_halfedges(), 14);
    assert_eq!(face_edges(&fan, fan.boundary()), rim_before);
    for h in 0..14 {
        assert_eq!(fan.prev(fan.next(h)), h);
        assert_eq!(fan.twin(fan.twin(h)), h);
        assert_eq!(fan.vertex(fan.twin(h)), fan.vertex(fan.prev(h)));
        assert_eq!(fan.face(fan.next(h)), fan.face(h));
    }
    for f in all_faces(&fan) {
        assert_eq!(face_edges(&fan, f).len(), 3);
    }
}

#[test]
fn every_halfedge_is_handed_out_once() {
    let mut mesh = Mesh::triangle(
        Point { x: 0.0, y: 0.0 },
        Point { x: 10.0, y: 0.0 },
        Point { x: 5.0, y: 1.0 },
    );
    let mut border = mesh.insert(3, Point { x: 5.0, y: -1.0 });
    for i in 0..5 {
        border = mesh.insert(border, Point { x: i as f64, y: -3.0 });
    }
    mesh.flip(3);
    let n = mesh.number_of_halfedges();
    assert_eq!(n, 6 + 4 * 6);
    let mut edges = all_edges(&mesh);
    assert_eq!(edges.len(), n);
    edges.sort();
    assert_eq!(edges, (0..n).collect::<Vec<usize>>());
    // the rims of the faces share the half-edges out among them
    let mut by_face: Vec<usize> = Vec::new();
    for f in 0..mesh.number_of_faces() {
        for h in face_edges(&mesh, f) {
            assert_eq!(mesh.face(h), f);
            by_face.push(h);
        }
    }
    by_face.sort();
    assert_eq!(by_face, (0..n).collect::<Vec<usize>>());
    assert_eq!(all_faces(&mesh).len(), 7);
    assert_eq!(all_vertices(&mesh).len(), 9);
}

#[test]
fn find_visible_edge_takes_the_first_that_has_the_point_on_its_right() {
    let mesh = Mesh::triangle(
        Point { x: 0.0, y: 0.0 },
        Point { x: 10.0, y: 0.0 },
        Point { x: 5.0, y: 5.0 },
    );
    // the outside is walked 3, 5, 4: from (0,0) to (5,5), on to (10,0), and
    // back to (0,0)
    assert_eq!(mesh.find_visible_edge(&Point { x: 5.0, y: 1.0 }, &orient), Some(3));
    // on the line of half-edge 3
    assert_eq!(mesh.find_visible_edge(&Point { x: 20.0, y: 20.0 }, &orient), Some(3));
    // left of 3, right of 5
    assert_eq!(mesh.find_visible_edge(&Point { x: 0.0, y: 5.0 }, &orient), Some(5));
    // left of 3 and of 5, right of 4
    assert_eq!(mesh.find_visible_edge(&Point { x: 5.0, y: 50.0 }, &orient), Some(4));
    let all_left = |_: &Point, _: &Point, _: &Point| Orientation::CounterClockwise;
    assert_eq!(mesh.find_visible_edge(&Point { x: 5.0, y: 1.0 }, &all_left), None);
}

#[test]
fn arena_records() {
    let h = Halfedge::empty(7);
    assert_eq!((h.id, h.end, h.next, h.prev, h.twin, h.face), (7, EMPTY, EMPTY, EMPTY, EMPTY, EMPTY));
    assert!(!h.is_valid());
    let linked = Halfedge { id: 7, end: 0, next: 1, prev: 2, twin: EMPTY, face: 0 };
    assert!(linked.is_valid());
    let unfaced = Halfedge { id: 7, end: 0, next: 1, prev: 2, twin: 3, face: EMPTY };
    assert!(!unfaced.is_valid());
    let f = Face::empty(3);
    assert_eq!((f.id, f.halfedge, f.face_type), (3, EMPTY, FaceType::Normal));
    let g = Face::new(4, 9, FaceType::Hole);
    assert_eq!((g.id, g.halfedge, g.face_type), (4, 9, FaceType::Hole));
    let v = Vertex::empty(2, Point { x: 1.0, y: 2.0 });
    assert_eq!((v.id, v.halfedge), (2, EMPTY));
    let w = Vertex::new(2, 5, Point { x: 1.0, y: 2.0 });
    assert_eq!((w.id, w.halfedge, w.point.x, w.point.y), (2, 5, 1.0, 2.0));
    assert!(Orientation::CounterClockwise.is_ccw());
    assert!(!Orientation::Collinear.is_ccw());
    assert!(!Orientation::Clockwise.is_ccw());
}

#[test]
fn test_orientation() {
    let u1 = Point { x: 0.0, y: 0.0 };
    let q = Point { x: 1.0, y: 0.0 };

    let r1 = Point { x: 0.0, y: 1.0 };
    let r2 = Point { x: 0.0, y: -1.0 };
    let r3 = Point { x: 5.0, y: 0.0 };

    assert!(robust::orient2d(coord(&u1), coord(&q), coord(&r1)) > 0.0);
    assert_eq!(orient(&u1, &q, &r1), Orientation::CounterClockwise);
    assert!(orient(&u1, &q, &r1).is_ccw() == true);

    assert!(robust::orient2d(coord(&u1), coord(&q), coord(&r2)) < 0.0);
    assert_eq!(orient(&u1, &q, &r2), Orientation::Clockwise);
    assert!(orient(&u1, &q, &r2).is_ccw() == false);

    // edge case => colinear
    assert!(robust::orient2d(coord(&u1), coord(&q), coord(&r3)) == 0.0);
    assert_eq!(orient(&u1, &q, &r3), Orientation::Collinear);
    assert!(orient(&u1, &q, &r3).is_ccw() == false);
}

#[test]
fn turns_go_by_the_sign() {
    assert_eq!(Orientation::from_sign(Ordering::Greater), Orientation::CounterClockwise);
    assert_eq!(Orientation::from_sign(Ordering::Less), Orientation::Clockwise);
    assert_eq!(Orientation::from_sign(Ordering::Equal), Orientation::Collinear);
}

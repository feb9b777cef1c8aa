use distmesh::engine::DistMesh;
use distmesh::triangulation::Triangulation;

type P = (f64, f64);

const OMEGA: f64 = 1.2;

fn sub(u: &P, v: &P) -> P {
    (u.0 - v.0, u.1 - v.1)
}

fn len(u: &P) -> f64 {
    (u.0 * u.0 + u.1 * u.1).sqrt()
}

fn center(u: &P, v: &P) -> P {
    (u.0 + (v.0 - u.0) * 0.5, u.1 + (v.1 - u.1) * 0.5)
}

fn bosson(lambda: f64) -> f64 {
    (1.0 - lambda.powi(4)) * (-lambda.powi(4)).exp()
}

fn bar_force(u: &P, v: &P, scale: f64) -> P {
    let uv = sub(u, v);
    let l = len(&uv);
    let h_k = OMEGA * scale;
    let nu = bosson(l / h_k) * h_k;
    (uv.0 / l * nu, uv.1 / l * nu)
}

fn disk(p: &P, radius: f64) -> f64 {
    len(p) - radius
}

fn rect(p: &P, width: f64, height: f64) -> f64 {
    let dx = p.0.abs() - width / 2.0;
    let dy = p.1.abs() - height / 2.0;
    if dx > 0.0 || dy > 0.0 {
        (dx.max(0.0).powi(2) + dy.max(0.0).powi(2)).sqrt()
    } else {
        dx.max(dy).min(0.0)
    }
}

fn ring(p: &P, inner: f64, outer: f64) -> f64 {
    let r1 = (outer + inner) / 2.0;
    let r2 = (outer - inner) / 2.0;
    (len(p) - r1).abs() - r2
}

fn triangulate(points: &[P]) -> Triangulation {
    let input: Vec<delaunator::Point> =
        points.iter().map(|p| delaunator::Point { x: p.0, y: p.1 }).collect();
    let t = delaunator::triangulate(&input);
    Triangulation::new(t.triangles, t.halfedges, t.hull)
}

fn quality(points: &[P], triangles: &[usize]) -> f64 {
    let n = triangles.len() / 3;
    let mut sum = 0.0;
    for k in 0..n {
        let (u1, u2, u3) =
            (&points[triangles[3 * k]], &points[triangles[3 * k + 1]], &points[triangles[3 * k + 2]]);
        let a = len(&sub(u1, u2));
        let b = len(&sub(u1, u3));
        let c = len(&sub(u2, u3));
        sum += ((b + c - a) * (c + a - b) * (a + b - c)) / (a * b * c);
    }
    sum / n as f64
}

/// Points in the square of the given half width that `inside` accepts, from
/// a fixed sequence of numbers.
fn cloud(n: usize, half: f64, seed: u64, inside: &dyn Fn(&P) -> bool) -> Vec<P> {
    let mut state = seed;
    let mut draw = move || {
        state = state.wrapping_mul(6364136223846793005).wrapping_add(1442695040888963407);
        ((state >> 11) as f64 / (1u64 << 53) as f64) * 2.0 * half - half
    };
    let mut points = Vec::new();
    while points.len() < n {
        let p = (draw(), draw());
        if inside(&p) {
            points.push(p);
        }
    }
    points
}

/// One step of the engine with the constant edge length 1 and the time step
/// `delta`, on the domain that `sdf` describes.
fn step(engine: &mut DistMesh<P>, sdf: &dyn Fn(&P) -> f64, delta: f64) {
    let sums = engine.compute_scaling((0.0, 0.0), &|s: (f64, f64), u: &P, v: &P| {
        let d = sub(u, v);
        (s.0 + d.0 * d.0 + d.1 * d.1, s.1 + 1.0)
    });
    let scale = (sums.0 / sums.1).sqrt();
    if engine.breaks_edges() {
        engine.break_edges(&|u: &P, v: &P| {
            if len(&sub(u, v)) / scale > 2.0 {
                Some(center(u, v))
            } else {
                None
            }
        });
    }
    let forces = engine.compute_forces(
        (0.0, 0.0),
        &|u: &P, v: &P| bar_force(u, v, scale),
        &|u: &P, v: &P, w: &P| bar_force(u, &center(v, w), scale * f64::sqrt(3.0) / 2.0),
        &|a: &P, b: &P| (a.0 + b.0, a.1 + b.1),
    );
    engine.update_points(&forces, &|p: &P, f: &P| (p.0 + delta * f.0, p.1 + delta * f.1));
    engine.pushback_points(&|p: &P| {
        let dist = sdf(p);
        if dist > 0.0 {
            let eps = 0.000001;
            let dx = (sdf(&(p.0 + eps, p.1)) - dist) / eps;
            let dy = (sdf(&(p.0, p.1 + eps)) - dist) / eps;
            Some((p.0 - dx * dist, p.1 - dy * dist))
        } else {
            None
        }
    });
    let triangulation = triangulate(engine.points());
    engine.finish_update(triangulation);
}

fn build(free: Vec<P>, fixed: Vec<P>, virtual_edges: bool, break_edges: bool) -> DistMesh<P> {
    let mut engine = DistMesh::new(free, fixed, virtual_edges, break_edges);
    let triangulation = triangulate(engine.points());
    engine.retriangulate(triangulation);
    engine
}

#[test]
fn a_disk_relaxes_into_good_triangles() {
    let sdf = |p: &P| disk(p, 300.0);
    let free = cloud(600, 350.0, 1, &|p: &P| sdf(p) < 0.0);
    let mut engine = build(free, vec![], false, false);
    let at_start = quality(engine.points(), &engine.triangulation().triangles);
    for _ in 0..200 {
        step(&mut engine, &sdf, 0.1);
    }
    assert_eq!(engine.steps(), 200);
    assert_eq!(engine.points().len(), 600);
    let at_end = quality(engine.points(), &engine.triangulation().triangles);
    assert!(at_end > at_start);
    assert!(at_end >= 0.85);
    assert!(engine.triangulation().is_valid(600));
}

#[test]
fn fixed_corners_stay_where_they_are() {
    let sdf = |p: &P| rect(p, 500.0, 500.0);
    let corners = vec![(250.0, 250.0), (-250.0, 250.0), (250.0, -250.0), (-250.0, -250.0)];
    let free = cloud(200, 350.0, 2, &|p: &P| sdf(p) < 0.0);
    let mut engine = build(free, corners.clone(), true, false);
    for _ in 0..100 {
        step(&mut engine, &sdf, 0.1);
        let n = engine.points().len();
        assert_eq!(n, 204);
        assert_eq!(&engine.points()[200..], &corners[..]);
        for i in 0..200 {
            assert!(!engine.is_fixpoint(i));
        }
        for i in 200..204 {
            assert!(engine.is_fixpoint(i));
        }
    }
    assert_eq!(engine.steps(), 100);
}

#[test]
fn split_edges_add_free_points_at_the_end() {
    let sdf = |p: &P| ring(p, 100.0, 300.0);
    let free = cloud(300, 350.0, 3, &|p: &P| sdf(p) < 0.0);
    let fixed = vec![(0.0, 200.0)];
    let mut engine = build(free.clone(), fixed.clone(), true, true);
    let mut before = engine.points().len();
    for _ in 0..50 {
        step(&mut engine, &sdf, 0.1);
        let now = engine.points().len();
        assert!(now >= before);
        // the fixed point keeps its place and its position
        assert_eq!(engine.points()[300], fixed[0]);
        assert!(engine.is_fixpoint(300));
        for i in 301..now {
            assert!(!engine.is_fixpoint(i));
        }
        assert!(engine.triangulation().is_valid(now));
        before = now;
    }
    assert!(before > 301);
}

#[test]
fn a_ring_keeps_its_points_inside() {
    let sdf = |p: &P| ring(p, 100.0, 300.0);
    let free = cloud(600, 350.0, 4, &|p: &P| sdf(p) < 0.0);
    let mut engine = build(free, vec![], true, true);
    for _ in 0..200 {
        step(&mut engine, &sdf, 0.1);
    }
    assert_eq!(engine.steps(), 200);
    let worst = engine.points().iter().map(|p| sdf(p)).fold(f64::NEG_INFINITY, f64::max);
    assert!(worst <= 1e-3);
}

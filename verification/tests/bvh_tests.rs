use rand::rngs::StdRng;
use rand::{Rng, SeedableRng};
use ray_tracing::bvh::{linear_closest_hit, AABB, BvhChild, BvhTree, Coord3, Slab};

/// Order-preserving embedding of a finite `f64` into `i64`.
fn encode(f: f64) -> i64 {
    let u = f.to_bits();
    if f.is_sign_negative() {
        ((!u) ^ 0x8000_0000_0000_0000) as i64
    } else {
        u as i64
    }
}

/// Inverse of `encode`.
fn decode(k: i64) -> f64 {
    if k >= 0 {
        f64::from_bits(k as u64)
    } else {
        f64::from_bits(!((k as u64) ^ 0x8000_0000_0000_0000))
    }
}

fn point(x: f64, y: f64, z: f64) -> Coord3 {
    Coord3 { x: encode(x), y: encode(y), z: encode(z) }
}

fn sphere_box(c: [f64; 3], r: f64) -> AABB {
    AABB {
        min_p: point(c[0] - r, c[1] - r, c[2] - r),
        max_p: point(c[0] + r, c[1] + r, c[2] + r),
    }
}

#[test]
fn test_encode_is_monotone() {
    let vals = [
        f64::NEG_INFINITY,
        -1.0e30,
        -2.5,
        -1.0,
        -1.0e-12,
        0.0,
        1.0e-12,
        0.001,
        1.0,
        4.0,
        1.0e30,
        f64::INFINITY,
    ];
    for i in 0..vals.len() {
        for j in 0..vals.len() {
            assert_eq!(vals[i] < vals[j], encode(vals[i]) < encode(vals[j]));
            assert_eq!(decode(encode(vals[i])), vals[i]);
        }
    }
}

#[test]
fn test_build_single_shape() {
    let boxes = vec![sphere_box([0.0, 0.0, 0.0], 1.0)];
    let tree = BvhTree::new(&boxes);
    assert_eq!(tree.nodes.len(), 1);
    assert_eq!(tree.root, 0);
    assert_eq!(tree.nodes[0].left, BvhChild::Shape(0));
    assert_eq!(tree.nodes[0].right, None);
    assert_eq!(tree.nodes[0].bounding_box, boxes[0]);
}

#[test]
fn test_build_pair_and_triple() {
    let b0 = sphere_box([-2.0, 0.0, 0.0], 1.0);
    let b1 = sphere_box([2.0, 0.0, 0.0], 1.0);
    let b2 = sphere_box([0.0, 5.0, 0.0], 1.0);

    let tree = BvhTree::new(&vec![b0, b1]);
    assert_eq!(tree.nodes.len(), 1);
    let root = &tree.nodes[tree.root];
    assert_eq!(root.left, BvhChild::Shape(0));
    assert_eq!(root.right, Some(BvhChild::Shape(1)));
    assert_eq!(root.bounding_box, b0.max(&b1));

    let tree = BvhTree::new(&vec![b0, b1, b2]);
    assert_eq!(tree.nodes.len(), 3);
    let root = &tree.nodes[tree.root];
    assert_eq!(root.left, BvhChild::Node(0));
    assert_eq!(root.right, Some(BvhChild::Node(1)));
    assert_eq!(tree.nodes[0].left, BvhChild::Shape(0));
    assert_eq!(tree.nodes[1].left, BvhChild::Shape(1));
    assert_eq!(tree.nodes[1].right, Some(BvhChild::Shape(2)));
}

/// Every node's box contains its children's boxes, all the way down.
#[test]
fn test_aabb_containment() {
    let mut rng = StdRng::seed_from_u64(7);
    let boxes: Vec<AABB> = (0..100)
        .map(|_| {
            let c = [
                rng.gen_range(-10.0..10.0),
                rng.gen_range(-10.0..10.0),
                rng.gen_range(-10.0..10.0),
            ];
            sphere_box(c, 1.0)
        })
        .collect();
    let tree = BvhTree::new(&boxes);

    let contains = |a: &AABB, b: &AABB| {
        a.min_p.x <= b.min_p.x
            && a.min_p.y <= b.min_p.y
            && a.min_p.z <= b.min_p.z
            && b.max_p.x <= a.max_p.x
            && b.max_p.y <= a.max_p.y
            && b.max_p.z <= a.max_p.z
    };
    for node in &tree.nodes {
        let mut children = vec![node.left];
        if let Some(r) = node.right {
            children.push(r);
        }
        for ch in children {
            let cb = match ch {
                BvhChild::Shape(s) => boxes[s],
                BvhChild::Node(i) => tree.nodes[i].bounding_box,
            };
            assert!(contains(&node.bounding_box, &cb));
        }
    }
}

/// Closest hit of a ray against one sphere, inside `(t_min, t_max]`.
fn sphere_hit(o: [f64; 3], d: [f64; 3], c: [f64; 3], r: f64, t_min: f64, t_max: f64) -> Option<f64> {
    let oc = [o[0] - c[0], o[1] - c[1], o[2] - c[2]];
    let a = d[0] * d[0] + d[1] * d[1] + d[2] * d[2];
    let half_b = d[0] * oc[0] + d[1] * oc[1] + d[2] * oc[2];
    let cc = oc[0] * oc[0] + oc[1] * oc[1] + oc[2] * oc[2] - r * r;
    let disc = half_b * half_b - a * cc;
    if disc < 0.0 {
        return None;
    }
    let sq = disc.sqrt();
    for t in [(-half_b - sq) / a, (-half_b + sq) / a] {
        if t_min < t && t <= t_max {
            return Some(t);
        }
    }
    None
}

/// Slab interval of a box along a ray, as in the renderer's box test.
fn slab_of(b: &AABB, o: [f64; 3], d: [f64; 3]) -> Slab {
    let min_p = [decode(b.min_p.x), decode(b.min_p.y), decode(b.min_p.z)];
    let max_p = [decode(b.max_p.x), decode(b.max_p.y), decode(b.max_p.z)];
    let mut entry = f64::NEG_INFINITY;
    let mut exit = f64::INFINITY;
    for k in 0..3 {
        let t_lo = (min_p[k] - o[k]) / d[k];
        let t_hi = (max_p[k] - o[k]) / d[k];
        entry = entry.max(t_lo.min(t_hi));
        exit = exit.min(t_lo.max(t_hi));
    }
    Slab { entry: encode(entry), exit: encode(exit) }
}

/// The hierarchy query and the brute-force scan agree on a thousand random
/// spheres and a hundred random rays.
#[test]
fn test_bvh_vs_linear() {
    let mut rng = StdRng::seed_from_u64(42);
    let spheres: Vec<([f64; 3], f64)> = (0..1000)
        .map(|_| {
            (
                [
                    rng.gen_range(-10.0..10.0),
                    rng.gen_range(-10.0..10.0),
                    rng.gen_range(-10.0..10.0),
                ],
                1.0,
            )
        })
        .collect();
    let boxes: Vec<AABB> = spheres.iter().map(|&(c, r)| sphere_box(c, r)).collect();
    let tree = BvhTree::new(&boxes);

    let t_min = 0.001;
    let t_max = 1.0e18;

    for _ in 0..100 {
        let o = [
            rng.gen_range(-20.0..20.0),
            rng.gen_range(-20.0..20.0),
            rng.gen_range(-20.0..20.0),
        ];
        let mut d = [
            rng.gen_range(-1.0..1.0f64),
            rng.gen_range(-1.0..1.0f64),
            rng.gen_range(-1.0..1.0f64),
        ];
        let len = (d[0] * d[0] + d[1] * d[1] + d[2] * d[2]).sqrt();
        if len < 1.0e-6 {
            continue;
        }
        for k in 0..3 {
            d[k] /= len;
        }

        let hits: Vec<Option<i64>> = spheres
            .iter()
            .map(|&(c, r)| sphere_hit(o, d, c, r, t_min, t_max).map(encode))
            .collect();
        let slabs: Vec<Slab> = tree.nodes.iter().map(|n| slab_of(&n.bounding_box, o, d)).collect();

        let through_tree = tree.ray_hit(&slabs, &hits, encode(t_min), encode(t_max));
        let by_scan = linear_closest_hit(&hits, encode(t_min), encode(t_max));
        assert_eq!(through_tree, by_scan);
        if let Some((s, t)) = by_scan {
            assert_eq!(hits[s], Some(t));
        }
    }
}

#[test]
fn test_aabb_union() {
    let a = AABB { min_p: point(-1.0, 0.0, 2.0), max_p: point(1.0, 3.0, 4.0) };
    let b = AABB { min_p: point(0.0, -2.0, 1.0), max_p: point(0.5, 5.0, 3.0) };
    let u = a.max(&b);
    assert_eq!(u.min_p, point(-1.0, -2.0, 1.0));
    assert_eq!(u.max_p, point(1.0, 5.0, 4.0));
    let mut e = a;
    e.enlarge(&b);
    assert_eq!(e, u);
}

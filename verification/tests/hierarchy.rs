use pathtracer::aabb::Aabb;
use pathtracer::bvh::{axis_min, BVHNode, Child};
use pathtracer::hittable::{HitRecord, HittableList, Object};
use pathtracer::ray::{FaceNormal, Interval};
use pathtracer::scalar::{INFINITY, NEG_INFINITY};
use pathtracer::shapes::sphere::Sphere;
use pathtracer::vector::Vec3;

fn rank(x: f64) -> i64 {
    assert!(!x.is_nan());
    if x == f64::INFINITY {
        i64::MAX
    } else if x == f64::NEG_INFINITY {
        i64::MIN
    } else if x >= 0.0 {
        x.abs().to_bits() as i64
    } else {
        -((-x).to_bits() as i64)
    }
}

fn rank_or(x: f64, otherwise: i64) -> i64 {
    if x.is_nan() {
        otherwise
    } else {
        rank(x)
    }
}

fn unrank(r: i64) -> f64 {
    if r == i64::MAX {
        f64::INFINITY
    } else if r == i64::MIN {
        f64::NEG_INFINITY
    } else if r >= 0 {
        f64::from_bits(r as u64)
    } else {
        -f64::from_bits((-r) as u64)
    }
}

fn pack(v: [f64; 3]) -> Vec3 {
    Vec3::new(rank(v[0]), rank(v[1]), rank(v[2]))
}

fn dot(a: [f64; 3], b: [f64; 3]) -> f64 {
    a[0] * b[0] + a[1] * b[1] + a[2] * b[2]
}

fn cube(id: usize, x: f64, y: f64, z: f64) -> Object {
    Object { id, bbox: Aabb::new(&pack([x, y, z]), &pack([x + 1.0, y + 1.0, z + 1.0])) }
}

fn extent(iv: Interval) -> i64 {
    rank(unrank(iv.max) - unrank(iv.min))
}

fn leaf_ids(c: &Child, out: &mut Vec<usize>) {
    match c {
        Child::Leaf(o) => out.push(o.id),
        Child::Inner(n) => node_ids(n, out),
    }
}

fn node_ids(n: &BVHNode, out: &mut Vec<usize>) {
    leaf_ids(&n.left, out);
    leaf_ids(&n.right, out);
}

fn height(n: &BVHNode) -> usize {
    let side = |c: &Child| match c {
        Child::Leaf(_) => 0,
        Child::Inner(m) => height(m),
    };
    1 + side(&n.left).max(side(&n.right))
}

fn check_boxes(n: &BVHNode) {
    assert_eq!(n.bbox, Aabb::enclose(n.left.bounding_box(), n.right.bounding_box()));
    for c in [&n.left, &n.right] {
        if let Child::Inner(m) = c {
            check_boxes(m);
        }
    }
}

struct Ball {
    centre: [f64; 3],
    radius: f64,
}

fn probe_ball(b: &Ball, id: usize, o: [f64; 3], d: [f64; 3], range: Interval) -> Option<HitRecord> {
    let oc = [b.centre[0] - o[0], b.centre[1] - o[1], b.centre[2] - o[2]];
    let a = dot(d, d);
    let h = dot(d, oc);
    let c = dot(oc, oc) - b.radius * b.radius;
    let discrim = h * h - a * c;
    if discrim < 0.0 {
        return None;
    }
    let sq = discrim.sqrt();
    let near = rank_or((h - sq) / a, INFINITY);
    let far = rank_or((h + sq) / a, INFINITY);
    let t = Sphere::nearest_root(near, far, &range)?;
    let tf = unrank(t);
    let p = [o[0] + tf * d[0], o[1] + tf * d[1], o[2] + tf * d[2]];
    let n = [
        (p[0] - b.centre[0]) / b.radius,
        (p[1] - b.centre[1]) / b.radius,
        (p[2] - b.centre[2]) / b.radius,
    ];
    let face = HitRecord::calc_face_normal(rank(dot(d, n)), &pack(n), &pack([-n[0], -n[1], -n[2]]));
    Some(HitRecord::new(t, pack(p), face, id))
}

#[test]
fn list_keeps_order_and_box() {
    let mut list = HittableList::new();
    assert_eq!(list.objects.len(), 0);
    assert_eq!(*list.bounding_box(), Aabb::empty());
    let a = cube(0, 0.0, 0.0, 0.0);
    let b = cube(1, 5.0, -3.0, 2.0);
    list.add(a);
    assert_eq!(*list.bounding_box(), a.bbox);
    list.add(b);
    assert_eq!(list.objects, vec![a, b]);
    assert_eq!(list.bbox, Aabb::new(&pack([0.0, -3.0, 0.0]), &pack([6.0, 1.0, 3.0])));
}

#[test]
fn list_scan_narrows_the_range_as_it_goes() {
    let mut list = HittableList::new();
    for id in 0..4 {
        list.add(cube(id, id as f64, 0.0, 0.0));
    }
    let asked = std::cell::RefCell::new(Vec::new());
    let distance = [5.0, 3.0, 4.0, 1.0];
    let probe = |id: usize, iv: Interval| {
        asked.borrow_mut().push((id, iv));
        let t = rank(distance[id]);
        if iv.surrounds(t) {
            let n = FaceNormal::Front(pack([0.0, 0.0, 1.0]));
            Some(HitRecord::new(t, pack([0.0, 0.0, 0.0]), n, id))
        } else {
            None
        }
    };
    let range = Interval::new(rank(0.001), INFINITY);
    let rec = list.hit(&probe, &range).unwrap();
    assert_eq!(rec.t, rank(1.0));
    assert_eq!(rec.mat, 3);
    let lo = rank(0.001);
    assert_eq!(
        *asked.borrow(),
        vec![
            (0, Interval::new(lo, INFINITY)),
            (1, Interval::new(lo, rank(5.0))),
            (2, Interval::new(lo, rank(3.0))),
            (3, Interval::new(lo, rank(3.0))),
        ]
    );
    let none = |_id: usize, _iv: Interval| -> Option<HitRecord> { None };
    assert!(list.hit(&none, &range).is_none());
    assert!(HittableList::new().hit(&probe, &range).is_none());
}

#[test]
fn single_primitive_stands_on_both_sides() {
    let o = cube(7, 1.0, 2.0, 3.0);
    let mut objects = vec![o];
    let n = BVHNode::from_object_slice(&mut objects, &extent);
    assert!(matches!(n.left, Child::Leaf(l) if l == o));
    assert!(matches!(n.right, Child::Leaf(r) if r == o));
    assert_eq!(*n.bounding_box(), o.bbox);
    assert_eq!(objects, vec![o]);
    assert_eq!(height(&n), 1);
}

#[test]
fn two_primitives_stand_one_on_each_side_unsorted() {
    let a = cube(0, 9.0, 0.0, 0.0);
    let b = cube(1, -9.0, 0.0, 0.0);
    let mut objects = vec![a, b];
    let n = BVHNode::from_object_slice(&mut objects, &extent);
    assert!(matches!(n.left, Child::Leaf(l) if l == a));
    assert!(matches!(n.right, Child::Leaf(r) if r == b));
    assert_eq!(n.bbox, Aabb::enclose(&a.bbox, &b.bbox));
    assert_eq!(objects, vec![a, b]);
}

#[test]
fn three_primitives_are_sorted_and_cut() {
    let a = cube(0, 9.0, 0.0, 0.0);
    let b = cube(1, -9.0, 0.5, 0.0);
    let c = cube(2, 3.0, 0.2, 0.0);
    let mut objects = vec![a, b, c];
    let n = BVHNode::from_object_slice(&mut objects, &extent);
    assert_eq!(objects, vec![b, c, a]);
    let mut ids = Vec::new();
    node_ids(&n, &mut ids);
    assert_eq!(ids, vec![1, 1, 2, 0]);
    assert_eq!(height(&n), 2);
    check_boxes(&n);
    assert_eq!(n.bbox, Aabb::new(&pack([-9.0, 0.0, 0.0]), &pack([10.0, 1.5, 1.0])));
    let mut by_y = vec![a, b, c];
    let tall = |iv: Interval| if iv == n.bbox.y { rank(100.0) } else { extent(iv) };
    let _ = BVHNode::from_object_slice(&mut by_y, &tall);
    assert_eq!(by_y, vec![a, c, b]);
    let mut by_z = vec![a, b, c];
    let deep = |iv: Interval| if iv == n.bbox.z { rank(100.0) } else { extent(iv) };
    let _ = BVHNode::from_object_slice(&mut by_z, &deep);
    let mut sorted = by_z.clone();
    sorted.sort_by_key(|o| o.id);
    assert_eq!(sorted, vec![a, b, c]);
    assert_eq!(axis_min(&a, 9), rank(9.0));
    assert_eq!(axis_min(&a, 0), rank(9.0));
    assert_eq!(axis_min(&b, 1), rank(0.5));
    assert_eq!(axis_min(&c, 2), rank(0.0));
}

#[test]
fn hierarchy_has_logarithmic_height_and_all_primitives() {
    let mut rng = fastrand::Rng::with_seed(77);
    let expected = [0usize, 1, 1, 2, 2, 3, 3, 3, 3, 4, 4, 4, 4, 4, 4, 4, 4, 5];
    for n in 1..=17usize {
        let mut objects: Vec<Object> = (0..n)
            .map(|id| cube(id, rng.f64() * 20.0, rng.f64() * 5.0, rng.f64() * 10.0))
            .collect();
        let before = objects.clone();
        let node = BVHNode::from_object_slice(&mut objects, &extent);
        assert_eq!(height(&node), expected[n]);
        check_boxes(&node);
        let mut ids = Vec::new();
        node_ids(&node, &mut ids);
        ids.sort();
        ids.dedup();
        assert_eq!(ids, (0..n).collect::<Vec<usize>>());
        let mut after = objects.clone();
        after.sort_by_key(|o| o.id);
        assert_eq!(after, before);
        let mut total = Aabb::empty();
        for o in &before {
            total = Aabb::enclose(&total, &o.bbox);
        }
        assert_eq!(node.bbox, total);
        if n >= 3 {
            let axis = total.longest_axis(&extent);
            let mid = n / 2;
            for i in 0..mid {
                for j in mid..n {
                    assert!(axis_min(&objects[i], axis) <= axis_min(&objects[j], axis));
                }
            }
        }
    }
}

#[test]
fn longest_axis_breaks_ties_in_the_order_of_the_axes() {
    let bx = Aabb::new(&pack([0.0, 0.0, 0.0]), &pack([1.0, 2.0, 3.0]));
    assert_eq!(bx.longest_axis(&extent), 2);
    let bx = Aabb::new(&pack([0.0, 0.0, 0.0]), &pack([1.0, 5.0, 3.0]));
    assert_eq!(bx.longest_axis(&extent), 1);
    let bx = Aabb::new(&pack([0.0, 0.0, 0.0]), &pack([7.0, 5.0, 3.0]));
    assert_eq!(bx.longest_axis(&extent), 0);
    let bx = Aabb::new(&pack([0.0, 0.0, 0.0]), &pack([2.0, 2.0, 2.0]));
    assert_eq!(bx.longest_axis(&extent), 0);
    let bx = Aabb::new(&pack([0.0, 0.0, 0.0]), &pack([1.0, 2.0, 2.0]));
    assert_eq!(bx.longest_axis(&extent), 1);
    let bx = Aabb::new(&pack([0.0, 0.0, 0.0]), &pack([2.0, 1.0, 2.0]));
    assert_eq!(bx.longest_axis(&extent), 0);
}

#[test]
fn hierarchy_from_a_list() {
    let mut list = HittableList::new();
    for id in 0..9 {
        list.add(cube(id, (id * 7 % 9) as f64, 0.0, (id % 3) as f64));
    }
    let total = list.bbox;
    let node = BVHNode::from_hittable_list(list, &extent);
    assert_eq!(node.bbox, total);
    assert_eq!(height(&node), 4);
    let mut ids = Vec::new();
    node_ids(&node, &mut ids);
    ids.sort();
    ids.dedup();
    assert_eq!(ids, (0..9).collect::<Vec<usize>>());
}

#[test]
fn traversal_skips_what_lies_behind_a_missed_box() {
    let mut objects: Vec<Object> = (0..8).map(|id| cube(id, 3.0 * id as f64, 0.0, 0.0)).collect();
    let node = BVHNode::from_object_slice(&mut objects, &extent);
    let o = [0.5, 0.5, -5.0];
    let d = [0.0, 0.0, 1.0];
    let slab = |iv: Interval, ax: u8| {
        let k = ax as usize;
        let adinv = 1.0 / d[k];
        (
            rank_or((unrank(iv.min) - o[k]) * adinv, INFINITY),
            rank_or((unrank(iv.max) - o[k]) * adinv, NEG_INFINITY),
        )
    };
    let asked = std::cell::RefCell::new(Vec::new());
    let probe = |id: usize, _iv: Interval| {
        asked.borrow_mut().push(id);
        if id == 0 {
            let n = FaceNormal::Front(pack([0.0, 0.0, -1.0]));
            Some(HitRecord::new(rank(5.0), pack([0.5, 0.5, 0.0]), n, id))
        } else {
            None
        }
    };
    let rec = node.hit(&slab, &probe, &Interval::new(rank(0.001), INFINITY)).unwrap();
    assert_eq!(rec.t, rank(5.0));
    assert_eq!(rec.mat, 0);
    assert_eq!(*asked.borrow(), vec![0, 1]);
    let off = [0.5, 7.5, -5.0];
    let slab = |iv: Interval, ax: u8| {
        let k = ax as usize;
        let adinv = 1.0 / d[k];
        (
            rank_or((unrank(iv.min) - off[k]) * adinv, INFINITY),
            rank_or((unrank(iv.max) - off[k]) * adinv, NEG_INFINITY),
        )
    };
    asked.borrow_mut().clear();
    assert!(node.hit(&slab, &probe, &Interval::new(rank(0.001), INFINITY)).is_none());
    assert!(asked.borrow().is_empty());
}

#[test]
fn traversal_prefers_the_closer_of_two_sides() {
    let a = cube(0, 0.0, 0.0, 0.0);
    let b = cube(1, 0.0, 0.0, 5.0);
    for (ta, tb, expect) in [(5.0, 10.0, 0usize), (10.0, 5.0, 1), (5.0, 5.0, 0)] {
        let mut objects = vec![a, b];
        let node = BVHNode::from_object_slice(&mut objects, &extent);
        let slab = |_iv: Interval, _ax: u8| (NEG_INFINITY, INFINITY);
        let probe = |id: usize, iv: Interval| {
            let t = rank(if id == 0 { ta } else { tb });
            if iv.surrounds(t) {
                let n = FaceNormal::Front(pack([0.0, 0.0, 1.0]));
                Some(HitRecord::new(t, pack([0.0, 0.0, 0.0]), n, id))
            } else {
                None
            }
        };
        let rec = node.hit(&slab, &probe, &Interval::universe()).unwrap();
        assert_eq!(rec.mat, expect);
        assert_eq!(rec.t, rank(ta.min(tb)));
    }
}

#[test]
fn traversal_agrees_with_a_scan_on_random_scenes() {
    let mut rng = fastrand::Rng::with_seed(20240);
    for scene in 0..4 {
        let count = 50 + scene * 37;
        let balls: Vec<Ball> = (0..count)
            .map(|_| Ball {
                centre: [rng.f64() * 20.0 - 10.0, rng.f64() * 20.0 - 10.0, rng.f64() * 20.0 - 10.0],
                radius: 0.1 + rng.f64() * 1.4,
            })
            .collect();
        let mut list = HittableList::new();
        for (id, b) in balls.iter().enumerate() {
            let r = b.radius;
            let c = b.centre;
            let s = Sphere::new(
                pack(c),
                rank(r),
                id,
                &pack([c[0] - r, c[1] - r, c[2] - r]),
                &pack([c[0] + r, c[1] + r, c[2] + r]),
            );
            list.add(Object { id, bbox: s.bbox });
        }
        let mut objects = list.objects.clone();
        let node = BVHNode::from_object_slice(&mut objects, &extent);
        assert_eq!(node.bbox, list.bbox);
        let mut hits = 0;
        for _ in 0..1000 {
            let o = [rng.f64() * 30.0 - 15.0, rng.f64() * 30.0 - 15.0, rng.f64() * 30.0 - 15.0];
            let d = [rng.f64() * 2.0 - 1.0, rng.f64() * 2.0 - 1.0, rng.f64() * 2.0 - 1.0];
            let slab = |iv: Interval, ax: u8| {
                let k = ax as usize;
                let adinv = 1.0 / d[k];
                (
                    rank_or((unrank(iv.min) - o[k]) * adinv, INFINITY),
                    rank_or((unrank(iv.max) - o[k]) * adinv, NEG_INFINITY),
                )
            };
            let probe = |id: usize, iv: Interval| probe_ball(&balls[id], id, o, d, iv);
            let range = Interval::new(rank(0.001), INFINITY);
            let fast = node.hit(&slab, &probe, &range);
            let slow = list.hit(&probe, &range);
            match (fast, slow) {
                (Some(f), Some(s)) => {
                    hits += 1;
                    assert!((unrank(f.t) - unrank(s.t)).abs() <= 1e-9);
                    let best = (0..count)
                        .filter_map(|id| probe(id, range))
                        .map(|h| h.t)
                        .min()
                        .unwrap();
                    assert_eq!(s.t, best);
                }
                (None, None) => {}
                _ => panic!("the hierarchy and the scan disagree on whether the ray hits"),
            }
        }
        assert!(hits > 50);
    }
}

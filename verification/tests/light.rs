use pathtracer::aabb::Aabb;
use pathtracer::bvh::BVHNode;
use pathtracer::hittable::{HitRecord, HittableList, Object};
use pathtracer::material::{Dielectric, Lambertian, Metal, Scatter};
use pathtracer::ray::{FaceNormal, Interval, Ray};
use pathtracer::scalar::{INFINITY, NEG_INFINITY, ONE};
use pathtracer::shapes::sphere::{Sphere, SurfacePoint};
use pathtracer::tracer::{trace, PathEnd, SURFACE_BIAS};
use pathtracer::vector::Vec3;

fn rank(x: f64) -> i64 {
    assert!(!x.is_nan());
    if x == f64::INFINITY {
        i64::MAX
    } else if x == f64::NEG_INFINITY {
        i64::MIN
    } else if x >= 0.0 {
        x.abs().to_bits() as i64
    } else {
        -((-x).to_bits() as i64)
    }
}

fn rank_or(x: f64, otherwise: i64) -> i64 {
    if x.is_nan() {
        otherwise
    } else {
        rank(x)
    }
}

fn unrank(r: i64) -> f64 {
    if r == i64::MAX {
        f64::INFINITY
    } else if r == i64::MIN {
        f64::NEG_INFINITY
    } else if r >= 0 {
        f64::from_bits(r as u64)
    } else {
        -f64::from_bits((-r) as u64)
    }
}

fn pack(v: [f64; 3]) -> Vec3 {
    Vec3::new(rank(v[0]), rank(v[1]), rank(v[2]))
}

fn unpack(v: Vec3) -> [f64; 3] {
    [unrank(v.x), unrank(v.y), unrank(v.z)]
}

fn dot(a: [f64; 3], b: [f64; 3]) -> f64 {
    a[0] * b[0] + a[1] * b[1] + a[2] * b[2]
}

fn sample_record() -> HitRecord {
    HitRecord::new(
        rank(2.0),
        pack([0.0, 0.0, -1.0]),
        FaceNormal::Front(pack([0.0, 0.0, -1.0])),
        0,
    )
}

fn background(r: Ray) -> [f64; 3] {
    let d = unpack(r.dir);
    let len = dot(d, d).sqrt();
    let a = 0.5 * (d[1] / len + 1.0);
    [(1.0 - a) + a * 0.5, (1.0 - a) + a * 0.7, (1.0 - a) + a * 1.0]
}

fn radiance(attenuations: &[Vec3], end: PathEnd) -> [f64; 3] {
    let mut c = match end {
        PathEnd::Exhausted => [0.0, 0.0, 0.0],
        PathEnd::Absorbed => [0.0, 0.0, 0.0],
        PathEnd::Escaped(r) => background(r),
    };
    for a in attenuations.iter().rev() {
        let a = unpack(*a);
        c = [a[0] * c[0], a[1] * c[1], a[2] * c[2]];
    }
    c
}

fn unit_sphere_probe(ray: Ray, range: Interval) -> Option<HitRecord> {
    let s = Sphere::new(
        pack([0.0, 0.0, 0.0]),
        rank(1.0),
        0,
        &pack([-1.0, -1.0, -1.0]),
        &pack([1.0, 1.0, 1.0]),
    );
    let o = unpack(ray.origin);
    let d = unpack(ray.dir);
    let oc = [-o[0], -o[1], -o[2]];
    let a = dot(d, d);
    let h = dot(d, oc);
    let c = dot(oc, oc) - 1.0;
    let discrim = h * h - a * c;
    let roots = || {
        let sq = discrim.sqrt();
        (rank_or((h - sq) / a, INFINITY), rank_or((h + sq) / a, INFINITY))
    };
    let surface = |t: i64| {
        let t = unrank(t);
        let p = [o[0] + t * d[0], o[1] + t * d[1], o[2] + t * d[2]];
        SurfacePoint {
            p: pack(p),
            facing: rank(dot(d, p)),
            outward_normal: pack(p),
            reversed_normal: pack([-p[0], -p[1], -p[2]]),
        }
    };
    s.hit(rank_or(discrim, 0), &roots, &range, &surface)
}

#[test]
fn lambertian_never_absorbs() {
    let m = Lambertian::new(pack([0.5, 0.25, 0.125]));
    let rec = sample_record();
    let drawn = pack([0.3, -0.2, -1.7]);
    assert_eq!(
        m.scatter(&rec, drawn),
        Scatter::Scattered(Ray::new(rec.p, drawn), pack([0.5, 0.25, 0.125]))
    );
    let tiny = pack([1.0e-9, -1.0e-9, 0.0]);
    assert_eq!(
        m.scatter(&rec, tiny),
        Scatter::Scattered(Ray::new(rec.p, pack([0.0, 0.0, -1.0])), pack([0.5, 0.25, 0.125]))
    );
    let mut rng = fastrand::Rng::with_seed(11);
    for _ in 0..200 {
        let d = pack([rng.f64() * 2.0 - 1.0, rng.f64() * 2.0 - 1.0, rng.f64() * 2.0 - 1.0]);
        assert!(matches!(m.scatter(&rec, d), Scatter::Scattered(_, _)));
    }
}

#[test]
fn metal_absorbs_exactly_below_the_surface() {
    let m = Metal::new(pack([0.7, 0.6, 0.5]), rank(0.3));
    assert_eq!(m.fuzz, rank(0.3));
    let rec = sample_record();
    let dir = pack([0.1, 0.2, -0.9]);
    assert_eq!(
        m.scatter(&rec, dir, rank(0.9)),
        Scatter::Scattered(Ray::new(rec.p, dir), pack([0.7, 0.6, 0.5]))
    );
    assert_eq!(m.scatter(&rec, dir, rank(0.0)), Scatter::Absorbed);
    assert_eq!(m.scatter(&rec, dir, rank(-0.0)), Scatter::Absorbed);
    assert_eq!(m.scatter(&rec, dir, rank(-0.4)), Scatter::Absorbed);
    assert_eq!(m.scatter(&rec, dir, rank(f64::NEG_INFINITY)), Scatter::Absorbed);
    assert!(matches!(m.scatter(&rec, dir, rank(1.0e-300)), Scatter::Scattered(_, _)));
    let mut rng = fastrand::Rng::with_seed(5);
    for _ in 0..200 {
        let facing = rng.f64() * 2.0 - 1.0;
        let absorbed = m.scatter(&rec, dir, rank(facing)) == Scatter::Absorbed;
        assert_eq!(absorbed, facing <= 0.0);
    }
}

#[test]
fn dielectric_attenuation_is_one() {
    let rec = sample_record();
    let reflected = pack([0.0, 0.6, -0.8]);
    let refracted = pack([0.0, 0.28, 0.96]);
    let one = Vec3::new(ONE, ONE, ONE);
    let calls = std::cell::Cell::new(0u32);
    let draw = || {
        calls.set(calls.get() + 1);
        rank(0.5)
    };
    let s = Dielectric::scatter(&rec, rank(1.2), rank(0.0), &draw, reflected, refracted);
    assert_eq!(s, Scatter::Scattered(Ray::new(rec.p, reflected), one));
    assert_eq!(calls.get(), 0);
    let s = Dielectric::scatter(&rec, rank(0.7), rank(0.6), &draw, reflected, refracted);
    assert_eq!(s, Scatter::Scattered(Ray::new(rec.p, reflected), one));
    assert_eq!(calls.get(), 1);
    let s = Dielectric::scatter(&rec, rank(0.7), rank(0.5), &draw, reflected, refracted);
    assert_eq!(s, Scatter::Scattered(Ray::new(rec.p, refracted), one));
    let s = Dielectric::scatter(&rec, rank(1.0), rank(0.1), &draw, reflected, refracted);
    assert_eq!(s, Scatter::Scattered(Ray::new(rec.p, refracted), one));
    assert_eq!(
        Dielectric::resolve(&rec, true, reflected, refracted),
        Scatter::Scattered(Ray::new(rec.p, reflected), one)
    );
}

#[test]
fn dielectric_direction_has_unit_length() {
    let n = [0.0, 0.0, -1.0];
    let rec = sample_record();
    let glass = Dielectric::new(rank(1.5));
    let ri = unrank(glass.relative_index(&rec, rank(1.0 / 1.5)));
    assert_eq!(ri, 1.0 / 1.5);
    let inside = HitRecord::new(rank(1.0), rec.p, FaceNormal::Back(rec.p), 0);
    assert_eq!(glass.relative_index(&inside, rank(1.0 / 1.5)), rank(1.5));
    let rng = std::cell::RefCell::new(fastrand::Rng::with_seed(3));
    for _ in 0..200 {
        let raw = {
            let mut g = rng.borrow_mut();
            [g.f64() * 2.0 - 1.0, g.f64() * 2.0 - 1.0, g.f64() + 0.01]
        };
        let len = dot(raw, raw).sqrt();
        let u = [raw[0] / len, raw[1] / len, raw[2] / len];
        let cos_theta = (-dot(u, n)).min(1.0);
        let sin_theta = (1.0 - cos_theta * cos_theta).sqrt();
        let k = 2.0 * dot(u, n);
        let reflected = [u[0] - k * n[0], u[1] - k * n[1], u[2] - k * n[2]];
        let perp = [
            ri * (u[0] + cos_theta * n[0]),
            ri * (u[1] + cos_theta * n[1]),
            ri * (u[2] + cos_theta * n[2]),
        ];
        let par = -((1.0 - dot(perp, perp)).abs().sqrt());
        let refracted = [perp[0] + par * n[0], perp[1] + par * n[1], perp[2] + par * n[2]];
        let r0 = ((1.0 - ri) / (1.0 + ri)).powi(2);
        let reflectance = r0 + (1.0 - r0) * (1.0 - cos_theta).powi(5);
        let draw = || rank(rng.borrow_mut().f64());
        let s = Dielectric::scatter(
            &rec,
            rank(ri * sin_theta),
            rank(reflectance),
            &draw,
            pack(reflected),
            pack(refracted),
        );
        match s {
            Scatter::Scattered(r, attenuation) => {
                assert_eq!(unpack(attenuation), [1.0, 1.0, 1.0]);
                let d = unpack(r.dir);
                assert!((dot(d, d).sqrt() - 1.0).abs() < 1e-9);
            }
            Scatter::Absorbed => panic!("a dielectric swallowed a ray"),
        }
    }
}

#[test]
fn trace_without_budget_is_black() {
    let rays = [
        Ray::new(pack([0.0, 0.0, -3.0]), pack([0.0, 0.0, 1.0])),
        Ray::new(pack([5.0, 5.0, 5.0]), pack([0.0, 1.0, 0.0])),
    ];
    let asked = std::cell::Cell::new(0u32);
    for ray in rays {
        let world = |r: Ray, iv: Interval| {
            asked.set(asked.get() + 1);
            unit_sphere_probe(r, iv)
        };
        let material = |_r: Ray, _rec: HitRecord| Scatter::Absorbed;
        let path = trace(&ray, &world, &material, 0);
        assert_eq!(path.end, PathEnd::Exhausted);
        assert!(path.attenuations.is_empty());
        assert_eq!(radiance(&path.attenuations, path.end), [0.0, 0.0, 0.0]);
    }
    assert_eq!(asked.get(), 0);
}

#[test]
fn trace_on_an_empty_scene_is_the_background() {
    let list = HittableList::new();
    let mut rng = fastrand::Rng::with_seed(9);
    for _ in 0..100 {
        let ray = Ray::new(
            pack([rng.f64() * 10.0 - 5.0, rng.f64() * 10.0 - 5.0, rng.f64() * 10.0 - 5.0]),
            pack([rng.f64() * 2.0 - 1.0, rng.f64() * 2.0 - 1.0, rng.f64() + 0.1]),
        );
        let world = |_r: Ray, iv: Interval| {
            let probe = |_id: usize, _iv: Interval| -> Option<HitRecord> {
                panic!("an empty scene has nothing to ask")
            };
            list.hit(&probe, &iv)
        };
        let material = |_r: Ray, _rec: HitRecord| Scatter::Absorbed;
        for depth in [1usize, 2, 50] {
            let path = trace(&ray, &world, &material, depth);
            assert_eq!(path.end, PathEnd::Escaped(ray));
            assert!(path.attenuations.is_empty());
            assert_eq!(radiance(&path.attenuations, path.end), background(ray));
        }
    }
    let up = Ray::new(pack([0.0, 0.0, 0.0]), pack([0.0, 2.0, 0.0]));
    assert_eq!(background(up), [0.5, 0.7, 1.0]);
    let down = Ray::new(pack([0.0, 0.0, 0.0]), pack([0.0, -2.0, 0.0]));
    assert_eq!(background(down), [1.0, 1.0, 1.0]);
}

#[test]
fn trace_asks_strictly_beyond_the_bias() {
    assert_eq!(SURFACE_BIAS, rank(0.001));
    let seen = std::cell::Cell::new(Interval::new(0, 0));
    let world = |_r: Ray, iv: Interval| -> Option<HitRecord> {
        seen.set(iv);
        None
    };
    let material = |_r: Ray, _rec: HitRecord| Scatter::Absorbed;
    let ray = Ray::new(pack([0.0, 0.0, 0.0]), pack([1.0, 0.0, 0.0]));
    let _ = trace(&ray, &world, &material, 3);
    assert_eq!(seen.get(), Interval::new(rank(0.001), INFINITY));
}

#[test]
fn trace_stops_where_a_surface_absorbs() {
    let ray = Ray::new(pack([0.0, 0.0, -3.0]), pack([0.0, 0.0, 1.0]));
    let world = |r: Ray, iv: Interval| unit_sphere_probe(r, iv);
    let material = |_r: Ray, _rec: HitRecord| Scatter::Absorbed;
    let path = trace(&ray, &world, &material, 10);
    assert_eq!(path.end, PathEnd::Absorbed);
    assert!(path.attenuations.is_empty());
    assert_eq!(radiance(&path.attenuations, path.end), [0.0, 0.0, 0.0]);
}

#[test]
fn trace_keeps_the_attenuations_in_order() {
    let ray = Ray::new(pack([0.0, 0.0, 0.0]), pack([1.0, 0.0, 0.0]));
    let world = |r: Ray, _iv: Interval| -> Option<HitRecord> {
        let step = unrank(r.origin.x);
        if step < 3.0 {
            Some(HitRecord::new(rank(1.0), r.origin, FaceNormal::Front(r.dir), 0))
        } else {
            None
        }
    };
    let material = |r: Ray, _rec: HitRecord| {
        let step = unrank(r.origin.x);
        Scatter::Scattered(
            Ray::new(pack([step + 1.0, 0.0, 0.0]), r.dir),
            pack([0.5, 1.0 / (step + 2.0), 1.0]),
        )
    };
    let path = trace(&ray, &world, &material, 10);
    let last = Ray::new(pack([3.0, 0.0, 0.0]), ray.dir);
    assert_eq!(path.end, PathEnd::Escaped(last));
    assert_eq!(
        path.attenuations,
        vec![pack([0.5, 0.5, 1.0]), pack([0.5, 1.0 / 3.0, 1.0]), pack([0.5, 0.25, 1.0])]
    );
    let short = trace(&ray, &world, &material, 2);
    assert_eq!(short.end, PathEnd::Exhausted);
    assert_eq!(short.attenuations.len(), 2);
    assert_eq!(radiance(&short.attenuations, short.end), [0.0, 0.0, 0.0]);
}

#[test]
fn centre_pixel_of_a_matte_unit_sphere() {
    let albedo = pack([0.5, 0.5, 0.5]);
    let matte = Lambertian::new(albedo);
    let mut objects = vec![Object {
        id: 0,
        bbox: Aabb::new(&pack([-1.0, -1.0, -1.0]), &pack([1.0, 1.0, 1.0])),
    }];
    let extent = |iv: Interval| rank(unrank(iv.max) - unrank(iv.min));
    let bvh = BVHNode::from_object_slice(&mut objects, &extent);
    let rng = std::cell::RefCell::new(fastrand::Rng::with_seed(2024));
    let world = |r: Ray, iv: Interval| {
        let o = unpack(r.origin);
        let d = unpack(r.dir);
        let slab = |ax_iv: Interval, ax: u8| {
            let k = ax as usize;
            let adinv = 1.0 / d[k];
            (
                rank_or((unrank(ax_iv.min) - o[k]) * adinv, INFINITY),
                rank_or((unrank(ax_iv.max) - o[k]) * adinv, NEG_INFINITY),
            )
        };
        let probe = |_id: usize, piv: Interval| unit_sphere_probe(r, piv);
        bvh.hit(&slab, &probe, &iv)
    };
    let material = |_r: Ray, rec: HitRecord| {
        let n = unpack(*rec.normal());
        let unit = loop {
            let mut g = rng.borrow_mut();
            let p = [g.f64() * 2.0 - 1.0, g.f64() * 2.0 - 1.0, g.f64() * 2.0 - 1.0];
            let l = dot(p, p);
            if 1e-160 < l && l <= 1.0 {
                let s = l.sqrt();
                break [p[0] / s, p[1] / s, p[2] / s];
            }
        };
        matte.scatter(&rec, pack([n[0] + unit[0], n[1] + unit[1], n[2] + unit[2]]))
    };
    let ray = Ray::new(pack([0.0, 0.0, -3.0]), pack([0.0, 0.0, 1.0]));
    let path = trace(&ray, &world, &material, 1);
    assert_eq!(path.attenuations, vec![albedo]);
    assert_eq!(path.end, PathEnd::Exhausted);
    assert_eq!(radiance(&path.attenuations, path.end), [0.0, 0.0, 0.0]);
    let path = trace(&ray, &world, &material, 2);
    assert_eq!(path.attenuations, vec![albedo]);
    match path.end {
        PathEnd::Escaped(r) => {
            assert_eq!(r.origin, pack([0.0, 0.0, -1.0]));
            let c = radiance(&path.attenuations, path.end);
            let b = background(r);
            assert_eq!(c, [0.5 * b[0], 0.5 * b[1], 0.5 * b[2]]);
            for k in 0..3 {
                assert!(0.25 <= c[k] && c[k] <= 0.5);
            }
        }
        _ => panic!("the second ray of the path must leave the scene"),
    }
}

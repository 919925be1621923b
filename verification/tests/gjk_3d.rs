// GJK runs on axis-aligned boxes in space, with plain f64 geometry here and every
// decision taken by the library's state machines.

use collision::distance::{DistanceRun, DistanceStep};
use collision::intersect::{IntersectRun, IntersectStep};
use collision::strategy::{intersection_outcome, CollisionStrategy, IntersectionOutcome};
use collision::time_of_impact::{ImpactRun, ImpactStep};

#[derive(Clone, Copy, Debug, PartialEq)]
struct V(f64, f64, f64);

impl V {
    fn add(self, o: V) -> V {
        V(self.0 + o.0, self.1 + o.1, self.2 + o.2)
    }
    fn sub(self, o: V) -> V {
        V(self.0 - o.0, self.1 - o.1, self.2 - o.2)
    }
    fn neg(self) -> V {
        V(-self.0, -self.1, -self.2)
    }
    fn scale(self, s: f64) -> V {
        V(self.0 * s, self.1 * s, self.2 * s)
    }
    fn dot(self, o: V) -> f64 {
        self.0 * o.0 + self.1 * o.1 + self.2 * o.2
    }
    fn cross(self, o: V) -> V {
        V(
            self.1 * o.2 - self.2 * o.1,
            self.2 * o.0 - self.0 * o.2,
            self.0 * o.1 - self.1 * o.0,
        )
    }
    fn magnitude2(self) -> f64 {
        self.dot(self)
    }
}

const ZERO: V = V(0.0, 0.0, 0.0);

/// A box of the given size, centred on its translation.
struct Cuboid {
    half: V,
}

fn cuboid(x: f64, y: f64, z: f64) -> Cuboid {
    Cuboid { half: V(x / 2.0, y / 2.0, z / 2.0) }
}

fn support(shape: &Cuboid, at: V, d: V) -> V {
    // the first corner of greatest extent along `d`
    let V(hx, hy, hz) = shape.half;
    let corners = [
        V(hx, hy, hz),
        V(-hx, hy, hz),
        V(-hx, -hy, hz),
        V(hx, -hy, hz),
        V(hx, hy, -hz),
        V(-hx, hy, -hz),
        V(-hx, -hy, -hz),
        V(hx, -hy, -hz),
    ];
    let mut best = ZERO;
    let mut best_dot = f64::NEG_INFINITY;
    for c in corners {
        if c.dot(d) > best_dot {
            best = c;
            best_dot = c.dot(d);
        }
    }
    at.add(best)
}

fn minkowski(l: &Cuboid, lt: V, r: &Cuboid, rt: V, d: V) -> V {
    support(l, lt, d).sub(support(r, rt, d.neg()))
}

fn cross_aba(a: V, b: V) -> V {
    a.cross(b).cross(a)
}

/// The origin lies on the side of the face `abc` that `ao` points to: keep the edge or
/// the face it lies beyond and aim `d` at the origin from there.
fn check_side(
    abc: V,
    ab: V,
    ac: V,
    ao: V,
    simplex: &mut Vec<V>,
    d: &mut V,
    above: bool,
    ignore_ab: bool,
) {
    let ab_perp = ab.cross(abc);
    if !ignore_ab && ab_perp.dot(ao) > 0.0 {
        simplex.remove(0);
        *d = cross_aba(ab, ao);
        return;
    }
    let ac_perp = abc.cross(ac);
    if ac_perp.dot(ao) > 0.0 {
        simplex.remove(1);
        *d = cross_aba(ac, ao);
        return;
    }
    if above || abc.dot(ao) > 0.0 {
        *d = abc;
    } else {
        simplex.swap(0, 1);
        *d = abc.neg();
    }
}

fn reduce_to_closest_feature(simplex: &mut Vec<V>, d: &mut V) -> bool {
    if simplex.len() == 4 {
        let a = simplex[3];
        let b = simplex[2];
        let c = simplex[1];
        let dd = simplex[0];
        let ao = a.neg();
        let ab = b.sub(a);
        let ac = c.sub(a);
        let abc = ab.cross(ac);
        if abc.dot(ao) > 0.0 {
            simplex.remove(0);
            check_side(abc, ab, ac, ao, simplex, d, true, false);
        } else {
            let ad = dd.sub(a);
            let acd = ac.cross(ad);
            if acd.dot(ao) > 0.0 {
                simplex.remove(2);
                check_side(acd, ac, ad, ao, simplex, d, true, true);
            } else {
                let adb = ad.cross(ab);
                if adb.dot(ao) > 0.0 {
                    simplex.remove(1);
                    simplex.swap(0, 1);
                    *d = adb;
                } else {
                    return true;
                }
            }
        }
    } else if simplex.len() == 3 {
        let a = simplex[2];
        let b = simplex[1];
        let c = simplex[0];
        let ao = a.neg();
        let ab = b.sub(a);
        let ac = c.sub(a);
        check_side(ab.cross(ac), ab, ac, ao, simplex, d, false, false);
    } else if simplex.len() == 2 {
        let a = simplex[1];
        let b = simplex[0];
        let ao = a.neg();
        let ab = b.sub(a);
        *d = cross_aba(ab, ao);
        if d.magnitude2() == 0.0 {
            d.0 = 1.0;
        }
    }
    false
}

/// The point of triangle [a, b, c] closest to the origin, with the vertices (by index)
/// of the feature it lies on.
fn closest_on_triangle(a: V, b: V, c: V) -> (V, Vec<usize>) {
    let ab = b.sub(a);
    let ac = c.sub(a);
    let ap = a.neg();
    let d1 = ab.dot(ap);
    let d2 = ac.dot(ap);
    if d1 <= 0.0 && d2 <= 0.0 {
        return (a, vec![0]);
    }
    let bp = b.neg();
    let d3 = ab.dot(bp);
    let d4 = ac.dot(bp);
    if d3 >= 0.0 && d4 <= d3 {
        return (b, vec![1]);
    }
    let vc = d1 * d4 - d3 * d2;
    if vc <= 0.0 && d1 >= 0.0 && d3 <= 0.0 {
        let v = d1 / (d1 - d3);
        return (a.add(ab.scale(v)), vec![0, 1]);
    }
    let cp = c.neg();
    let d5 = ab.dot(cp);
    let d6 = ac.dot(cp);
    if d6 >= 0.0 && d5 <= d6 {
        return (c, vec![2]);
    }
    let vb = d5 * d2 - d1 * d6;
    if vb <= 0.0 && d2 >= 0.0 && d6 <= 0.0 {
        let w = d2 / (d2 - d6);
        return (a.add(ac.scale(w)), vec![0, 2]);
    }
    let va = d3 * d6 - d5 * d4;
    if va <= 0.0 && (d4 - d3) >= 0.0 && (d5 - d6) >= 0.0 {
        let w = (d4 - d3) / ((d4 - d3) + (d5 - d6));
        return (b.add(c.sub(b).scale(w)), vec![1, 2]);
    }
    let denom = 1.0 / (va + vb + vc);
    let v = vb * denom;
    let w = vc * denom;
    (a.add(ab.scale(v)).add(ac.scale(w)), vec![0, 1, 2])
}

fn closest_on_segment(a: V, b: V) -> (V, Vec<usize>) {
    let ab = b.sub(a);
    let t = a.neg().dot(ab) / ab.magnitude2();
    if t <= 0.0 {
        (a, vec![0])
    } else if t >= 1.0 {
        (b, vec![1])
    } else {
        (a.add(ab.scale(t)), vec![0, 1])
    }
}

fn get_closest_point_to_origin(simplex: &mut Vec<V>) -> V {
    let (point, keep): (V, Vec<usize>) = match simplex.len() {
        4 => {
            let faces = [[0usize, 1, 2, 3], [0, 1, 3, 2], [0, 2, 3, 1], [1, 2, 3, 0]];
            let mut outside = false;
            let mut best: Option<(V, Vec<usize>)> = None;
            for f in faces {
                let (a, b, c, opposite) =
                    (simplex[f[0]], simplex[f[1]], simplex[f[2]], simplex[f[3]]);
                let n = b.sub(a).cross(c.sub(a));
                let origin_side = n.dot(a.neg());
                let opposite_side = n.dot(opposite.sub(a));
                if origin_side * opposite_side < 0.0 {
                    outside = true;
                }
                let (p, k) = closest_on_triangle(a, b, c);
                let k: Vec<usize> = k.iter().map(|&i| f[i]).collect();
                if best.as_ref().map_or(true, |(q, _)| p.magnitude2() < q.magnitude2()) {
                    best = Some((p, k));
                }
            }
            if !outside {
                return ZERO;
            }
            best.unwrap()
        }
        3 => closest_on_triangle(simplex[0], simplex[1], simplex[2]),
        2 => closest_on_segment(simplex[0], simplex[1]),
        _ => (simplex[0], vec![0]),
    };
    let kept: Vec<V> = keep.iter().map(|&i| simplex[i]).collect();
    *simplex = kept;
    point
}

fn intersect(l: &Cuboid, lt: V, r: &Cuboid, rt: V) -> Option<Vec<V>> {
    let mut d = rt.sub(lt);
    let mut simplex = Vec::new();
    let mut last = None;
    let mut run = IntersectRun::new();
    loop {
        match run.step() {
            IntersectStep::InitialSupport | IntersectStep::Support => {
                let a = minkowski(l, lt, r, rt, d);
                last = Some(a);
                run.report_support(!(a.dot(d) <= 0.0));
            }
            IntersectStep::FlipThenSupport => {
                simplex.extend(last.take());
                d = d.neg();
                let a = minkowski(l, lt, r, rt, d);
                last = Some(a);
                run.report_support(!(a.dot(d) <= 0.0));
            }
            IntersectStep::PushThenReduce => {
                simplex.extend(last.take());
                let enclosed = reduce_to_closest_feature(&mut simplex, &mut d);
                run.report_reduction(enclosed);
            }
            IntersectStep::Hit => return Some(simplex),
            IntersectStep::Miss => return None,
        }
    }
}

fn distance(l: &Cuboid, lt: V, r: &Cuboid, rt: V) -> Option<f64> {
    let mut simplex = vec![
        minkowski(l, lt, r, rt, rt.sub(lt)),
        minkowski(l, lt, r, rt, lt.sub(rt)),
    ];
    let mut d = ZERO;
    let mut run = DistanceRun::new();
    loop {
        match run.step() {
            DistanceStep::ClosestPoint => {
                let c = get_closest_point_to_origin(&mut simplex);
                d = c.neg();
                run.report_closest(c.magnitude2() < 1e-24);
            }
            DistanceStep::Support => {
                let p = minkowski(l, lt, r, rt, d);
                let converged = p.dot(d) - simplex[0].dot(d) < 0.000001;
                if !converged {
                    simplex.push(p);
                }
                run.report_support(converged);
            }
            DistanceStep::Separated => return Some(d.magnitude2().sqrt()),
            DistanceStep::Overlapping | DistanceStep::Exhausted => return None,
        }
    }
}

fn time_of_impact(
    l: &Cuboid,
    l_start: V,
    l_end: V,
    r: &Cuboid,
    r_start: V,
    r_end: V,
) -> Option<f64> {
    let tolerance = 0.000001;
    let rv = l_end.sub(l_start).sub(r_end.sub(r_start));
    let mut lambda = 0.0;
    let at = |s: V, e: V, t: f64| s.add(e.sub(s).scale(t));
    let mut lt = at(l_start, l_end, lambda);
    let mut rt = at(r_start, r_end, lambda);
    let mut simplex = vec![minkowski(l, lt, r, rt, rv.neg())];
    let mut d = simplex[0];
    let (mut vp, mut vr) = (0.0, 0.0);
    let mut last = None;
    let mut run = ImpactRun::new();
    loop {
        match run.step() {
            ImpactStep::CheckProgress => {
                run.report_progress(lambda > 1.0, d.magnitude2() <= tolerance);
            }
            ImpactStep::Support => {
                let p = minkowski(l, lt, r, rt, d.neg());
                vp = d.dot(p);
                vr = d.dot(rv);
                last = Some(p);
                run.report_support(vp > 0.0, vr >= -tolerance);
            }
            ImpactStep::Reduce { advance } => {
                if advance {
                    lambda = lambda - vp / vr;
                    lt = at(l_start, l_end, lambda);
                    rt = at(r_start, r_end, lambda);
                }
                simplex.extend(last.take());
                let enclosed = reduce_to_closest_feature(&mut simplex, &mut d);
                run.report_reduction(lambda > 1.0, enclosed);
            }
            ImpactStep::Impact => return Some(lambda),
            ImpactStep::NoImpact => return None,
        }
    }
}

#[test]
fn test_gjk_3d_hit_simplex() {
    let left = cuboid(10., 10., 10.);
    let right = cuboid(10., 10., 10.);
    let simplex = intersect(&left, V(15., 0., 0.), &right, V(7., 2., 0.));
    assert!(simplex.is_some());
    assert_eq!(simplex.as_ref().unwrap().len(), 4);
    assert_eq!(
        intersection_outcome(CollisionStrategy::FullResolution, simplex.is_some()),
        IntersectionOutcome::ManifoldContact
    );
}

#[test]
fn boxes_apart_do_not_intersect() {
    let left = cuboid(10., 10., 10.);
    let right = cuboid(10., 10., 10.);
    let simplex = intersect(&left, V(15., 0., 0.), &right, V(-15., 0., 3.));
    assert!(simplex.is_none());
    assert_eq!(
        intersection_outcome(CollisionStrategy::CollisionOnly, simplex.is_some()),
        IntersectionOutcome::NoContact
    );
}

#[test]
fn test_gjk_distance_3d() {
    let left = cuboid(10., 10., 10.);
    let right = cuboid(10., 10., 10.);
    assert_eq!(None, distance(&left, V(15., 0., 0.), &right, V(7., 2., 0.)));
    assert_eq!(Some(4.), distance(&left, V(15., 0., 0.), &right, V(1., 0., 0.)));
}

#[test]
fn time_of_impact_3d_without_motion_is_a_miss() {
    let left = cuboid(10., 10., 10.);
    let right = cuboid(10., 10., 10.);
    assert_eq!(
        None,
        time_of_impact(
            &left,
            V(0., 0., 0.),
            V(0., 0., 0.),
            &right,
            V(15., 0., 0.),
            V(15., 0., 0.)
        )
    );
}

#[test]
fn time_of_impact_3d_beyond_the_motion_is_a_miss() {
    let left = cuboid(10., 10., 10.);
    let right = cuboid(10., 10., 10.);
    // the boxes would meet at 5/4 of the motion
    assert_eq!(
        None,
        time_of_impact(
            &left,
            V(0., 0., 0.),
            V(4., 0., 0.),
            &right,
            V(15., 0., 0.),
            V(15., 0., 0.)
        )
    );
}

#[test]
fn test_gjk_time_of_impact_3d() {
    let left = cuboid(10., 10., 10.);
    let right = cuboid(10., 10., 10.);
    let toi = time_of_impact(
        &left,
        V(0., 0., 0.),
        V(30., 0., 0.),
        &right,
        V(15., 0., 0.),
        V(15., 0., 0.),
    );
    let toi = toi.expect("the moving box hits the other one");
    assert!((toi as f32 - 0.1666667f32).abs() <= f32::EPSILON, "time of impact {}", toi);
    assert_eq!(
        None,
        time_of_impact(
            &left,
            V(0., 0., 0.),
            V(0., 0., 0.),
            &right,
            V(15., 0., 0.),
            V(15., 0., 0.)
        )
    );
}

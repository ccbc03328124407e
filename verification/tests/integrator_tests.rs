use std::cell::Cell;
use std::rc::Rc;

use raytracer::hittable::{HitRecord, Hittable};
use raytracer::integrator::{
    advance, exhausted, ray_color, visible_range, Ending, Event, Step, MAX_DEPTH,
};
use raytracer::material::{Material, MaterialBounce};
use raytracer::math::Span;
use raytracer::ray::Ray;
use raytracer::scalar::Scalar;
use raytracer::vec3::Vec3;

fn int_scalar(x: f64) -> Scalar {
    Scalar::from_bits(x.to_bits())
}

fn int_vec(x: f64, y: f64, z: f64) -> Vec3 {
    Vec3::new(int_scalar(x), int_scalar(y), int_scalar(z))
}

fn int_floats(v: Vec3) -> (f64, f64, f64) {
    (
        f64::from_bits(v.x().to_bits()),
        f64::from_bits(v.y().to_bits()),
        f64::from_bits(v.z().to_bits()),
    )
}

fn int_ray() -> Ray {
    Ray::new(int_vec(0.0, 0.0, 0.0), int_vec(0.0, 0.0, -1.0))
}

fn int_bounce() -> MaterialBounce {
    MaterialBounce::new(
        Ray::new(int_vec(1.0, 2.0, 3.0), int_vec(0.0, 1.0, 0.0)),
        int_vec(0.8, 0.8, 0.0),
    )
}

/// A surface that sends every ray on for a number of times, each time one
/// unit further along x and tinted by how often it has done so, and then
/// swallows every ray.
struct Counting {
    left: Cell<u32>,
    done: Cell<u32>,
}

impl Material for Counting {
    fn scatter(&self, ray: Ray, _: HitRecord<Counting>) -> Option<MaterialBounce> {
        if self.left.get() == 0 {
            return None;
        }
        self.left.set(self.left.get() - 1);
        self.done.set(self.done.get() + 1);
        let x = f64::from_bits(ray.origin().x().to_bits());
        let k = self.done.get() as f64;
        Some(MaterialBounce::new(
            Ray::new(int_vec(x + 1.0, 0.0, 0.0), ray.direction()),
            int_vec(k, k, k),
        ))
    }
}

/// A scene that every ray hits, for a number of times, and then none.
struct Wall {
    surface: Rc<Counting>,
    hits_left: Cell<u32>,
    asked: Cell<u32>,
}

impl Hittable<Counting> for Wall {
    fn hit(&self, _: Ray, t: Span) -> Option<HitRecord<Counting>> {
        self.asked.set(self.asked.get() + 1);
        assert_eq!(t.start.to_bits(), 0.001f64.to_bits());
        assert_eq!(t.end.to_bits(), f64::MAX.to_bits());
        if self.hits_left.get() == 0 {
            return None;
        }
        self.hits_left.set(self.hits_left.get() - 1);
        Some(HitRecord::oriented(
            int_scalar(1.0),
            int_vec(0.0, 0.0, -1.0),
            int_vec(0.0, 0.0, 1.0),
            int_scalar(-1.0),
            self.surface.clone(),
        ))
    }
}

fn wall(hits: u32, bounces: u32) -> Wall {
    Wall {
        surface: Rc::new(Counting { left: Cell::new(bounces), done: Cell::new(0) }),
        hits_left: Cell::new(hits),
        asked: Cell::new(0),
    }
}

#[test]
fn cutoff_is_fifty() {
    assert_eq!(MAX_DEPTH, 50);
    assert!(!exhausted(0));
    assert!(!exhausted(50));
    assert!(exhausted(51));
    assert!(exhausted(u32::MAX));
}

#[test]
fn past_the_cutoff_everything_is_black() {
    assert!(matches!(advance(51, Event::Miss), Step::Black));
    assert!(matches!(advance(51, Event::Absorbed), Step::Black));
    assert!(matches!(advance(51, Event::Scattered(int_bounce())), Step::Black));
    assert!(matches!(advance(u32::MAX, Event::Scattered(int_bounce())), Step::Black));
}

#[test]
fn a_miss_ends_in_the_sky() {
    assert!(matches!(advance(0, Event::Miss), Step::Sky));
    assert!(matches!(advance(50, Event::Miss), Step::Sky));
}

#[test]
fn an_absorbed_ray_is_black() {
    assert!(matches!(advance(0, Event::Absorbed), Step::Black));
    assert!(matches!(advance(50, Event::Absorbed), Step::Black));
}

#[test]
fn a_scattered_ray_goes_one_level_deeper() {
    match advance(7, Event::Scattered(int_bounce())) {
        Step::Bounce { ray, attenuation, depth } => {
            assert_eq!(depth, 8);
            assert_eq!(int_floats(ray.origin()), (1.0, 2.0, 3.0));
            assert_eq!(int_floats(ray.direction()), (0.0, 1.0, 0.0));
            assert_eq!(int_floats(attenuation), (0.8, 0.8, 0.0));
        }
        _ => panic!("the ray should go on"),
    }
}

#[test]
fn scene_is_searched_from_a_thousandth_on() {
    let t = visible_range();
    assert_eq!(t.start.to_bits(), 0.001f64.to_bits());
    assert_eq!(t.end.to_bits(), f64::MAX.to_bits());
    assert!(t.contains(int_scalar(0.001)));
    assert!(!t.contains(int_scalar(0.0009)));
    assert!(!t.contains(int_scalar(f64::MAX)));
}

#[test]
fn ray_color_past_the_cutoff_is_black_and_asks_nothing() {
    let world = wall(1000, 1000);
    for depth in [51, 52, 1000, u32::MAX] {
        let path = ray_color(int_ray(), &world, depth);
        assert_eq!(path.ending, Ending::Black);
        assert!(path.tints.is_empty());
        assert_eq!(int_floats(path.ray.direction()), (0.0, 0.0, -1.0));
    }
    assert_eq!(world.asked.get(), 0);
}

#[test]
fn ray_color_of_a_miss_is_sky() {
    let world = wall(0, 0);
    let path = ray_color(int_ray(), &world, 0);
    assert_eq!(path.ending, Ending::Sky);
    assert!(path.tints.is_empty());
    assert_eq!(int_floats(path.ray.origin()), (0.0, 0.0, 0.0));
    assert_eq!(world.asked.get(), 1);
}

#[test]
fn ray_color_of_a_swallowed_ray_is_black() {
    let world = wall(5, 0);
    let path = ray_color(int_ray(), &world, 0);
    assert_eq!(path.ending, Ending::Black);
    assert!(path.tints.is_empty());
    assert_eq!(world.asked.get(), 1);
}

#[test]
fn ray_color_collects_tints_in_order_until_the_sky() {
    let world = wall(3, 1000);
    let path = ray_color(int_ray(), &world, 0);
    assert_eq!(path.ending, Ending::Sky);
    let tints: Vec<f64> = path.tints.iter().map(|c| int_floats(*c).0).collect();
    assert_eq!(tints, vec![1.0, 2.0, 3.0]);
    assert_eq!(int_floats(path.ray.origin()), (3.0, 0.0, 0.0));
    assert_eq!(world.asked.get(), 4);
}

#[test]
fn ray_color_collects_tints_until_swallowed() {
    let world = wall(1000, 2);
    let path = ray_color(int_ray(), &world, 0);
    assert_eq!(path.ending, Ending::Black);
    assert_eq!(path.tints.len(), 2);
    assert_eq!(int_floats(path.ray.origin()), (2.0, 0.0, 0.0));
    assert_eq!(world.asked.get(), 3);
}

#[test]
fn a_path_of_mirrors_ends_after_fifty_one_bounces() {
    let world = wall(u32::MAX, u32::MAX);
    let path = ray_color(int_ray(), &world, 0);
    assert_eq!(path.ending, Ending::Black);
    assert_eq!(path.tints.len(), 51);
    assert_eq!(world.asked.get(), 51);
    assert_eq!(int_floats(path.tints[50]), (51.0, 51.0, 51.0));
}

#[test]
fn a_path_that_starts_deep_has_less_room() {
    let world = wall(u32::MAX, u32::MAX);
    let path = ray_color(int_ray(), &world, 48);
    assert_eq!(path.ending, Ending::Black);
    assert_eq!(path.tints.len(), 3);
}

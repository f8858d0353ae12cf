use raytracer::light::{LightKind, LightTerm};
use raytracer::quadratics::Quadratic;
use raytracer::render::{gray, gray_level, nearest_hit, render, BACKGROUND};
use raytracer::scene::{world_intersections, Meeting, Screen};

type V = [f64; 3];

fn plus(u: V, v: V) -> V {
    [u[0] + v[0], u[1] + v[1], u[2] + v[2]]
}

fn minus(u: V, v: V) -> V {
    [u[0] - v[0], u[1] - v[1], u[2] - v[2]]
}

fn scale(u: V, l: f64) -> V {
    [l * u[0], l * u[1], l * u[2]]
}

fn dot(u: V, v: V) -> f64 {
    u[0] * v[0] + u[1] * v[1] + u[2] * v[2]
}

fn normalized(u: V) -> V {
    scale(u, 1.0 / dot(u, u).sqrt())
}

const CENTER: V = [0.0, 4.0, 1.5];
const RADIUS: f64 = 1.0;
const AMBIENT: f64 = 0.19;
const INTENSITY: f64 = 3.0;

/// What a ray finds of the sphere and of the floor at height zero.
fn meetings(origin: V, dir: V) -> Vec<Meeting> {
    let diff = minus(origin, CENTER);
    let a = dot(dir, dir);
    let b = 2.0 * dot(dir, diff);
    let c = -RADIUS * RADIUS + dot(diff, diff);
    let discr = b * b - 4.0 * a * c;
    let roots = |q: f64| ((q / a).to_bits(), (c / q).to_bits());
    vec![
        Meeting::Sphere(Quadratic {
            b: b.to_bits(),
            discriminant: discr.to_bits(),
            double_root: (-0.5 * b / a).to_bits(),
            roots_by_sum: roots(-0.5 * (b + discr.sqrt())),
            roots_by_difference: roots(-0.5 * (b - discr.sqrt())),
        }),
        Meeting::Floor { rise: dir[2].to_bits(), crossing: ((0.0 - origin[2]) / dir[2]).to_bits() },
    ]
}

/// What the renderer learns of one pixel.
struct Traced {
    shade: Option<u8>,
    on_sphere: bool,
    cos_theta: f64,
    term: LightTerm,
}

fn trace(eye: V, dir: V, sun: V) -> Traced {
    let world = world_intersections(&meetings(eye, dir));
    let hit = match nearest_hit(&world) {
        None => {
            return Traced {
                shade: None,
                on_sphere: false,
                cos_theta: 0.0,
                term: LightTerm::Ambient,
            }
        }
        Some(hit) => hit,
    };
    let t = f64::from_bits(hit.param);
    let point = plus(eye, scale(dir, t));
    let normal = if hit.object == 0 { normalized(minus(point, CENTER)) } else { [0.0, 0.0, 1.0] };
    let from = plus(eye, scale(dir, t - 0.01));
    let cos_theta = dot(normal, sun);
    let shadow_world = world_intersections(&meetings(from, sun));
    let term = LightKind::Sun.illumination_term(&shadow_world, cos_theta.to_bits());
    let level = match term {
        LightTerm::Ambient => AMBIENT,
        LightTerm::Intensity => INTENSITY,
    };
    let illumination = level * cos_theta;
    let distance = dot(scale(dir, t), scale(dir, t)).sqrt();
    let c = illumination / (1.0 + distance);
    Traced {
        shade: Some(gray_level((c * 255.0).to_bits())),
        on_sphere: hit.object == 0,
        cos_theta,
        term,
    }
}

#[test]
fn frame_of_a_sphere_on_a_floor_under_a_sun() {
    let width: u16 = 48;
    let height: u16 = 36;
    let screen = Screen::new(width, height).unwrap();
    let eye: V = [0.0, 0.0, 1.5];
    let center: V = [0.0, 0.2, 1.5];
    let step = 0.3 / width as f64;
    let sun = normalized([-1.0, -0.4, 0.6]);

    let mut traced = Vec::new();
    let mut shades = Vec::new();
    for x in 0..width {
        for y in 0..height {
            let (dx, dy) = screen.pixel(x, y);
            let point = plus(center, [step * dx as f64, 0.0, step * dy as f64]);
            let pixel = trace(eye, minus(point, eye), sun);
            shades.push(pixel.shade);
            traced.push(pixel);
        }
    }
    let mut buffer = vec![0xDEADu32; width as usize * height as usize];
    render(&shades, &mut buffer, width, height);

    let mut missed = 0;
    let mut lit: Vec<u32> = Vec::new();
    let mut dark: Vec<u32> = Vec::new();
    for x in 0..width as usize {
        for y in 0..height as usize {
            let pixel = &traced[x * height as usize + y];
            let color = buffer[y * width as usize + x];
            match pixel.shade {
                None => {
                    missed += 1;
                    assert_eq!(color, BACKGROUND);
                }
                Some(level) => assert_eq!(color, gray(level)),
            }
            if pixel.on_sphere && pixel.term == LightTerm::Intensity && pixel.cos_theta > 0.3 {
                lit.push(color);
            }
            if pixel.on_sphere && pixel.term == LightTerm::Ambient {
                dark.push(color);
            }
        }
    }
    // the sky above the floor and beside the sphere, both sides of the sphere
    assert!(missed > 100);
    assert!(lit.len() > 10);
    assert!(dark.len() > 10);
    let darkest_lit = lit.iter().min().unwrap();
    let brightest_dark = dark.iter().max().unwrap();
    assert!(darkest_lit > brightest_dark);
}

#[test]
fn frame_without_objects_is_all_background() {
    let shades = vec![None; 12];
    let mut buffer = vec![0u32; 12];
    render(&shades, &mut buffer, 4, 3);
    assert_eq!(buffer, vec![BACKGROUND; 12]);
    assert_eq!(nearest_hit(&world_intersections(&Vec::new())), None);
}

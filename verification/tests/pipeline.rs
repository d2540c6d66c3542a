use rustray::camera::{cos_fx, sin_fx, Camera, Ray};
use rustray::fixed::{Vec2, SCALE};
use rustray::renderer::{floor_ceil, should_drop, Renderer};
use rustray::scene::{Scene, Segment};
use rustray::texture::{BlendMode, Color, Texture};
use rustray::audio::{Wave, WaveType};

fn unit() -> i64 {
    SCALE
}

fn vertical_wall(x: i64) -> Segment {
    Segment {
        a: Vec2 { x, y: -unit() },
        b: Vec2 { x, y: unit() },
        texture: Texture::Solid(Color { r: SCALE, g: SCALE, b: SCALE }),
    }
}

#[test]
fn trig_axis_values_are_exact() {
    assert_eq!(sin_fx(0), 0);
    assert_eq!(cos_fx(0), SCALE);
    assert_eq!(sin_fx(16384), SCALE);
}

#[test]
fn intersection_hits_midpoint() {
    let seg = vertical_wall(0);
    let ray = Ray { origin: Vec2 { x: -unit(), y: 0 }, dir: Vec2 { x: SCALE, y: 0 } };
    let hit = seg.intersection(&ray).expect("crossing expected");
    // the crossing is at (0, 0): u is one half along the wall
    assert_eq!(hit.xn, 0);
    assert_eq!(hit.un * 2, hit.ud);
}

#[test]
fn parallel_ray_misses() {
    let seg = vertical_wall(0);
    let ray = Ray { origin: Vec2 { x: -unit(), y: 0 }, dir: Vec2 { x: 0, y: SCALE } };
    assert!(seg.intersection(&ray).is_none());
}

#[test]
fn nearest_of_three_walls_wins() {
    let scene = Scene {
        segments: vec![vertical_wall(3 * unit()), vertical_wall(unit()), vertical_wall(5 * unit())],
    };
    let ray = Ray { origin: Vec2 { x: 0, y: 0 }, dir: Vec2 { x: SCALE, y: 0 } };
    let hit = scene.sample(&ray).expect("a wall is ahead");
    assert_eq!(hit.segment, 1);
    assert_eq!(hit.dist, SCALE as i128);
}

#[test]
fn empty_scene_yields_nothing() {
    let scene = Scene { segments: vec![] };
    let ray = Ray { origin: Vec2 { x: 0, y: 0 }, dir: Vec2 { x: SCALE, y: 0 } };
    assert!(scene.sample(&ray).is_none());
}

#[test]
fn wall_behind_the_ray_yields_nothing() {
    let scene = Scene { segments: vec![vertical_wall(-unit())] };
    let ray = Ray { origin: Vec2 { x: 0, y: 0 }, dir: Vec2 { x: SCALE, y: 0 } };
    assert!(scene.sample(&ray).is_none());
}

#[test]
fn identity_resample_reproduces_buffer() {
    let mut rd = Renderer::new(2, 2).expect("dimensions are fine");
    let cells = vec![
        Color { r: 1, g: 2, b: 3 },
        Color { r: 4, g: 5, b: 6 },
        Color { r: 7, g: 8, b: 9 },
        Color { r: 10, g: 11, b: 12 },
    ];
    rd.set_cpu_texture(cells.clone(), 2, 2);
    assert_eq!(rd.into_cpu_texture(), cells);
}

#[test]
fn dropout_extremes() {
    for d in [0, 1, 1000, SCALE - 1] {
        assert!(!should_drop(d, 0));
        assert!(should_drop(d, SCALE));
    }
}

#[test]
fn compound_of_solids_blends_exactly() {
    let c1 = Color { r: SCALE / 2, g: SCALE, b: 0 };
    let c2 = Color { r: SCALE / 2, g: SCALE / 4, b: SCALE };
    let mul = Texture::Compound(
        Box::new(Texture::Solid(c1)),
        Box::new(Texture::Solid(c2)),
        BlendMode::Multiply,
    );
    assert_eq!(mul.sample(0, 0, 0), Color { r: SCALE / 4, g: SCALE / 4, b: 0 });
    let add = Texture::Compound(
        Box::new(Texture::Solid(c1)),
        Box::new(Texture::Solid(c2)),
        BlendMode::Add,
    );
    assert_eq!(add.sample(0, 0, 0), Color { r: SCALE, g: SCALE + SCALE / 4, b: SCALE });
    let mean = Texture::Compound(
        Box::new(Texture::Solid(c1)),
        Box::new(Texture::Solid(c2)),
        BlendMode::Mean,
    );
    assert_eq!(mean.sample(0, 0, 0), Color { r: SCALE / 2, g: SCALE / 2 + SCALE / 8, b: SCALE / 2 });
}

#[test]
fn perp_dist_ignores_ray_angle() {
    // a wall perpendicular to the forward axis at distance three: every
    // point on it reports the same forward distance
    let cam = Camera { pos: Vec2 { x: 0, y: 0 }, rot: 0, fov: 12000, noise: 0, fog_dist: 0 };
    let d = cam.get_perp_dist_to(Vec2 { x: 3 * unit(), y: 0 });
    let d2 = cam.get_perp_dist_to(Vec2 { x: 3 * unit(), y: 54321 });
    let d3 = cam.get_perp_dist_to(Vec2 { x: 3 * unit(), y: -7777 });
    assert_eq!(d, 3 * unit());
    assert_eq!(d2, d);
    assert_eq!(d3, d);
}

#[test]
fn glitch_texture_stays_within_intensity() {
    let t = Texture::Glitch(SCALE / 2);
    for _ in 0..32 {
        let c = t.sample(0, 0, 0);
        assert!(c.r >= 0 && c.r <= SCALE / 2);
        assert_eq!(c.r, c.g);
        assert_eq!(c.g, c.b);
    }
    assert!(t.contains_glitch());
    assert!(!Texture::Solid(Color { r: 0, g: 0, b: 0 }).contains_glitch());
}

#[test]
fn degenerate_wall_is_rejected() {
    let bad = Segment {
        a: Vec2 { x: 5, y: 5 },
        b: Vec2 { x: 5, y: 5 },
        texture: Texture::Solid(Color { r: 0, g: 0, b: 0 }),
    };
    assert!(Scene::new(vec![bad]).is_none());
    assert!(Scene::new(vec![vertical_wall(0)]).is_some());
}

#[test]
fn wave_shapes_at_known_times() {
    assert_eq!(WaveType::Sine.get(SCALE, 0), 0);
    assert_eq!(WaveType::Square.get(SCALE, SCALE / 2), -SCALE);
    assert_eq!(WaveType::Square.get(SCALE, SCALE + SCALE / 2), SCALE);
    assert_eq!(WaveType::Saw.get(SCALE, 0), -SCALE);
    let w = Wave::new(WaveType::Saw, SCALE, SCALE / 2);
    assert_eq!(w.get(0), -SCALE / 2);
}

#[test]
fn full_noise_is_pure_decay() {
    // noise at one skips every write on a glitch-free scene: the frame is
    // exactly the decayed prior buffer
    let mut rd = Renderer::new(4, 4).expect("dimensions are fine");
    let seed: Vec<Color> = (0..16)
        .map(|i| Color { r: 100 * i, g: 200 * i, b: 300 * i })
        .collect();
    rd.set_cpu_texture(seed.clone(), 4, 4);
    let scene = Scene { segments: vec![vertical_wall(2 * unit())] };
    let cam = Camera { pos: Vec2 { x: 0, y: 0 }, rot: 0, fov: 12000, noise: SCALE, fog_dist: 0 };
    let half = SCALE / 2;
    rd.draw(&scene, &cam, half);
    let cells = rd.into_cpu_texture();
    for (c, s) in cells.iter().zip(seed.iter()) {
        assert_eq!(c.r, s.r * half / SCALE);
        assert_eq!(c.g, s.g * half / SCALE);
        assert_eq!(c.b, s.b * half / SCALE);
    }
}

#[test]
fn zero_noise_overwrites_every_cell() {
    // noise at zero never skips: the frame is freshly computed everywhere,
    // so two buffers with different prior contents end up identical
    let scene = Scene { segments: vec![vertical_wall(2 * unit())] };
    let cam = Camera { pos: Vec2 { x: 0, y: 0 }, rot: 0, fov: 12000, noise: 0, fog_dist: 0 };
    let mut fresh = Renderer::new(4, 4).expect("dimensions are fine");
    let mut seeded = Renderer::new(4, 4).expect("dimensions are fine");
    let junk: Vec<Color> = (0..16).map(|i| Color { r: 999 * i, g: 0, b: 5 }).collect();
    seeded.set_cpu_texture(junk, 4, 4);
    fresh.draw(&scene, &cam, SCALE / 2);
    seeded.draw(&scene, &cam, SCALE / 2);
    assert_eq!(fresh.into_cpu_texture(), seeded.into_cpu_texture());
}

#[test]
fn floor_and_ceiling_mirror_for_even_splits() {
    // heights that divide 2 * SCALE mirror exactly about the midline
    let cam = Camera { pos: Vec2 { x: 0, y: 0 }, rot: 0, fov: 12000, noise: 0, fog_dist: 0 };
    let ray = Ray { origin: Vec2 { x: 0, y: 0 }, dir: Vec2 { x: SCALE, y: 0 } };
    let h = 8usize;
    for y in 0..h / 2 {
        let top = floor_ceil(y, 8, h, &ray, &cam);
        let bottom = floor_ceil(h - 1 - y, 8, h, &ray, &cam);
        assert_eq!(top, bottom);
    }
}

#[test]
fn draw_keeps_dimensions() {
    let mut rd = Renderer::new(8, 8).expect("dimensions are fine");
    let scene = Scene { segments: vec![vertical_wall(2 * unit())] };
    let cam = Camera { pos: Vec2 { x: 0, y: 0 }, rot: 0, fov: 12000, noise: 0, fog_dist: 0 };
    rd.draw(&scene, &cam, SCALE / 2);
    assert_eq!(rd.width(), 8);
    assert_eq!(rd.height(), 8);
}

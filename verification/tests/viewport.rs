use raycaster::fixed::Fixed;
use raycaster::geometry::light::{background, intensity, shade, tint, Channel, Color};
use raycaster::geometry::shape::Sphere;
use raycaster::geometry::{Intersect, Ray, Viewport, R3, X, Z};

const ONE: i64 = 1099511627776;

fn fx(v: f64) -> Fixed {
    Fixed::from_raw((v * 1099511627776.0).round() as i64)
}

fn fl(v: Fixed) -> f64 {
    v.raw as f64 / 1099511627776.0
}

fn v3(x: f64, y: f64, z: f64) -> R3 {
    R3::new(fx(x), fx(y), fx(z))
}

fn raw3(x: i64, y: i64, z: i64) -> R3 {
    R3::new(Fixed::from_raw(x), Fixed::from_raw(y), Fixed::from_raw(z))
}

#[test]
fn viewport_remembers_what_it_was_made_from() {
    let v = Viewport::new(800, 600, fx(1.0));
    assert_eq!(v.w(), 800);
    assert_eq!(v.h(), 600);
    assert_eq!(v.clip(), fx(1.0));
}

#[test]
fn camera_stands_at_the_origin_and_looks_along_z() {
    let v = Viewport::new(800, 600, fx(1.0));
    assert_eq!(v.eye(), R3::zero());
    assert_eq!(v.dir(), Z());
    assert_eq!(v.fov(), Fixed::from_int(90));
}

#[test]
fn top_left_pixel_starts_at_the_corner_of_the_view_plane() {
    // width 2, height 1.5: the corner is (-1, 0.75, 1).
    let r = Viewport::new(800, 600, fx(1.0)).get_ray(0, 0);
    assert_eq!(r.pt, v3(-1.0, 0.75, 1.0));
    assert_eq!(r.dir, raw3(-686859468600, 515144601450, 686859468600));
}

#[test]
fn bottom_right_pixel_exact_ray() {
    // (2 * 799 - 800) / 800 and (600 - 2 * 599) / 800, each rounded once.
    let r = Viewport::new(800, 600, fx(1.0)).get_ray(799, 599);
    assert_eq!(r.pt, raw3(1096762848706, -821884941762, 1099511627776));
    assert_eq!(r.dir, raw3(686313399704, -514305028851, 688033483413));
    assert!((fl(r.pt.x) - 0.9975).abs() < 1e-12);
    assert!((fl(r.pt.y) - -0.7475).abs() < 1e-12);
}

#[test]
fn center_pixel_looks_straight_ahead() {
    let r = Viewport::new(800, 600, fx(1.0)).get_ray(400, 300);
    assert_eq!(r, Ray { pt: v3(0.0, 0.0, 1.0), dir: Z() });
}

#[test]
fn pixel_past_the_last_mirrors_the_first() {
    let v = Viewport::new(800, 600, fx(1.0));
    assert_eq!(v.get_ray(800, 600).pt, v3(1.0, -0.75, 1.0));
    assert_eq!(v.get_ray(0, 0).pt, v3(-1.0, 0.75, 1.0));
    let v = Viewport::new(100, 100, fx(2.0));
    assert_eq!(v.get_ray(0, 0).pt, v3(-2.0, 2.0, 2.0));
    assert_eq!(v.get_ray(100, 100).pt, v3(2.0, -2.0, 2.0));
    assert_eq!(v.get_ray(50, 50).pt, v3(0.0, 0.0, 2.0));
    assert_eq!(v.get_ray(25, 75).pt, v3(-1.0, -1.0, 2.0));
}

#[test]
fn points_are_within_a_raw_unit_of_the_exact_position() {
    for (w, h) in [(7, 3), (1366, 768), (3, 7), (1000, 1)] {
        let v = Viewport::new(w, h, fx(1.0));
        for i in [0, 1, w / 3, w / 2, w - 1, w] {
            for j in [0, 1, h / 3, h / 2, h - 1, h] {
                let p = v.get_ray(i, j).pt;
                let x = (2 * i - w) as f64 / w as f64;
                let y = (h - 2 * j) as f64 / w as f64;
                assert!((fl(p.x) - x).abs() < 1e-12);
                assert!((fl(p.y) - y).abs() < 1e-12);
                assert_eq!(p.z, fx(1.0));
            }
        }
    }
}

#[test]
fn corner_rays_differ_along_both_axes_and_have_unit_directions() {
    let v = Viewport::new(800, 600, fx(1.0));
    let a = v.get_ray(0, 0);
    let b = v.get_ray(799, 599);
    assert_ne!(a, b);
    assert_ne!(a.pt.x, b.pt.x);
    assert_ne!(a.pt.y, b.pt.y);
    assert!((fl(a.dir.norm()) - 1.0).abs() < 1e-9);
    assert!((fl(b.dir.norm()) - 1.0).abs() < 1e-9);
}

#[test]
fn columns_run_to_the_right_and_rows_run_downward() {
    let v = Viewport::new(800, 600, fx(1.0));
    for i in 0..800 {
        assert!(v.get_ray(i, 10).pt.x.raw < v.get_ray(i + 1, 10).pt.x.raw);
        assert_eq!(v.get_ray(i, 10).pt.y, v.get_ray(i + 1, 10).pt.y);
    }
    for j in 0..600 {
        assert!(v.get_ray(10, j).pt.y.raw > v.get_ray(10, j + 1).pt.y.raw);
    }
}

#[test]
fn view_plane_narrower_than_its_pixels_in_raw_units() {
    // With the view plane two raw units wide, 800 columns share three
    // positions: they still run to the right, but not strictly.
    let v = Viewport::new(800, 600, Fixed::from_raw(1));
    let mut last = i64::MIN;
    for i in 0..=800 {
        let x = v.get_ray(i, 0).pt.x.raw;
        assert!(last <= x);
        assert!(-1 <= x && x <= 1);
        last = x;
    }
    assert_eq!(v.get_ray(1, 0).pt.x, v.get_ray(2, 0).pt.x);
    // From 800 raw units on, each column has a place of its own.
    let v = Viewport::new(800, 600, Fixed::from_raw(800));
    for i in 0..800 {
        assert!(v.get_ray(i, 0).pt.x.raw < v.get_ray(i + 1, 0).pt.x.raw);
    }
}

#[test]
fn direction_is_the_normalized_point_whatever_the_clip_distance() {
    for clip in [1, 3, 1 << 20, 1 << 40, 1 << 50] {
        let v = Viewport::new(1, 1, Fixed::from_raw(clip));
        for (i, j) in [(0, 0), (1, 0), (0, 1), (1, 1)] {
            let r = v.get_ray(i, j);
            let u = r.pt.normalize();
            assert!((r.dir.x.raw - u.x.raw).abs() <= 4);
            assert!((r.dir.y.raw - u.y.raw).abs() <= 4);
            assert!((r.dir.z.raw - u.z.raw).abs() <= 4);
            assert!(r.dir.z.raw > 0);
            let n = r.dir.norm().raw;
            assert!(ONE - 3 <= n && n <= ONE);
        }
    }
}

#[test]
fn clip_distance_moves_and_widens_the_view_plane() {
    let r = Viewport::new(4, 2, fx(3.0)).get_ray(0, 0);
    // width 6, height 3: the corner is (-3, 1.5, 3).
    assert_eq!(r.pt, v3(-3.0, 1.5, 3.0));
    let s = Viewport::new(4, 2, fx(3.0)).get_ray(4, 2);
    assert_eq!(s.pt, v3(3.0, -1.5, 3.0));
}

#[test]
fn pixels_outside_the_image_are_extrapolated() {
    let v = Viewport::new(800, 600, fx(1.0));
    assert_eq!(v.get_ray(-1, -1).pt, raw3(-1102260406845, 827382499901, 1099511627776));
    assert_eq!(v.get_ray(-800, -600).pt, v3(-3.0, 2.25, 1.0));
    assert_eq!(v.get_ray(1600, 1200).pt, v3(3.0, -2.25, 1.0));
    assert_eq!(
        v.get_ray(i32::MIN, i32::MIN),
        Ray { pt: raw3(-5902959203098684293, 5902958928220777349, 1099511627776), dir: raw3(-777472146095, 777472109891, 144815) }
    );
    assert_eq!(
        v.get_ray(i32::MAX, i32::MAX),
        Ray { pt: raw3(5902957001326649671, -5902957276204556615, 1099511627776), dir: raw3(777472109891, -777472146095, 144815) }
    );
}

#[test]
fn viewport_without_pixels_does_not_fail() {
    let v = Viewport::new(0, 0, fx(1.0));
    assert_eq!(
        v.get_ray(3, 4),
        Ray { pt: raw3(9223372036854775807, -9223372036854775808, 1099511627776), dir: raw3(777472127993, -777472127993, 92681) }
    );
    assert_eq!(v.get_ray(0, 0).pt, raw3(0, 0, 1099511627776));
}

#[test]
fn center_pixel_sees_the_sphere_in_front() {
    let v = Viewport::new(800, 600, fx(1.0));
    let front = Sphere::new(v3(0.0, 0.0, 5.0), fx(2.0));
    let back = Sphere::new(v3(-3.0, 1.0, 8.0), fx(2.0));
    let r = v.get_ray(400, 300);
    // From (0, 0, 1) the center lies at 4: the distance is 2 * 4 - 2 = 6.
    assert_eq!(front.intersect(r), Some(Ray { pt: v3(0.0, 0.0, 7.0), dir: Z() }));
    assert_eq!(back.intersect(r), None);
    assert!(front.intersect(v.get_ray(0, 0)).is_none());
}

#[test]
fn intensity_follows_the_alignment_with_the_light() {
    let toward = Ray { pt: R3::zero(), dir: fx(-1.0).times(X()) };
    let away = Ray { pt: R3::zero(), dir: X() };
    let half = Ray { pt: R3::zero(), dir: v3(-0.5, 0.5, 0.0) };
    let across = Ray { pt: R3::zero(), dir: v3(0.0, 1.0, 0.0) };
    assert_eq!(intensity(toward), 255);
    assert_eq!(intensity(away), 0);
    assert_eq!(intensity(half), 127);
    assert_eq!(intensity(across), 0);
}

#[test]
fn intensity_stops_at_255() {
    let long = Ray { pt: R3::zero(), dir: v3(-3.0, 0.0, 0.0) };
    assert_eq!(intensity(long), 255);
    let longest = Ray { pt: R3::zero(), dir: raw3(i64::MIN, 0, 0) };
    assert_eq!(intensity(longest), 255);
}

#[test]
fn intensity_of_reflected_rays() {
    let v = Viewport::new(800, 600, fx(1.0));
    let front = Sphere::new(v3(0.0, 0.0, 5.0), fx(2.0));
    let back = Sphere::new(v3(-3.0, 1.0, 8.0), fx(2.0));
    assert_eq!(intensity(back.intersect(v.get_ray(136, 208)).unwrap()), 220);
    assert_eq!(intensity(back.intersect(v.get_ray(232, 256)).unwrap()), 125);
    assert_eq!(intensity(front.intersect(v.get_ray(232, 256)).unwrap()), 245);
    assert_eq!(intensity(front.intersect(v.get_ray(240, 352)).unwrap()), 242);
}

#[test]
fn tint_fills_one_channel() {
    assert_eq!(tint(Channel::Red, 7), Color { r: 7, g: 0, b: 0 });
    assert_eq!(tint(Channel::Green, 8), Color { r: 0, g: 8, b: 0 });
    assert_eq!(tint(Channel::Blue, 9), Color { r: 0, g: 0, b: 9 });
}

#[test]
fn shade_is_white_on_a_miss_and_tinted_on_a_hit() {
    assert_eq!(background(), Color { r: 255, g: 255, b: 255 });
    assert_eq!(shade(None), Color { r: 255, g: 255, b: 255 });
    let half = Ray { pt: R3::zero(), dir: v3(-0.5, 0.5, 0.0) };
    assert_eq!(shade(Some((Channel::Red, half))), Color { r: 127, g: 0, b: 0 });
    assert_eq!(shade(Some((Channel::Green, half))), Color { r: 0, g: 127, b: 0 });
    assert_eq!(shade(Some((Channel::Blue, half))), Color { r: 0, g: 0, b: 127 });
}

#[test]
fn every_primary_ray_has_unit_direction() {
    let viewports = [
        Viewport::new(800, 600, fx(1.0)),
        Viewport::new(1, 1, fx(0.5)),
        Viewport::new(32768, 32768, fx(1024.0)),
        Viewport::new(1, 32768, fx(1024.0)),
        Viewport::new(640, 480, fx(3.25)),
    ];
    for v in viewports {
        let (w, h) = (v.w(), v.h());
        for a in 0..=16 {
            for b in 0..=16 {
                let i = (w as i64 * a / 16) as i32;
                let j = (h as i64 * b / 16) as i32;
                let r = v.get_ray(i, j);
                let n = r.dir.norm().raw;
                assert!(ONE - 3 <= n && n <= ONE + 1);
                assert_eq!(r.pt.z, v.clip());
            }
        }
    }
}

#[test]
fn every_reflected_ray_has_unit_direction() {
    let v = Viewport::new(800, 600, fx(1.0));
    let shapes = [
        Sphere::new(v3(0.0, 0.0, 5.0), fx(2.0)),
        Sphere::new(v3(-3.0, 1.0, 8.0), fx(2.0)),
        Sphere::new(v3(0.25, -0.125, 1.0), fx(0.001)),
        Sphere::new(v3(1000.0, -2000.0, 30000.0), fx(40000.0)),
    ];
    let mut hits = 0;
    for i in (0..800).step_by(11) {
        for j in (0..600).step_by(7) {
            for s in shapes {
                if let Some(out) = s.intersect(v.get_ray(i, j)) {
                    let n = out.dir.norm().raw;
                    assert!(ONE - 3 <= n && n <= ONE + 1);
                    hits += 1;
                }
            }
        }
    }
    assert!(hits > 1000);
}

#[test]
fn get_ray_exact_values_for_assorted_viewports() {
    // w, h, clip, i, j, origin and direction of the ray
    let cases: [(i32, i32, i64, i32, i32, [i64; 3], [i64; 3]); 16] = [
        (640, 2, 3298534895673, 1888, 1356, [16162820988797, -13967233698865, 3298534895673], [822176827332, -710490816986, 167791189251]),
        (800, 32768, 1099511627776, 1337, 296, [2575605988065, 44222357669150, 1099511627776], [63909919270, 1097313533855, 27282783039]),
        (32768, 480, -1099511627776, 959, 770, [1035154227200, 35567697920, -1099511627776], [753480937906, 25889458482, -800326203348]),
        (-5, 1, 9223372036854775807, 1879, 477, [-9223372036854775808, 9223372036854775807, 9223372036854775807], [-634803334273, 634803334273, 634803334273]),
        (3, 1080, 1125899906842624, 686, 1997, [513785657489184085, -1093624109513135445, 1125899906842624], [467527072495, -995159889885, 1024529742]),
        (32768, 3, 549755813888, 1591, 1539, [-496370712576, -51589939200, 549755813888], [-735057128004, -76397643095, 814113160631]),
        (1920, 1080, 1099511627776, 416, 1578, [-623056589073, -1188846947532, 1099511627776], [-394829208908, -753368968468, 696757427485]),
        (2, 480, 549755813888, 949, 591, [521168511565824, -192964290674688, 549755813888], [1031104516932, -381769710383, 1087662992]),
        (3, 0, -1099511627776, 1785, 1070, [-1307319325425664, 784318294480213, -1099511627776], [-942846519331, 565655046641, -792974364]),
        (800, 3, -1099511627776, 1019, 1364, [-1701494243983, 3745211482112, -1099511627776], [-439363537862, 967096640286, -283918279717]),
        (32768, 2, -1099511627776, 1767, 1034, [980930265088, 69323456512, -1099511627776], [731160854097, 51671968412, -819548432205]),
        (1, 2, 1125899906842624, 1378, 742, [3101854243351429120, -1668583661940768768, 1125899906842624], [968302510452, -520879971139, 351470965]),
        (640, 32768, 9223372036854775807, 170, 837, [-4323455642275676159, 9223372036854775807, 9223372036854775807], [-345932501835, 737989337249, 737989337249]),
        (32768, 480, -1099511627776, 1795, 1367, [979051216896, 75631689728, -1099511627776], [730224942487, 56409864293, -820070289788]),
        (3, 1, 1, 1625, 761, [1082, -507, 1], [995628575463, -466528362069, 920174284]),
        (1920, -7, 1, 615, 243, [0, 0, 1], [0, 0, 1099511627776]),
    ];
    for (w, h, clip, i, j, p, d) in cases {
        let r = Viewport::new(w, h, Fixed::from_raw(clip)).get_ray(i, j);
        assert_eq!(r, Ray { pt: raw3(p[0], p[1], p[2]), dir: raw3(d[0], d[1], d[2]) });
    }
}

#[test]
fn view_plane_is_symmetric_about_the_axis() {
    for (w, h) in [(800, 600), (7, 3), (1366, 768)] {
        let v = Viewport::new(w, h, fx(1.0));
        for (i, j) in [(0, 0), (1, 2), (w / 3, h / 3), (w, h), (-4, 9)] {
            let p = v.get_ray(i, j).pt;
            let q = v.get_ray(w - i, h - j).pt;
            assert_eq!(q.x.raw, -p.x.raw);
            assert_eq!(q.y.raw, -p.y.raw);
            assert_eq!(q.z, p.z);
        }
    }
}

#[test]
fn derived_quantities_of_the_usual_viewport() {
    let v = Viewport::new(800, 600, fx(1.0));
    assert_eq!(v.width(), fx(2.0));
    assert_eq!(v.height(), fx(1.5));
    assert_eq!(v.origin(), v3(-1.0, 0.75, 1.0));
    assert_eq!(v.dx().raw, 2748779070);
    assert_eq!(v.dy().raw, 2748779070);
    assert!((fl(v.dx()) - 0.0025).abs() < 1e-12);
    assert!((fl(v.dy()) - 0.0025).abs() < 1e-12);
    let v = Viewport::new(100, 100, fx(2.0));
    assert_eq!(v.width(), fx(4.0));
    assert_eq!(v.height(), fx(4.0));
    assert_eq!(v.origin(), v3(-2.0, 2.0, 2.0));
    assert_eq!(v.dx().raw, 43980465112);
    assert_eq!(v.dy().raw, 43980465112);
    assert!((fl(v.dx()) - 0.04).abs() < 1e-12);
    assert!((fl(v.dy()) - 0.04).abs() < 1e-12);
}

#[test]
fn derived_quantities_are_rounded_once() {
    let v = Viewport::new(1366, 768, fx(1.0));
    assert_eq!(v.height().raw, 1236346896241);
    assert_eq!(v.origin(), raw3(-ONE, 618173448120, ONE));
    assert_eq!(v.dx().raw, 1609826688);
    assert_eq!(v.dy(), v.dx());
    assert!((fl(v.height()) - 2.0 * 768.0 / 1366.0).abs() < 1e-12);
    assert!((fl(v.origin().y) - 768.0 / 1366.0).abs() < 1e-12);
    assert!((fl(v.dx()) - 2.0 / 1366.0).abs() < 1e-12);
}

#[test]
fn sizes_and_steps_are_never_lost_to_rounding() {
    // Steps of less than a raw unit are rounded up to one.
    let v = Viewport::new(800, 600, Fixed::from_raw(256));
    assert_eq!(v.width().raw, 512);
    assert_eq!(v.height().raw, 384);
    assert_eq!(v.dx().raw, 1);
    assert_eq!(v.dy().raw, 1);
    let v = Viewport::new(i32::MAX, i32::MAX, Fixed::from_raw(1));
    assert_eq!(v.width().raw, 2);
    assert_eq!(v.height().raw, 2);
    assert_eq!(v.dx().raw, 1);
    assert_eq!(v.dy().raw, 1);
    let v = Viewport::new(i32::MAX, 1, Fixed::from_raw(1));
    assert_eq!(v.height().raw, 1);
    assert_eq!(v.dy().raw, 1);
    for (w, h, clip) in [(1, 1, 1), (7, 3, 5), (1366, 768, 1 << 40), (3, 100000, 1 << 50)] {
        let v = Viewport::new(w, h, Fixed::from_raw(clip));
        assert!(v.width().raw > 0 && v.height().raw > 0 && v.dx().raw > 0 && v.dy().raw > 0);
    }
}

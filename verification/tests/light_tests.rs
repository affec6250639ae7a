use raycaster::light::{column_light, Effects};
use raycaster::raycaster::Light;

fn fixed(v: f64) -> i32 {
    (v * 65536.0).round() as i32
}

fn by_float(fx: &Effects, sx: u32, fov: f32, tile: u8, raw: f32, wave: f32) -> (f32, f32) {
    let fog = if fx.fog_density > 0 { raw * raw * (3.0 - 2.0 * raw) } else { 1.0 };
    let mut spot = 1.0;
    if fx.flashlight {
        let delta = ((sx as f32 / 1024.0) * fov - fov * 0.5).abs().to_degrees();
        let cone = (fx.cone_deg as f32 / 65536.0).max(1.0);
        let t = (1.0 - delta / cone).max(0.0).min(1.0);
        spot = t * t * (3.0 - 2.0 * t);
        spot = spot * 0.7 + 0.3;
    }
    let mut intensity = 1.0;
    if tile == 5 {
        intensity = 0.85 + wave * 0.15;
    }
    ((fog * spot * intensity).max(0.0).min(1.0), fog)
}

#[test]
fn the_usual_effects_are_light_fog_and_a_lit_lamp() {
    let fx = Effects::default();
    assert_eq!(fx.fog_density, 3277);
    assert!(fx.flashlight);
    assert_eq!(fx.cone_deg, 70 * 65536);
    assert_eq!(fx.time, 0);
}

#[test]
fn light_is_fog_times_lamp_times_glow() {
    let dark = Effects { fog_density: 0, flashlight: false, cone_deg: 0, time: 0 };
    let l = column_light(&dark, 0, 68629, 1, 0, 0);
    assert_eq!((l.shade, l.fog), (65536, 65536));
    let l = column_light(&dark, 0, 68629, 5, 0, 65536);
    assert_eq!((l.shade, l.fog), (65536, 65536));
    let l = column_light(&dark, 0, 68629, 5, 0, -65536);
    assert_eq!((l.shade, l.fog), (45875, 65536));
    let l = column_light(&dark, 0, 68629, 5, 0, i32::MIN);
    assert_eq!((l.shade, l.fog), (45875, 65536));
    let l = column_light(&dark, 0, 68629, 5, 0, 0);
    assert_eq!((l.shade, l.fog), (55705, 65536));
    let foggy = Effects { fog_density: 1, flashlight: false, cone_deg: 0, time: 0 };
    let l = column_light(&foggy, 0, 68629, 1, 32768, 0);
    assert_eq!((l.shade, l.fog), (32768, 32768));
    let l = column_light(&foggy, 0, 68629, 1, 16384, 0);
    assert_eq!((l.shade, l.fog), (10240, 10240));
    let l = column_light(&foggy, 0, 68629, 1, -7, 0);
    assert_eq!((l.shade, l.fog), (0, 0));
    let l = column_light(&foggy, 0, 68629, 1, i32::MAX, 0);
    assert_eq!((l.shade, l.fog), (65536, 65536));
    let lamp = Effects { fog_density: 0, flashlight: true, cone_deg: 30 * 65536, time: 0 };
    let l = column_light(&lamp, 512, 68629, 1, 0, 0);
    assert_eq!((l.shade, l.fog), (65536, 65536));
    let l = column_light(&lamp, 0, 2 * 68629, 1, 0, 0);
    assert_eq!((l.shade, l.fog), (19660, 65536));
    let l = column_light(&lamp, 1023, i32::MAX, 1, 0, 0);
    assert_eq!((l.shade, l.fog), (19660, 65536));
    let l = column_light(&lamp, 0, i32::MIN, 1, 0, 0);
    assert_eq!((l.shade, l.fog), (19660, 65536));
}

#[test]
fn light_follows_the_float_formula_closely() {
    let fx = Effects::default();
    let fov = 1.0471976f32;
    for sx in (0..1024u32).step_by(37) {
        for (k, tile) in [1u8, 5, 9].iter().enumerate() {
            let raw = 0.05 + 0.3 * k as f32 + (sx % 7) as f32 * 0.01;
            let wave = ((sx as f32) * 0.1).sin();
            let got: Light =
                column_light(&fx, sx, fixed(fov as f64), *tile, fixed(raw as f64), fixed(wave as f64));
            let (shade, fog) = by_float(&fx, sx, fov, *tile, raw, wave);
            assert!((got.shade as f32 / 65536.0 - shade).abs() < 0.001, "shade at {}", sx);
            assert!((got.fog as f32 / 65536.0 - fog).abs() < 0.001, "fog at {}", sx);
            assert!(got.shade >= 0 && got.shade <= 65536);
            assert!(got.fog >= 0 && got.fog <= 65536);
        }
    }
}

use ninjutso::icons::{battery_pixmap, battery_pixmap_sampled, level_color, reading_pixmap};

#[test]
fn pixmap_is_argb32_of_the_requested_size() {
    let (w, h, data) = battery_pixmap(50, false, 22);
    assert_eq!((w, h), (22, 22));
    assert_eq!(data.len(), 22 * 22 * 4);
}

#[test]
fn corners_are_transparent_and_the_centre_is_not() {
    let size = 24;
    let (_, _, data) = battery_pixmap(100, false, size);
    let at = |x: i32, y: i32| data[((y * size + x) * 4) as usize];
    assert_eq!(at(0, 0), 0, "top-left corner should be outside the silhouette");
    assert!(at(12, 12) > 200, "centre should be opaque");
}

#[test]
fn level_thresholds_match_the_documented_bands() {
    assert_eq!(level_color(10, false), [0xE1, 0x06, 0x00]);
    assert_eq!(level_color(25, false), [0xE8, 0xA3, 0x3D]);
    assert_eq!(level_color(80, false), [0x36, 0xAD, 0x6A]);
    // Charging wins over the level band.
    assert_eq!(level_color(5, true), [0x4F, 0xC3, 0xF7]);
}

#[test]
fn bands_end_where_they_say() {
    assert_eq!(level_color(15, false), level_color(0, false));
    assert_ne!(level_color(15, false), level_color(16, false));
    assert_eq!(level_color(16, false), level_color(30, false));
    assert_ne!(level_color(30, false), level_color(31, false));
}

fn pixel(data: &[u8], size: i32, x: i32, y: i32) -> &[u8] {
    let at = ((y * size + x) * 4) as usize;
    &data[at..at + 4]
}

#[test]
fn an_icon_fills_from_the_bottom() {
    let (_, _, data) = battery_pixmap(50, false, 48);
    // Ninjutso green below the middle, the empty track above it, well inside
    // the rim and clear of the scroll wheel.
    assert_eq!(pixel(&data, 48, 24, 30), &[255, 0x36, 0xAD, 0x6A]);
    assert_eq!(pixel(&data, 48, 24, 21), &[255, 0x3A, 0x41, 0x4A]);
    // The wheel: 45% of the track and 55% of the edge.
    assert_eq!(pixel(&data, 48, 24, 12), &[255, 35, 40, 46]);
}

#[test]
fn a_charging_icon_carries_a_white_bolt() {
    let (_, _, data) = battery_pixmap(50, true, 48);
    assert_eq!(pixel(&data, 48, 22, 22), &[255, 255, 255, 255]);
    assert_eq!(pixel(&data, 48, 16, 36), &[255, 0x4F, 0xC3, 0xF7]);
}

#[test]
fn no_reading_is_a_bare_silhouette_and_not_a_flat_battery() {
    let (_, _, bare) = reading_pixmap(None, false, 22);
    let (_, _, flat) = reading_pixmap(Some(0), false, 22);
    assert_ne!(bare, flat);
    // Nothing red anywhere: every pixel is some grey between track and edge.
    for at in (0..bare.len()).step_by(4) {
        assert!(bare[at + 1] <= 0x3A && bare[at + 3] <= 0x4A);
    }
}

#[test]
fn a_reading_past_full_is_drawn_as_full() {
    assert_eq!(battery_pixmap(255, false, 22), battery_pixmap(100, false, 22));
}

#[test]
fn an_icon_without_a_size_is_empty() {
    assert_eq!(battery_pixmap(50, false, 0), (0, 0, Vec::new()));
    assert_eq!(battery_pixmap(50, false, -3), (-3, -3, Vec::new()));
    assert_eq!(battery_pixmap(50, false, 1).2.len(), 4);
}

#[test]
fn three_samples_on_a_side_are_taken_unless_it_is_said_otherwise() {
    assert_eq!(battery_pixmap_sampled(50, false, 22, 3), battery_pixmap(50, false, 22));
    assert_ne!(battery_pixmap_sampled(50, false, 22, 1), battery_pixmap(50, false, 22));
}

#[test]
fn one_sample_in_a_pixel_has_one_colour() {
    let (w, h, data) = battery_pixmap_sampled(50, false, 48, 1);
    assert_eq!((w, h, data.len()), (48, 48, 48 * 48 * 4));
    assert_eq!(pixel(&data, 48, 24, 30), &[255, 0x36, 0xAD, 0x6A]);
    assert_eq!(pixel(&data, 48, 24, 12), &[255, 35, 40, 46]);
    // The sample of this pixel lies 0.5 pixels outside the outline, on the rim.
    assert_eq!(pixel(&data, 48, 9, 24), &[128, 37, 104, 69]);
}

#[test]
fn without_a_sample_nothing_is_seen() {
    for samples in [0, -1, -46340] {
        assert_eq!(battery_pixmap_sampled(50, false, 4, samples), (4, 4, vec![0; 64]));
    }
}

/// The same drawing in floating point.
fn sketch(percent: u8, charging: bool, size: i32, side: i32) -> Vec<u8> {
    const BOLT: [(f64, f64); 7] = [
        (12.6, 4.0),
        (7.6, 13.0),
        (11.0, 13.0),
        (9.4, 20.0),
        (15.4, 10.6),
        (11.8, 10.6),
        (13.6, 4.0),
    ];
    let blend = |dst: [f64; 3], alpha: f64| {
        let edge = [0x10 as f64, 0x13 as f64, 0x17 as f64];
        [0, 1, 2].map(|i: usize| dst[i] + (edge[i] - dst[i]) * alpha)
    };
    let scale = size as f64 / 24.0;
    let (cx, cy) = (size as f64 / 2.0, size as f64 / 2.0);
    let (half_h, radius) = (10.5 * scale, 7.0 * scale);
    let fill = level_color(percent, charging).map(f64::from);
    let water = cy + half_h - 2.0 * half_h * f64::from(percent.min(100)) / 100.0;
    let mut out = Vec::new();
    for y in 0..size {
        for x in 0..size {
            let mut rgb = [0.0f64; 3];
            let mut cover = 0.0f64;
            for k in 0..side * side {
                let step = 1.0 / f64::from(side);
                let px = f64::from(x) + step / 2.0 + f64::from(k % side) * step;
                let py = f64::from(y) + step / 2.0 + f64::from(k / side) * step;
                let dx = (px - cx).abs();
                let dy = ((py - cy).abs() - (half_h - radius)).max(0.0);
                let dist = dx.hypot(dy) - radius;
                if dist > 1.0 {
                    continue;
                }
                let weight = (1.0 - dist).clamp(0.0, 1.0);
                let mut colour = if py >= water { fill } else { [58.0, 65.0, 74.0] };
                if dist > -1.2 {
                    colour = blend(colour, 0.45);
                }
                let (bx, by) = (px / scale, py / scale);
                let mut inside = false;
                let mut j = 6;
                for i in 0..7 {
                    let (xi, yi) = BOLT[i];
                    let (xj, yj) = BOLT[j];
                    if (yi > by) != (yj > by) && bx < (xj - xi) * (by - yi) / (yj - yi) + xi {
                        inside = !inside;
                    }
                    j = i;
                }
                if charging && inside {
                    colour = [255.0; 3];
                } else if !charging && dx < 1.1 * scale && py > 3.2 * scale && py < 9.0 * scale {
                    colour = blend(colour, 0.55);
                }
                for i in 0..3 {
                    rgb[i] += colour[i] * weight;
                }
                cover += weight;
            }
            let cells = f64::from(side * side);
            if cover / cells <= 0.002 {
                out.extend_from_slice(&[0, 0, 0, 0]);
                continue;
            }
            out.push((cover / cells * 255.0).round() as u8);
            for channel in rgb {
                out.push((channel / cover).round() as u8);
            }
        }
    }
    out
}

#[test]
fn whole_numbers_draw_what_floating_point_draws() {
    for size in [22, 24, 32, 48] {
        for percent in [0u8, 7, 15, 16, 23, 30, 31, 50, 68, 99, 100] {
            for charging in [false, true] {
                let (_, _, exact) = battery_pixmap(percent, charging, size);
                let near = sketch(percent, charging, size, 3);
                assert_eq!(exact.len(), near.len());
                // Only where a value lies halfway between two bytes can the
                // two land on different sides of it.
                let mut apart = 0;
                for (a, b) in exact.iter().zip(&near) {
                    assert!(a.abs_diff(*b) <= 1);
                    apart += u32::from(a != b);
                }
                assert!(apart * 50 < exact.len() as u32);
            }
        }
    }
}

#[test]
fn any_number_of_samples_draws_what_floating_point_draws() {
    // No sample of an icon of this size lies on an edge of the bolt.
    for side in [1, 2, 4, 5] {
        let (_, _, exact) = battery_pixmap_sampled(68, true, 32, side);
        let near = sketch(68, true, 32, side);
        assert_eq!(exact.len(), near.len());
        for (a, b) in exact.iter().zip(&near) {
            assert!(a.abs_diff(*b) <= 1, "{side}: {a} {b}");
        }
    }
}

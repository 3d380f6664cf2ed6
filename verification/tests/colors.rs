use pcd_playback::color::{elevation_colors, frame_colors, hsv_to_rgb, Coloring};

/// The conversion in single precision.
fn hsv_in_floats(h: f32, s: f32, v: f32) -> [u8; 3] {
    let c = v * s;
    let h_prime = h / 60.0;
    let x = c * (1.0 - ((h_prime % 2.0) - 1.0).abs());
    let (r1, g1, b1) = if h_prime < 1.0 {
        (c, x, 0.0)
    } else if h_prime < 2.0 {
        (x, c, 0.0)
    } else if h_prime < 3.0 {
        (0.0, c, x)
    } else if h_prime < 4.0 {
        (0.0, x, c)
    } else if h_prime < 5.0 {
        (x, 0.0, c)
    } else {
        (c, 0.0, x)
    };
    let m = v - c;
    [
        ((r1 + m) * 255.0).round() as u8,
        ((g1 + m) * 255.0).round() as u8,
        ((b1 + m) * 255.0).round() as u8,
    ]
}

#[test]
fn corners_of_the_hue_wheel() {
    assert_eq!(hsv_to_rgb(0, 900, 1000), [255, 26, 26]);
    assert_eq!(hsv_to_rgb(60_000, 900, 1000), [255, 255, 26]);
    assert_eq!(hsv_to_rgb(120_000, 900, 1000), [26, 255, 26]);
    assert_eq!(hsv_to_rgb(180_000, 900, 1000), [26, 255, 255]);
    assert_eq!(hsv_to_rgb(240_000, 900, 1000), [26, 26, 255]);
    assert_eq!(hsv_to_rgb(300_000, 900, 1000), [255, 26, 255]);
}

#[test]
fn middles_of_the_sectors() {
    assert_eq!(hsv_to_rgb(30_000, 900, 1000), [255, 140, 26]);
    assert_eq!(hsv_to_rgb(90_000, 900, 1000), [140, 255, 26]);
    assert_eq!(hsv_to_rgb(150_000, 900, 1000), [26, 255, 140]);
    assert_eq!(hsv_to_rgb(210_000, 900, 1000), [26, 140, 255]);
    assert_eq!(hsv_to_rgb(270_000, 900, 1000), [140, 26, 255]);
    assert_eq!(hsv_to_rgb(330_000, 900, 1000), [255, 26, 140]);
}

#[test]
fn last_hue_before_a_sector_ends() {
    assert_eq!(hsv_to_rgb(59_999, 1000, 1000), [255, 255, 0]);
    assert_eq!(hsv_to_rgb(119_999, 1000, 1000), [0, 255, 0]);
    assert_eq!(hsv_to_rgb(359_999, 900, 1000), [255, 26, 26]);
}

#[test]
fn grey_black_and_full_colours() {
    assert_eq!(hsv_to_rgb(0, 0, 0), [0, 0, 0]);
    assert_eq!(hsv_to_rgb(123_456, 1000, 0), [0, 0, 0]);
    assert_eq!(hsv_to_rgb(0, 0, 1000), [255, 255, 255]);
    assert_eq!(hsv_to_rgb(200_000, 0, 500), [128, 128, 128]);
    assert_eq!(hsv_to_rgb(200_000, 1000, 1000), [0, 170, 255]);
    assert_eq!(hsv_to_rgb(200_000, 500, 500), [64, 106, 128]);
}

#[test]
fn halves_round_upwards() {
    // 255 * 0.1 is 25.5, and 255 * 0.7 is 178.5.
    assert_eq!(hsv_to_rgb(240_000, 900, 1000)[0], 26);
    assert_eq!(hsv_to_rgb(340_000, 900, 1000), [255, 26, 102]);
    assert_eq!(hsv_to_rgb(320_000, 900, 1000), [255, 26, 179]);
}

#[test]
fn channels_stay_in_range_all_around_the_wheel() {
    let mut h: i32 = 0;
    while h < 360_000 {
        let rgb = hsv_to_rgb(h, 900, 1000);
        let brightest = *rgb.iter().max().unwrap();
        let darkest = *rgb.iter().min().unwrap();
        assert_eq!(brightest, 255, "hue {}", h);
        assert_eq!(darkest, 26, "hue {}", h);
        h += 7;
    }
}

#[test]
fn hue_wraps_at_the_full_turn() {
    for s in [0u16, 1, 250, 900, 1000] {
        for v in [0u16, 1, 500, 999, 1000] {
            assert_eq!(hsv_to_rgb(0, s, v), hsv_to_rgb(360_000, s, v));
        }
    }
    assert_eq!(hsv_to_rgb(360_000, 900, 1000), [255, 26, 26]);
}

#[test]
fn hues_past_the_full_turn_are_read_in_the_last_sector() {
    assert_eq!(hsv_to_rgb(400_000, 900, 1000), [255, 26, 179]);
    assert_eq!(hsv_to_rgb(420_000, 900, 1000), [255, 26, 255]);
    assert_eq!(hsv_to_rgb(480_000, 900, 1000), [255, 26, 26]);
    assert_eq!(hsv_to_rgb(i32::MAX, 1000, 1000), [255, 0, 155]);
}

#[test]
fn hues_below_zero_are_read_in_the_first_sector() {
    assert_eq!(hsv_to_rgb(-1, 900, 1000), [255, 25, 26]);
    assert_eq!(hsv_to_rgb(-3_000, 900, 1000), [255, 14, 26]);
    assert_eq!(hsv_to_rgb(-6_000, 900, 1000), [255, 3, 26]);
    assert_eq!(hsv_to_rgb(-6_667, 900, 1000), [255, 0, 26]);
    assert_eq!(hsv_to_rgb(-30_000, 900, 1000), [255, 0, 26]);
    assert_eq!(hsv_to_rgb(-30_000, 100, 1000), [255, 217, 230]);
    assert_eq!(hsv_to_rgb(-60_000, 500, 1000), [255, 0, 128]);
    assert_eq!(hsv_to_rgb(-90_000, 200, 1000), [255, 128, 204]);
    assert_eq!(hsv_to_rgb(-120_000, 900, 1000), [255, 26, 26]);
    assert_eq!(hsv_to_rgb(i32::MIN, 1000, 1000), [255, 0, 0]);
}

#[test]
fn saturation_and_value_out_of_range_are_cut() {
    assert_eq!(hsv_to_rgb(45_000, 2000, 1000), [255, 128, 0]);
    assert_eq!(hsv_to_rgb(45_000, 500, 3000), [255, 255, 255]);
    assert_eq!(hsv_to_rgb(0, u16::MAX, u16::MAX), [255, 0, 0]);
    assert_eq!(hsv_to_rgb(180_000, u16::MAX, u16::MAX), [0, 255, 255]);
}

#[test]
fn stays_within_one_level_of_single_precision() {
    let mut h: i32 = -90_000;
    while h <= 450_000 {
        for (s, v) in [(900u16, 1000u16), (1000, 1000), (333, 750), (0, 400)] {
            let exact = hsv_to_rgb(h, s, v);
            let floats = hsv_in_floats(h as f32 / 1000.0, s as f32 / 1000.0, v as f32 / 1000.0);
            for k in 0..3 {
                let apart = (exact[k] as i32 - floats[k] as i32).abs();
                assert!(apart <= 1, "hue {} s {} v {}: {:?} {:?}", h, s, v, exact, floats);
            }
        }
        h += 125;
    }
}

#[test]
fn flat_frame_has_one_colour() {
    let colors = elevation_colors(&vec![7, 7, 7, 7]);
    assert_eq!(colors, vec![hsv_to_rgb(0, 900, 1000); 4]);
    let colors = elevation_colors(&vec![-3]);
    assert_eq!(colors, vec![[255, 26, 26]]);
}

#[test]
fn colours_align_with_points() {
    let zs = vec![0, 1000, 250, 500, 750, 125];
    let colors = elevation_colors(&zs);
    assert_eq!(colors.len(), zs.len());
    for (i, z) in zs.iter().enumerate() {
        let hue = (360_000 * (*z as i64) / 1000) as i32;
        assert_eq!(colors[i], hsv_to_rgb(hue, 900, 1000), "point {}", i);
    }
    assert_eq!(
        colors,
        vec![
            [255, 26, 26],
            [255, 26, 26],
            [140, 255, 26],
            [26, 255, 255],
            [140, 26, 255],
            [255, 198, 26],
        ]
    );
}

#[test]
fn elevation_hue_is_rounded_down() {
    // A third of the way up: 120° exactly; two thirds of a sixth: 39.999°.
    let colors = elevation_colors(&vec![0, 1, 3]);
    assert_eq!(colors[1], hsv_to_rgb(120_000, 900, 1000));
    let colors = elevation_colors(&vec![0, 1, 9]);
    assert_eq!(colors[1], hsv_to_rgb(40_000, 900, 1000));
    let colors = elevation_colors(&vec![0, 1, 7]);
    assert_eq!(colors[1], hsv_to_rgb(51_428, 900, 1000));
}

#[test]
fn elevations_may_be_negative_and_far_apart() {
    let colors = elevation_colors(&vec![i32::MIN, i32::MAX, 0, -1]);
    assert_eq!(colors[0], [255, 26, 26]);
    assert_eq!(colors[1], [255, 26, 26]);
    assert_eq!(colors[2], hsv_to_rgb(180_000, 900, 1000));
    assert_eq!(colors[3], hsv_to_rgb(179_999, 900, 1000));
}

#[test]
fn each_frame_is_coloured_against_its_own_span() {
    let low_frame = elevation_colors(&vec![0, 50, 100]);
    let high_frame = elevation_colors(&vec![50, 100, 200]);
    let wide_frame = elevation_colors(&vec![0, 50, 100, 200]);
    assert_eq!(low_frame[1], hsv_to_rgb(180_000, 900, 1000));
    assert_eq!(high_frame[0], hsv_to_rgb(0, 900, 1000));
    assert_eq!(high_frame[1], hsv_to_rgb(120_000, 900, 1000));
    assert_eq!(wide_frame[1], hsv_to_rgb(90_000, 900, 1000));
    assert_eq!(wide_frame[2], hsv_to_rgb(180_000, 900, 1000));
}

#[test]
fn empty_frame_has_no_colours() {
    let colors = elevation_colors(&Vec::new());
    assert!(colors.is_empty());
    let colors = frame_colors(&Coloring::Elevation, &Vec::new());
    assert!(colors.is_empty());
}

#[test]
fn uniform_colouring_sends_the_one_colour_once() {
    let colors = frame_colors(&Coloring::Uniform([255, 0, 255]), &vec![1, 2, 3]);
    assert_eq!(colors, vec![[255, 0, 255]]);
    let colors = frame_colors(&Coloring::Uniform([0, 255, 0]), &Vec::new());
    assert_eq!(colors, vec![[0, 255, 0]]);
    let colors = frame_colors(&Coloring::Elevation, &vec![1, 2, 3]);
    assert_eq!(colors, elevation_colors(&vec![1, 2, 3]));
}

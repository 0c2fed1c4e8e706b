use material_color_utils::quantize::quantizer::QuantizerResult;
use material_color_utils::quantize::quantizer_map::QuantizerMap;
use material_color_utils::quantize::quantizer_wsmeans::Random;
use material_color_utils::quantize::quantizer_wu::{Cube, Direction, QuantizerWu, TOTAL_SIZE};
use material_color_utils::utils::color_utils::Argb;

#[test]
fn test_quantize_map() {
    let mut quantizer = QuantizerMap::new();
    let pixels = vec![Argb(0xFF0000FF), Argb(0xFF0000FF), Argb(0xFFFF0000)];
    let result = quantizer.quantize(&pixels, 10);

    assert_eq!(result.color_to_count.get(&Argb(0xFF0000FF)), Some(&2));
    assert_eq!(result.color_to_count.get(&Argb(0xFFFF0000)), Some(&1));
    assert_eq!(result.color_to_count.len(), 2);
}

#[test]
fn quantize_map_keeps_first_occurrence_order_and_totals() {
    let mut quantizer = QuantizerMap::new();
    assert!(quantizer.color_to_count().is_none());
    let pixels = vec![
        Argb(0xFF00FF00),
        Argb(0xFF0000FF),
        Argb(0xFF00FF00),
        Argb(0xFFFF0000),
        Argb(0xFF0000FF),
        Argb(0xFF00FF00),
    ];
    let result = quantizer.quantize(&pixels, 1);
    let entries: Vec<(Argb, u32)> = result.color_to_count.iter().map(|(k, v)| (*k, *v)).collect();
    assert_eq!(
        entries,
        vec![(Argb(0xFF00FF00), 3), (Argb(0xFF0000FF), 2), (Argb(0xFFFF0000), 1)]
    );
    assert_eq!(result.color_to_count.values().sum::<u32>(), pixels.len() as u32);
    let kept = quantizer.color_to_count().expect("counts are kept");
    assert_eq!(kept.len(), 3);
    assert_eq!(kept.get(&Argb(0xFF00FF00)), Some(&3));
}

#[test]
fn quantize_map_of_no_pixels_is_empty() {
    let mut quantizer = QuantizerMap::new();
    let result = quantizer.quantize(&[], 4);
    assert!(result.color_to_count.is_empty());
}

#[test]
fn random_matches_the_java_sequence() {
    let mut r = Random::new(42);
    assert_eq!(r.0, 25214903879);
    assert_eq!(r.next(32), -1170105035);
    let mut r = Random::new(42);
    assert_eq!(r.draw_below(10), Some(0));
    assert_eq!(r.0, 204790973191750);
}

#[test]
fn random_draws_with_the_wsmeans_seed() {
    let mut r = Random::new(0x42688);
    assert_eq!(r.0, 25214632165);
    let mut a = Random::new(0x42688);
    assert_eq!(a.draw_below(3), Some(1));
    assert_eq!(a.0, 108948011343756);
    let mut b = Random::new(0x42688);
    assert_eq!(b.draw_below(8), Some(3));
    for n in 1..50 {
        let mut c = Random::new(n as u64);
        for _ in 0..20 {
            if let Some(v) = c.draw_below(n) {
                assert!(0 <= v && v < n);
            }
        }
    }
}

#[test]
fn random_draw_below_zero_is_zero() {
    let mut r = Random::new(7);
    assert_eq!(r.draw_below(0), Some(0));
}

#[test]
fn test_get_index_layout() {
    assert_eq!(QuantizerWu::get_index(0, 0, 0), 0);
    assert_eq!(QuantizerWu::get_index(0, 0, 1), 1);
    assert_eq!(QuantizerWu::get_index(0, 1, 0), 33);
    assert_eq!(QuantizerWu::get_index(1, 0, 0), 1089);
    assert_eq!(QuantizerWu::get_index(32, 32, 32), TOTAL_SIZE - 1);
}

fn whole() -> Cube {
    Cube { r0: 0, r1: 32, g0: 0, g1: 32, b0: 0, b1: 32, vol: 32768 }
}

fn histogram_of(pixels: &[Argb]) -> QuantizerWu {
    let mut map = QuantizerMap::new();
    let counts = map.quantize(pixels, 128);
    let mut wu = QuantizerWu::new();
    wu.construct_histogram(&counts.color_to_count);
    wu
}

#[test]
fn histogram_bins_colors_by_their_top_five_bits() {
    let pixels = vec![Argb::from_rgb(255, 0, 0), Argb::from_rgb(255, 0, 0), Argb::from_rgb(8, 16, 24)];
    let wu = histogram_of(&pixels);
    let red_cell = QuantizerWu::get_index(32, 1, 1);
    assert_eq!(wu.weights[red_cell], 2);
    assert_eq!(wu.moments_r[red_cell], 510);
    assert_eq!(wu.moments_g[red_cell], 0);
    let other = QuantizerWu::get_index(2, 3, 4);
    assert_eq!(wu.weights[other], 1);
    assert_eq!(wu.moments_b[other], 24);
    assert_eq!(wu.weights.iter().sum::<i32>(), 3);
}

#[test]
fn whole_cube_volume_counts_every_pixel() {
    let pixels = vec![
        Argb::from_rgb(255, 0, 0),
        Argb::from_rgb(0, 255, 0),
        Argb::from_rgb(0, 0, 255),
        Argb::from_rgb(255, 255, 255),
        Argb::from_rgb(0, 0, 0),
        Argb::from_rgb(0, 0, 0),
    ];
    let mut wu = histogram_of(&pixels);
    wu.create_moments();
    let cube = whole();
    assert_eq!(QuantizerWu::volume(&cube, &wu.weights), 6);
    assert_eq!(QuantizerWu::volume(&cube, &wu.moments_r), 510);
    assert_eq!(QuantizerWu::volume(&cube, &wu.moments_g), 510);
    assert_eq!(QuantizerWu::volume(&cube, &wu.moments_b), 510);
}

#[test]
fn box_volume_counts_the_pixels_inside() {
    let pixels = vec![
        Argb::from_rgb(10, 10, 10),
        Argb::from_rgb(10, 10, 10),
        Argb::from_rgb(200, 10, 10),
        Argb::from_rgb(10, 200, 10),
    ];
    let mut wu = histogram_of(&pixels);
    wu.create_moments();
    let low_red = Cube { r0: 0, r1: 16, g0: 0, g1: 32, b0: 0, b1: 32, vol: 0 };
    assert_eq!(QuantizerWu::volume(&low_red, &wu.weights), 3);
    let low_corner = Cube { r0: 0, r1: 16, g0: 0, g1: 16, b0: 0, b1: 16, vol: 0 };
    assert_eq!(QuantizerWu::volume(&low_corner, &wu.weights), 2);
    let empty = Cube { r0: 5, r1: 5, g0: 0, g1: 32, b0: 0, b1: 32, vol: 0 };
    assert_eq!(QuantizerWu::volume(&empty, &wu.weights), 0);
}

#[test]
fn bottom_plus_top_is_the_lower_part() {
    let pixels = vec![
        Argb::from_rgb(10, 10, 10),
        Argb::from_rgb(100, 150, 200),
        Argb::from_rgb(200, 10, 10),
        Argb::from_rgb(10, 200, 130),
    ];
    let mut wu = histogram_of(&pixels);
    wu.create_moments();
    let cube = whole();
    for position in 0..=32 {
        let lower_r = Cube { r1: position, ..cube };
        assert_eq!(
            QuantizerWu::bottom(&cube, Direction::Red, &wu.weights)
                + QuantizerWu::top(&cube, Direction::Red, position, &wu.weights),
            QuantizerWu::volume(&lower_r, &wu.weights)
        );
        let lower_g = Cube { g1: position, ..cube };
        assert_eq!(
            QuantizerWu::bottom(&cube, Direction::Green, &wu.moments_g)
                + QuantizerWu::top(&cube, Direction::Green, position, &wu.moments_g),
            QuantizerWu::volume(&lower_g, &wu.moments_g)
        );
        let lower_b = Cube { b1: position, ..cube };
        assert_eq!(
            QuantizerWu::bottom(&cube, Direction::Blue, &wu.moments_b)
                + QuantizerWu::top(&cube, Direction::Blue, position, &wu.moments_b),
            QuantizerWu::volume(&lower_b, &wu.moments_b)
        );
    }
}

#[test]
fn result_color_is_the_mean_of_the_box() {
    let pixels = vec![
        Argb::from_rgb(250, 0, 0),
        Argb::from_rgb(240, 10, 0),
        Argb::from_rgb(0, 0, 255),
    ];
    let mut wu = histogram_of(&pixels);
    wu.create_moments();
    wu.cubes = vec![
        Cube { r0: 16, r1: 32, g0: 0, g1: 32, b0: 0, b1: 32, vol: 0 },
        Cube { r0: 8, r1: 16, g0: 0, g1: 32, b0: 0, b1: 32, vol: 0 },
        Cube { r0: 0, r1: 8, g0: 0, g1: 32, b0: 0, b1: 32, vol: 0 },
    ];
    let colors = wu.create_result(3);
    assert_eq!(colors, vec![Argb::from_rgb(245, 5, 0), Argb::from_rgb(0, 0, 255)]);
    let first_only = wu.create_result(1);
    assert_eq!(first_only, vec![Argb::from_rgb(245, 5, 0)]);
}

#[test]
fn split_cuts_a_box_into_two_that_cover_it() {
    let pixels = vec![
        Argb::from_rgb(10, 10, 10),
        Argb::from_rgb(100, 150, 200),
        Argb::from_rgb(200, 10, 10),
        Argb::from_rgb(10, 200, 130),
        Argb::from_rgb(250, 250, 250),
    ];
    let mut wu = histogram_of(&pixels);
    wu.create_moments();
    for (direction, cut) in [(Direction::Red, 13), (Direction::Green, 20), (Direction::Blue, 1)] {
        let mut one = whole();
        let mut two = Cube::default();
        QuantizerWu::split(&mut one, &mut two, direction, cut);
        assert_eq!(one.vol + two.vol, 32 * 32 * 32);
        assert_eq!(
            QuantizerWu::volume(&one, &wu.weights) + QuantizerWu::volume(&two, &wu.weights),
            5
        );
        assert_eq!(
            QuantizerWu::volume(&one, &wu.moments_r) + QuantizerWu::volume(&two, &wu.moments_r),
            10 + 100 + 200 + 10 + 250
        );
    }
    let mut one = whole();
    let mut two = Cube::default();
    QuantizerWu::split(&mut one, &mut two, Direction::Green, 20);
    assert_eq!((one.r0, one.r1, one.g0, one.g1, one.b0, one.b1, one.vol), (0, 32, 0, 20, 0, 32, 20480));
    assert_eq!((two.r0, two.r1, two.g0, two.g1, two.b0, two.b1, two.vol), (0, 32, 20, 32, 0, 32, 12288));
}

#[test]
fn random_next_steps_the_state() {
    let mut r = Random::new(0);
    let first = r.0;
    assert_eq!(first, 0x5DEECE66D);
    let v = r.next(48);
    assert_eq!(r.0, (first.wrapping_mul(0x5DEECE66D).wrapping_add(0xB)) & 0xFFFF_FFFF_FFFF);
    assert_eq!(v as i64, (r.0 as u32 as i32) as i64);
}

#[test]
fn defaults_match_new() {
    assert!(QuantizerResult::default().color_to_count.is_empty());
    assert!(QuantizerMap::default().color_to_count().is_none());
    let wu = QuantizerWu::default();
    assert_eq!(wu.weights.len(), TOTAL_SIZE);
    assert!(wu.weights.iter().all(|&w| w == 0));
    assert!(wu.cubes.is_empty());
}

#[test]
fn quantizer_result_clone_keeps_entries_in_order() {
    let mut quantizer = QuantizerMap::new();
    let result = quantizer.quantize(&[Argb(0xFF0000FF), Argb(0xFFFF0000), Argb(0xFF0000FF)], 10);
    let copy = result.clone();
    let entries: Vec<(Argb, u32)> = copy.color_to_count.iter().map(|(k, v)| (*k, *v)).collect();
    assert_eq!(entries, vec![(Argb(0xFF0000FF), 2), (Argb(0xFFFF0000), 1)]);
}

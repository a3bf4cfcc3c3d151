use mandelbrot::bands::{partition, Band};
use mandelbrot::palette::{map_color, PaintMode, Tone};
use mandelbrot::renderer::{merge_band, BandResult, Mandelbrot, RenderError, Sample};

const MODES: [PaintMode; 6] = [
    PaintMode::Grayscale,
    PaintMode::HSL1,
    PaintMode::HSL2,
    PaintMode::HSL3,
    PaintMode::RGB1,
    PaintMode::FIRE,
];

fn sample(iterations: u32) -> Sample {
    Sample {
        iterations,
        tone: Tone {
            log_hue: (iterations % 241) as u16,
            sine_red: (iterations * 7 % 256) as u8,
            sine_green: (iterations * 11 % 256) as u8,
            sine_blue: (iterations * 13 % 256) as u8,
        },
    }
}

fn samples_for(width: u32, height: u32, max_iterations: u32) -> Vec<Sample> {
    (0..width * height).map(|k| sample((k * 37 + 5) % (max_iterations + 1))).collect()
}

fn colors_of(renderer: &Mandelbrot, samples: &[Sample]) -> Vec<u8> {
    samples
        .iter()
        .flat_map(|s| map_color(s.iterations, renderer.max_iterations, renderer.paint_mode, s.tone))
        .collect()
}

#[test]
fn new_keeps_its_arguments() {
    let renderer = Mandelbrot::new(4, 3, 50, 2, PaintMode::FIRE);
    assert_eq!(
        renderer,
        Mandelbrot { width: 4, height: 3, max_iterations: 50, samples: 2, paint_mode: PaintMode::FIRE }
    );
}

#[test]
fn setters_change_one_parameter_each() {
    let mut renderer = Mandelbrot::new(4, 3, 50, 2, PaintMode::FIRE);
    renderer.set_width(10);
    assert_eq!(renderer, Mandelbrot::new(10, 3, 50, 2, PaintMode::FIRE));
    renderer.set_height(20);
    assert_eq!(renderer, Mandelbrot::new(10, 20, 50, 2, PaintMode::FIRE));
    renderer.set_max_iterations(30);
    assert_eq!(renderer, Mandelbrot::new(10, 20, 30, 2, PaintMode::FIRE));
    renderer.set_samples(4);
    assert_eq!(renderer, Mandelbrot::new(10, 20, 30, 4, PaintMode::FIRE));
    renderer.set_paint_mode(PaintMode::HSL2);
    assert_eq!(renderer, Mandelbrot::new(10, 20, 30, 4, PaintMode::HSL2));
}

#[test]
fn validate_accepts_parameters_without_a_zero() {
    assert_eq!(Mandelbrot::new(1, 1, 1, 1, PaintMode::Grayscale).validate(), Ok(()));
    assert_eq!(Mandelbrot::new(4, 4, 50, 1, PaintMode::Grayscale).validate(), Ok(()));
    assert_eq!(
        Mandelbrot::new(u32::MAX, u32::MAX, u32::MAX, u32::MAX, PaintMode::FIRE).validate(),
        Ok(())
    );
}

#[test]
fn validate_refuses_a_zero_anywhere() {
    let refused = Err(RenderError::InvalidParameters);
    assert_eq!(Mandelbrot::new(0, 4, 50, 1, PaintMode::Grayscale).validate(), refused);
    assert_eq!(Mandelbrot::new(4, 0, 50, 1, PaintMode::Grayscale).validate(), refused);
    assert_eq!(Mandelbrot::new(4, 4, 0, 1, PaintMode::Grayscale).validate(), refused);
    assert_eq!(Mandelbrot::new(4, 4, 50, 0, PaintMode::Grayscale).validate(), refused);
    assert_eq!(Mandelbrot::new(0, 0, 0, 0, PaintMode::Grayscale).validate(), refused);
}

#[test]
fn one_sample_is_its_own_mean() {
    let renderer = Mandelbrot::new(4, 4, 50, 1, PaintMode::Grayscale);
    assert_eq!(renderer.calculate_pixel(&vec![7]), 7);
    assert_eq!(renderer.calculate_pixel(&vec![0]), 0);
    assert_eq!(renderer.calculate_pixel(&vec![u32::MAX]), u32::MAX);
    let unsampled = Mandelbrot::new(4, 4, 50, 0, PaintMode::Grayscale);
    assert_eq!(unsampled.calculate_pixel(&vec![9]), 9);
}

#[test]
fn supersampling_averages_and_rounds_down() {
    let two = Mandelbrot::new(4, 4, 50, 2, PaintMode::Grayscale);
    assert_eq!(two.calculate_pixel(&vec![1, 2, 3, 5]), 2);
    assert_eq!(two.calculate_pixel(&vec![50, 50, 50, 50]), 50);
    assert_eq!(two.calculate_pixel(&vec![50, 50, 50, 49]), 49);
    assert_eq!(two.calculate_pixel(&vec![0, 0, 0, 3]), 0);
    assert_eq!(two.calculate_pixel(&vec![0, 0, 0, 4]), 1);
    let three = Mandelbrot::new(4, 4, 50, 3, PaintMode::Grayscale);
    assert_eq!(three.calculate_pixel(&vec![1, 2, 3, 4, 5, 6, 7, 8, 10]), 5);
}

#[test]
fn supersampling_does_not_overflow() {
    let two = Mandelbrot::new(4, 4, u32::MAX, 2, PaintMode::Grayscale);
    assert_eq!(two.calculate_pixel(&vec![u32::MAX; 4]), u32::MAX);
    assert_eq!(two.calculate_pixel(&vec![u32::MAX, u32::MAX, u32::MAX, u32::MAX - 1]), u32::MAX - 1);
    let sixteen = Mandelbrot::new(4, 4, u32::MAX, 16, PaintMode::Grayscale);
    assert_eq!(sixteen.calculate_pixel(&vec![u32::MAX; 256]), u32::MAX);
}

#[test]
fn a_band_is_packed_row_by_row() {
    let renderer = Mandelbrot::new(3, 10, 50, 1, PaintMode::Grayscale);
    let band = Band { start_row: 4, end_row: 6 };
    let samples: Vec<Sample> = [0, 10, 20, 30, 40, 50].into_iter().map(sample).collect();
    let result = renderer.render_band(band, &samples);
    assert_eq!(result.start_row, 4);
    assert_eq!(result.pixels.len(), 2 * 3 * 4);
    for y in 4..6u32 {
        for x in 0..3u32 {
            let local = ((y - 4) * 3 + x) as usize;
            let offset = local * 4;
            let expected = map_color(samples[local].iterations, 50, PaintMode::Grayscale, samples[local].tone);
            assert_eq!(result.pixels[offset..offset + 4], expected);
        }
    }
    assert_eq!(
        result.pixels,
        vec![
            255, 255, 255, 255, 204, 204, 204, 255, 153, 153, 153, 255, 102, 102, 102, 255, 51, 51,
            51, 255, 0, 0, 0, 255
        ]
    );
}

#[test]
fn an_empty_band_has_no_pixels() {
    let renderer = Mandelbrot::new(3, 10, 50, 1, PaintMode::HSL1);
    let result = renderer.render_band(Band { start_row: 10, end_row: 10 }, &vec![]);
    assert_eq!(result.start_row, 10);
    assert!(result.pixels.is_empty());
}

#[test]
fn a_band_is_coloured_by_each_palette() {
    for mode in MODES {
        let renderer = Mandelbrot::new(5, 9, 40, 1, mode);
        let samples: Vec<Sample> = (0..15u32).map(|k| sample(k * 3)).collect();
        let result = renderer.render_band(Band { start_row: 2, end_row: 5 }, &samples);
        assert_eq!(result.pixels, colors_of(&renderer, &samples));
    }
}

#[test]
fn merging_writes_the_band_at_its_rows_only() {
    let mut image = vec![9u8; 4 * 2 * 4];
    let band = BandResult { start_row: 1, pixels: vec![1, 2, 3, 4, 5, 6, 7, 8] };
    merge_band(&mut image, 2, &band);
    assert_eq!(
        image,
        vec![
            9, 9, 9, 9, 9, 9, 9, 9, 1, 2, 3, 4, 5, 6, 7, 8, 9, 9, 9, 9, 9, 9, 9, 9, 9, 9, 9, 9, 9,
            9, 9, 9
        ]
    );
    merge_band(&mut image, 2, &BandResult { start_row: 4, pixels: vec![] });
    assert_eq!(image.len(), 32);
    assert_eq!(image[24..], [9u8; 8]);
}

#[test]
fn merging_twice_changes_nothing_more() {
    let mut image = vec![0u8; 24];
    let band = BandResult { start_row: 2, pixels: vec![7; 8] };
    merge_band(&mut image, 2, &band);
    let once = image.clone();
    merge_band(&mut image, 2, &band);
    assert_eq!(image, once);
}

#[test]
fn render_colours_every_pixel_in_row_order() {
    for mode in MODES {
        let renderer = Mandelbrot::new(4, 4, 50, 1, mode);
        let samples = samples_for(4, 4, 50);
        let image = renderer.render_parallel(3, &samples).unwrap();
        assert_eq!(image.len(), 4 * 4 * 4);
        assert_eq!(image, colors_of(&renderer, &samples));
    }
}

#[test]
fn one_chunk_and_eight_chunks_render_the_same_bytes() {
    for mode in MODES {
        for (width, height) in [(4u32, 4u32), (5, 7), (1, 1), (3, 8), (2, 17), (9, 3)] {
            let renderer = Mandelbrot::new(width, height, 50, 1, mode);
            let samples = samples_for(width, height, 50);
            let one = renderer.render_parallel(1, &samples).unwrap();
            let eight = renderer.render_parallel(8, &samples).unwrap();
            assert_eq!(one, eight);
        }
    }
}

#[test]
fn any_chunk_count_renders_the_same_bytes() {
    let renderer = Mandelbrot::new(3, 11, 64, 2, PaintMode::FIRE);
    let samples = samples_for(3, 11, 64);
    let whole = renderer.render_parallel(1, &samples).unwrap();
    for chunks in 1..40usize {
        assert_eq!(renderer.render_parallel(chunks, &samples).unwrap(), whole);
    }
}

#[test]
fn rendering_twice_gives_the_same_bytes() {
    let renderer = Mandelbrot::new(6, 5, 30, 1, PaintMode::HSL3);
    let samples = samples_for(6, 5, 30);
    let first = renderer.render_parallel(4, &samples).unwrap();
    let second = renderer.render_parallel(4, &samples).unwrap();
    assert_eq!(first, second);
}

#[test]
fn more_chunks_than_rows_is_no_error() {
    let renderer = Mandelbrot::new(2, 3, 20, 1, PaintMode::HSL1);
    let samples = samples_for(2, 3, 20);
    let image = renderer.render_parallel(100, &samples).unwrap();
    assert_eq!(image, colors_of(&renderer, &samples));
}

#[test]
fn invalid_parameters_are_refused_before_rendering() {
    let refused = Err(RenderError::InvalidParameters);
    assert_eq!(Mandelbrot::new(0, 4, 50, 1, PaintMode::HSL1).render_parallel(2, &vec![]), refused);
    assert_eq!(Mandelbrot::new(4, 0, 50, 1, PaintMode::HSL1).render_parallel(2, &vec![]), refused);
    let samples = samples_for(2, 2, 5);
    assert_eq!(Mandelbrot::new(2, 2, 0, 1, PaintMode::HSL1).render_parallel(2, &samples), refused);
    assert_eq!(Mandelbrot::new(2, 2, 5, 0, PaintMode::HSL1).render_parallel(2, &samples), refused);
}

#[test]
fn bands_may_arrive_in_any_order() {
    let renderer = Mandelbrot::new(4, 9, 25, 1, PaintMode::RGB1);
    let samples = samples_for(4, 9, 25);
    let expected = renderer.render_parallel(1, &samples).unwrap();
    let bands = partition(9, 4);
    let results: Vec<BandResult> = bands
        .iter()
        .map(|b| {
            let part = samples[(b.start_row * 4) as usize..(b.end_row * 4) as usize].to_vec();
            renderer.render_band(*b, &part)
        })
        .collect();
    for order in [[0usize, 1, 2, 3], [3, 2, 1, 0], [2, 0, 3, 1], [1, 3, 0, 2]] {
        let mut image = vec![0u8; 4 * 9 * 4];
        for index in order {
            merge_band(&mut image, 4, &results[index]);
        }
        assert_eq!(image, expected);
    }
}

#[test]
fn a_band_arriving_twice_does_no_harm() {
    let renderer = Mandelbrot::new(2, 6, 25, 1, PaintMode::Grayscale);
    let samples = samples_for(2, 6, 25);
    let expected = renderer.render_parallel(1, &samples).unwrap();
    let bands = partition(6, 3);
    let mut image = vec![0u8; 2 * 6 * 4];
    for index in [1usize, 0, 1, 2, 0] {
        let b = bands[index];
        let part = samples[(b.start_row * 2) as usize..(b.end_row * 2) as usize].to_vec();
        merge_band(&mut image, 2, &renderer.render_band(b, &part));
    }
    assert_eq!(image, expected);
}

#[test]
fn four_by_four_grayscale_image() {
    let renderer = Mandelbrot::new(4, 4, 50, 1, PaintMode::Grayscale);
    let counts: [u32; 16] = [1, 1, 2, 1, 2, 4, 50, 50, 2, 4, 50, 50, 1, 1, 2, 1];
    let samples: Vec<Sample> = counts.into_iter().map(sample).collect();
    let image = renderer.render_parallel(2, &samples).unwrap();
    let shade = |n: u32| -> u8 {
        if n >= 50 {
            0
        } else {
            (255 - 255 * n / 50) as u8
        }
    };
    for (k, n) in counts.into_iter().enumerate() {
        let v = shade(n);
        let alpha = 255;
        assert_eq!(image[4 * k..4 * k + 4], [v, v, v, alpha]);
    }
    assert_eq!(image[0..4], [250, 250, 250, 255]);
    assert_eq!(image[24..28], [0, 0, 0, 255]);
}

use color_wave::raster::{BAND_HEIGHT, BUFFER_LEN, HEIGHT, WIDTH};
use color_wave::{rasterize, Rgb, Rgba};

fn stripes(seed: u8) -> [Rgb; 360] {
    let mut colors = [Rgb::default(); 360];
    for (i, c) in colors.iter_mut().enumerate() {
        *c = Rgb { r: (i % 251) as u8, g: (i / 2) as u8, b: seed };
    }
    colors
}

fn opaque(c: Rgb) -> Rgba {
    Rgba { r: c.r, g: c.g, b: c.b, a: 255 }
}

#[test]
fn raster_is_720_by_300() {
    let buffer = rasterize(&stripes(1), &stripes(2));
    assert_eq!(buffer.width(), 720);
    assert_eq!(buffer.height(), 300);
    assert_eq!(buffer.data().len(), 720 * 300 * 4);
    assert_eq!(buffer.data().len(), BUFFER_LEN);
    assert_eq!(WIDTH * HEIGHT * 4, BUFFER_LEN);
}

#[test]
fn default_colour_is_black() {
    assert_eq!(Rgb::default(), Rgb { r: 0, g: 0, b: 0 });
}

#[test]
fn every_pixel_carries_the_colour_of_its_stripe_and_band() {
    let top = stripes(10);
    let bottom = stripes(200);
    let buffer = rasterize(&top, &bottom);
    for y in 0..HEIGHT {
        for x in 0..WIDTH {
            let expected = if y < 150 { top[x / 2] } else { bottom[x / 2] };
            assert_eq!(buffer.pixel(x, y), Some(opaque(expected)), "at ({}, {})", x, y);
        }
    }
}

#[test]
fn bands_meet_at_row_150() {
    let top = [Rgb { r: 1, g: 2, b: 3 }; 360];
    let bottom = [Rgb { r: 4, g: 5, b: 6 }; 360];
    let buffer = rasterize(&top, &bottom);
    assert_eq!(BAND_HEIGHT, 150);
    for x in [0, 1, 358, 719] {
        assert_eq!(buffer.pixel(x, 0), Some(Rgba { r: 1, g: 2, b: 3, a: 255 }));
        assert_eq!(buffer.pixel(x, 149), Some(Rgba { r: 1, g: 2, b: 3, a: 255 }));
        assert_eq!(buffer.pixel(x, 150), Some(Rgba { r: 4, g: 5, b: 6, a: 255 }));
        assert_eq!(buffer.pixel(x, 299), Some(Rgba { r: 4, g: 5, b: 6, a: 255 }));
    }
}

#[test]
fn each_sample_fills_two_columns() {
    let top = stripes(0);
    let bottom = stripes(255);
    let buffer = rasterize(&top, &bottom);
    for i in 0..360 {
        for y in [0, 75, 149] {
            assert_eq!(buffer.pixel(2 * i, y), Some(opaque(top[i])));
            assert_eq!(buffer.pixel(2 * i + 1, y), Some(opaque(top[i])));
        }
        for y in [150, 151, 299] {
            assert_eq!(buffer.pixel(2 * i, y), Some(opaque(bottom[i])));
            assert_eq!(buffer.pixel(2 * i + 1, y), Some(opaque(bottom[i])));
        }
    }
    assert_ne!(buffer.pixel(1, 0), buffer.pixel(2, 0));
    assert_ne!(buffer.pixel(717, 299), buffer.pixel(718, 299));
}

#[test]
fn bytes_are_row_major_rgba() {
    let top = stripes(7);
    let bottom = stripes(9);
    let buffer = rasterize(&top, &bottom);
    let bytes = buffer.data();
    assert_eq!(&bytes[0..8], &[0, 0, 7, 255, 0, 0, 7, 255]);
    assert_eq!(&bytes[8..12], &[1, 0, 7, 255]);
    // last pixel of the first row, stripe 359
    assert_eq!(&bytes[4 * 719..4 * 720], &[108, 179, 7, 255]);
    // first pixel of the second row
    assert_eq!(&bytes[4 * 720..4 * 721], &[0, 0, 7, 255]);
    // first pixel of the lower band
    assert_eq!(&bytes[4 * 720 * 150..4 * 720 * 150 + 4], &[0, 0, 9, 255]);
    // last pixel of the raster
    assert_eq!(&bytes[BUFFER_LEN - 4..], &[108, 179, 9, 255]);
    assert!(bytes.chunks(4).all(|pixel| pixel[3] == 255));
    let owned = rasterize(&top, &bottom).into_bytes();
    assert_eq!(&owned, bytes);
}

#[test]
fn no_pixel_outside_the_raster() {
    let buffer = rasterize(&stripes(1), &stripes(2));
    assert_eq!(buffer.pixel(720, 0), None);
    assert_eq!(buffer.pixel(0, 300), None);
    assert_eq!(buffer.pixel(720, 300), None);
    assert_eq!(buffer.pixel(usize::MAX, usize::MAX), None);
    assert!(buffer.pixel(719, 299).is_some());
}

#[test]
fn renders_of_the_same_colours_are_identical() {
    let top = stripes(3);
    let bottom = stripes(4);
    assert_eq!(rasterize(&top, &bottom).data(), rasterize(&top, &bottom).data());
}

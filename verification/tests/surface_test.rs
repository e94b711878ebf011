use raytracer::pixel::{Pixel, RgbaPixel};
use raytracer::surface::{filled_image, write_pixel, ImageBuffer, Surface, SurfaceMut};

#[test]
fn create_filled_buffer() {
    let color = RgbaPixel::new(1, 2, 3, 4);
    let buffer = filled_image(10, 10, color.clone()).unwrap();

    assert_eq!(10, buffer.width());
    assert_eq!(10, buffer.height());
    assert_eq!((10, 10), buffer.dimensions());
    let mut pixels = buffer.pixels();
    while let Some(p) = pixels.next() {
        assert_eq!(p, color);
    }
    assert_eq!(buffer.get_pixel(0, 0), color);
}

#[test]
fn filled_buffer_has_every_pixel() {
    let color = RgbaPixel::new(9, 8, 7, 6);
    let buffer = filled_image(4, 3, color).unwrap();
    let mut pixels = buffer.pixels();
    let mut count = 0;
    while let Some(p) = pixels.next() {
        assert_eq!(p, color);
        count += 1;
    }
    assert_eq!(count, 12);
    assert_eq!(buffer.into_raw().len(), 48);
}

#[test]
fn filled_buffer_too_large_is_refused() {
    let color = RgbaPixel::new(0, 0, 0, 0);
    assert!(filled_image(usize::MAX, 2, color).is_none());
}

#[test]
fn empty_filled_buffer() {
    let buffer = filled_image(0, 5, RgbaPixel::new(1, 1, 1, 1)).unwrap();
    assert_eq!(buffer.dimensions(), (0, 5));
    assert!(buffer.pixels().next().is_none());
}

#[test]
fn from_raw_needs_enough_channels() {
    let short: Vec<u8> = vec![0; 4 * 2 * 2 - 1];
    assert!(ImageBuffer::<RgbaPixel>::from_raw(2, 2, short).is_none());
    let exact: Vec<u8> = (0..16).collect();
    let img = ImageBuffer::<RgbaPixel>::from_raw(2, 2, exact).unwrap();
    assert_eq!(img.get_pixel(0, 0), RgbaPixel::new(0, 1, 2, 3));
    assert_eq!(img.get_pixel(1, 0), RgbaPixel::new(4, 5, 6, 7));
    assert_eq!(img.get_pixel(0, 1), RgbaPixel::new(8, 9, 10, 11));
    assert_eq!(img.get_pixel(1, 1), RgbaPixel::new(12, 13, 14, 15));
}

#[test]
fn from_raw_accepts_extra_data() {
    let long: Vec<u8> = (0..20).collect();
    let img = ImageBuffer::<RgbaPixel>::from_raw(2, 2, long).unwrap();
    assert_eq!(img.into_raw(), (0..20).collect::<Vec<u8>>());
}

#[test]
fn put_pixel_then_get_pixel() {
    let mut img = filled_image(3, 2, RgbaPixel::new(0, 0, 0, 0)).unwrap();
    let red = RgbaPixel::new(255, 0, 0, 255);
    img.put_pixel(2, 1, red);
    assert_eq!(img.get_pixel(2, 1), red);
    assert_eq!(img.get_pixel(1, 1), RgbaPixel::new(0, 0, 0, 0));
    let raw = img.into_raw();
    assert_eq!(&raw[20..24], &[255, 0, 0, 255]);
}

#[test]
fn last_put_pixel_wins() {
    let mut img = filled_image(2, 2, RgbaPixel::new(0, 0, 0, 0)).unwrap();
    img.put_pixel(1, 0, RgbaPixel::new(1, 1, 1, 1));
    img.put_pixel(1, 0, RgbaPixel::new(2, 2, 2, 2));
    assert_eq!(img.get_pixel(1, 0), RgbaPixel::new(2, 2, 2, 2));
}

#[test]
fn clear_fills_every_pixel() {
    let mut img = filled_image(2, 2, RgbaPixel::new(0, 0, 0, 0)).unwrap();
    img.put_pixel(0, 1, RgbaPixel::new(5, 5, 5, 5));
    img.clear(RgbaPixel::new(7, 7, 7, 7));
    for y in 0..2 {
        for x in 0..2 {
            assert_eq!(img.get_pixel(x, y), RgbaPixel::new(7, 7, 7, 7));
        }
    }
}

#[test]
fn rows_hold_width_pixels_each() {
    let data: Vec<u8> = (0..24).collect();
    let img = ImageBuffer::<RgbaPixel>::from_raw(3, 2, data).unwrap();
    let mut rows = img.rows();
    assert_eq!(rows.len(), 2);
    let mut first = rows.next().unwrap();
    assert_eq!(first.len(), 3);
    assert_eq!(first.next().unwrap(), RgbaPixel::new(0, 1, 2, 3));
    let mut second = rows.next().unwrap();
    assert_eq!(second.next().unwrap(), RgbaPixel::new(12, 13, 14, 15));
    assert!(rows.next().is_none());
}

#[test]
fn pixels_from_both_ends() {
    let data: Vec<u8> = (0..12).collect();
    let img = ImageBuffer::<RgbaPixel>::from_raw(3, 1, data).unwrap();
    let mut pixels = img.pixels();
    assert_eq!(pixels.len(), 3);
    assert_eq!(pixels.next_back().unwrap(), RgbaPixel::new(8, 9, 10, 11));
    assert_eq!(pixels.next().unwrap(), RgbaPixel::new(0, 1, 2, 3));
    assert_eq!(pixels.next().unwrap(), RgbaPixel::new(4, 5, 6, 7));
    assert!(pixels.next().is_none());
    assert!(pixels.next_back().is_none());
}

#[test]
fn enumerate_pixels_gives_coordinates() {
    let data: Vec<u8> = (0..24).collect();
    let img = ImageBuffer::<RgbaPixel>::from_raw(3, 2, data).unwrap();
    let mut it = img.enumerate_pixels();
    let mut seen = Vec::new();
    while let Some((x, y, p)) = it.next() {
        seen.push((x, y, p.r));
    }
    assert_eq!(
        seen,
        vec![(0, 0, 0), (1, 0, 4), (2, 0, 8), (0, 1, 12), (1, 1, 16), (2, 1, 20)]
    );
}

#[test]
fn rgba_pixel_channels() {
    assert_eq!(RgbaPixel::channel_count(), 4);
    let p = RgbaPixel::from_slice(&[1, 2, 3, 4]);
    assert_eq!(p, RgbaPixel::new(1, 2, 3, 4));
    assert_eq!(p.channel(2), 3);
    assert_eq!(RgbaPixel::zero_subpixel(), 0);
}

#[test]
fn writes_to_different_pixels_commute() {
    let a = RgbaPixel::new(1, 0, 0, 1);
    let b = RgbaPixel::new(0, 2, 0, 2);
    let mut first = filled_image(3, 3, RgbaPixel::new(0, 0, 0, 0)).unwrap();
    first.put_pixel(0, 2, a);
    first.put_pixel(2, 0, b);
    let mut second = filled_image(3, 3, RgbaPixel::new(0, 0, 0, 0)).unwrap();
    second.put_pixel(2, 0, b);
    second.put_pixel(0, 2, a);
    assert_eq!(first.into_raw(), second.into_raw());
}

#[test]
fn pixels_mut_writes_every_pixel() {
    let mut buffer = filled_image(3, 2, RgbaPixel::new(0, 0, 0, 0)).unwrap();
    {
        let mut pixels = buffer.pixels_mut();
        assert_eq!(pixels.len(), 6);
        let mut k = 0u8;
        while let Some(c) = pixels.next() {
            assert_eq!(c.len(), 4);
            write_pixel(c, RgbaPixel::new(k, 0, 0, 255));
            k += 1;
        }
        assert_eq!(k, 6);
    }
    for y in 0..2 {
        for x in 0..3 {
            assert_eq!(buffer.get_pixel(x, y), RgbaPixel::new((y * 3 + x) as u8, 0, 0, 255));
        }
    }
}

#[test]
fn pixels_mut_from_both_ends() {
    let mut buffer = filled_image(2, 2, RgbaPixel::new(1, 1, 1, 1)).unwrap();
    {
        let mut pixels = buffer.pixels_mut();
        let last = pixels.next_back().unwrap();
        write_pixel(last, RgbaPixel::new(9, 9, 9, 9));
        let first = pixels.next().unwrap();
        write_pixel(first, RgbaPixel::new(5, 5, 5, 5));
        assert_eq!(pixels.len(), 2);
    }
    assert_eq!(buffer.get_pixel(0, 0), RgbaPixel::new(5, 5, 5, 5));
    assert_eq!(buffer.get_pixel(1, 0), RgbaPixel::new(1, 1, 1, 1));
    assert_eq!(buffer.get_pixel(0, 1), RgbaPixel::new(1, 1, 1, 1));
    assert_eq!(buffer.get_pixel(1, 1), RgbaPixel::new(9, 9, 9, 9));
}

#[test]
fn rows_mut_writes_row_by_row() {
    let mut buffer = filled_image(3, 4, RgbaPixel::new(0, 0, 0, 0)).unwrap();
    {
        let mut rows = buffer.rows_mut();
        assert_eq!(rows.len(), 4);
        let mut y = 0u8;
        while let Some(mut row) = rows.next() {
            assert_eq!(row.len(), 3);
            while let Some(c) = row.next() {
                write_pixel(c, RgbaPixel::new(y, y, y, y));
            }
            y += 1;
        }
        assert_eq!(y, 4);
    }
    for y in 0..4 {
        for x in 0..3 {
            let v = y as u8;
            assert_eq!(buffer.get_pixel(x, y), RgbaPixel::new(v, v, v, v));
        }
    }
}

#[test]
fn rows_mut_last_row_first() {
    let mut buffer = filled_image(2, 3, RgbaPixel::new(0, 0, 0, 0)).unwrap();
    {
        let mut rows = buffer.rows_mut();
        let mut last = rows.next_back().unwrap();
        while let Some(c) = last.next() {
            write_pixel(c, RgbaPixel::new(7, 7, 7, 7));
        }
        assert_eq!(rows.len(), 2);
    }
    assert_eq!(buffer.get_pixel(0, 2), RgbaPixel::new(7, 7, 7, 7));
    assert_eq!(buffer.get_pixel(1, 2), RgbaPixel::new(7, 7, 7, 7));
    assert_eq!(buffer.get_pixel(1, 1), RgbaPixel::new(0, 0, 0, 0));
}

#[test]
fn enumerate_pixels_mut_gives_coordinates() {
    let mut buffer = filled_image(3, 2, RgbaPixel::new(0, 0, 0, 0)).unwrap();
    {
        let mut pixels = buffer.enumerate_pixels_mut();
        assert_eq!(pixels.len(), 6);
        let mut seen = Vec::new();
        while let Some((x, y, c)) = pixels.next() {
            seen.push((x, y));
            write_pixel(c, RgbaPixel::new(x as u8, y as u8, 0, 0));
        }
        assert_eq!(seen, vec![(0, 0), (1, 0), (2, 0), (0, 1), (1, 1), (2, 1)]);
    }
    assert_eq!(buffer.get_pixel(2, 1), RgbaPixel::new(2, 1, 0, 0));
    assert_eq!(buffer.get_pixel(0, 1), RgbaPixel::new(0, 1, 0, 0));
}

#[test]
fn get_pixel_mut_changes_that_pixel_only() {
    let mut buffer = filled_image(2, 2, RgbaPixel::new(3, 3, 3, 3)).unwrap();
    {
        let c = buffer.get_pixel_mut(1, 0);
        assert_eq!(RgbaPixel::from_slice(c), RgbaPixel::new(3, 3, 3, 3));
        write_pixel(c, RgbaPixel::new(8, 6, 4, 2));
    }
    assert_eq!(buffer.get_pixel(1, 0), RgbaPixel::new(8, 6, 4, 2));
    assert_eq!(buffer.get_pixel(0, 0), RgbaPixel::new(3, 3, 3, 3));
    assert_eq!(buffer.get_pixel(0, 1), RgbaPixel::new(3, 3, 3, 3));
}

use term_render::{Color, Dims, Sprite};

#[test]
fn from_image_copies_pixels_row_major() {
    let mut img = image::RgbaImage::new(2, 2);
    img.put_pixel(0, 0, image::Rgba([1, 2, 3, 4]));
    img.put_pixel(1, 0, image::Rgba([5, 6, 7, 8]));
    img.put_pixel(0, 1, image::Rgba([9, 10, 11, 12]));
    img.put_pixel(1, 1, image::Rgba([13, 14, 15, 16]));
    let dynamic = image::DynamicImage::ImageRgba8(img);
    let s = Sprite::from_image(&dynamic, 3);
    assert_eq!(s.size, Dims { x: 2, y: 2 });
    assert_eq!(s.z_index, 3);
    assert_eq!(
        s.colors,
        vec![
            Color { r: 1, g: 2, b: 3, a: 4 },
            Color { r: 5, g: 6, b: 7, a: 8 },
            Color { r: 9, g: 10, b: 11, a: 12 },
            Color { r: 13, g: 14, b: 15, a: 16 },
        ]
    );
}

#[test]
fn from_image_converts_other_formats_to_rgba() {
    let mut img = image::RgbImage::new(1, 1);
    img.put_pixel(0, 0, image::Rgb([40, 50, 60]));
    let dynamic = image::DynamicImage::ImageRgb8(img);
    let s = Sprite::from_image(&dynamic, 0);
    assert_eq!(s.size, Dims { x: 1, y: 1 });
    assert_eq!(s.colors, vec![Color { r: 40, g: 50, b: 60, a: 255 }]);
}

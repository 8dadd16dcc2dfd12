use slint_layer_support::sw_layer::{
    buffer_size, damage_rect, opaque_argb, write_line_span, DamageRect, PremultipliedRgbaColor,
    Rgb8Pixel, SoftBufferPixel,
};

#[test]
fn pixel_words_unpack_to_channels() {
    let c = PremultipliedRgbaColor::from(SoftBufferPixel(0x80112233));
    assert_eq!(c, PremultipliedRgbaColor { red: 0x11, green: 0x22, blue: 0x33, alpha: 0x80 });
}

#[test]
fn channels_pack_to_pixel_words() {
    let p = SoftBufferPixel::from(PremultipliedRgbaColor { red: 1, green: 2, blue: 3, alpha: 4 });
    assert_eq!(p, SoftBufferPixel(0x04010203));
}

#[test]
fn pixel_roundtrips() {
    for v in [0u32, 0xffffffff, 0x12345678, 0x80ff00ff, 0x00000001] {
        let c = PremultipliedRgbaColor::from(SoftBufferPixel(v));
        assert_eq!(SoftBufferPixel::from(c).0, v);
    }
}

#[test]
fn rgb_pixels_are_opaque() {
    assert_eq!(SoftBufferPixel::from_rgb(0x12, 0x34, 0x56), SoftBufferPixel(0xff123456));
    assert_eq!(opaque_argb(0, 0, 0), 0xff000000);
    assert_eq!(SoftBufferPixel::background(), SoftBufferPixel(0));
}

#[test]
fn empty_windows_are_not_painted() {
    assert_eq!(buffer_size(0, 10), None);
    assert_eq!(buffer_size(10, 0), None);
    assert_eq!(buffer_size(640, 48), Some((640, 48)));
}

#[test]
fn damage_is_the_repainted_region_or_the_whole_buffer() {
    assert_eq!(
        damage_rect(640, 48, 20, 10, 5, 7),
        Some(DamageRect { width: 20, height: 10, x: 5, y: 7 })
    );
    assert_eq!(damage_rect(640, 48, 0, 10, 5, 7), Some(DamageRect { width: 640, height: 48, x: 0, y: 0 }));
    assert_eq!(damage_rect(640, 48, 20, 0, 5, 7), Some(DamageRect { width: 640, height: 48, x: 0, y: 0 }));
    assert_eq!(damage_rect(0, 48, 0, 0, 0, 0), None);
    assert_eq!(damage_rect(640, 48, 1, 1, -1, 0), Some(DamageRect { width: 1, height: 1, x: u32::MAX, y: 0 }));
}

#[test]
fn line_spans_land_in_their_line() {
    let mut buffer = vec![7u32; 12];
    let src = [Rgb8Pixel { r: 1, g: 2, b: 3 }, Rgb8Pixel { r: 4, g: 5, b: 6 }];
    write_line_span(&mut buffer, 1, 4, 1, 3, &src);
    assert_eq!(buffer, vec![7, 7, 7, 7, 7, 0xff010203, 0xff040506, 7, 7, 7, 7, 7]);
    write_line_span(&mut buffer, 2, 4, 2, 2, &[]);
    assert_eq!(buffer[8..], [7, 7, 7, 7]);
}

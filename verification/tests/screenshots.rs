use monster_step_viewer::screenshot::{
    crop_rgba8, exchange_red_and_blue, make_background_transparent, png_bytes, png_failure,
    viewport_pixels, CropError, PixelFormat, PngFailure,
};

#[test]
fn crops_viewport_rows_without_ui_pixels() {
    let source: Vec<u8> = (0..48).collect();
    let cropped = crop_rgba8(&source, 4, 3, 1, 1, 2, 2).unwrap();
    assert_eq!(cropped, (20..28).chain(36..44).collect::<Vec<_>>());
}

#[test]
fn makes_clear_color_transparent() {
    let mut pixels = vec![43, 44, 47, 255, 44, 44, 47, 255];
    make_background_transparent(&mut pixels, [43, 44, 47]);
    assert_eq!(pixels, [43, 44, 47, 0, 44, 44, 47, 0]);
}

#[test]
fn colours_apart_from_the_background_stay() {
    let mut pixels = vec![43, 44, 49, 255, 1, 2];
    make_background_transparent(&mut pixels, [43, 44, 47]);
    assert_eq!(pixels, [43, 44, 49, 255, 1, 2]);
}

#[test]
fn crops_that_do_not_fit() {
    assert_eq!(crop_rgba8(&[0; 16], 2, 2, 1, 0, 2, 1), Err(CropError::Mismatch));
    assert_eq!(crop_rgba8(&[0; 15], 2, 2, 0, 0, 1, 1), Err(CropError::Mismatch));
    assert_eq!(crop_rgba8(&[], usize::MAX, 2, 0, 0, 0, 0), Err(CropError::Overflow));
    assert_eq!(CropError::Overflow.message(), "Screenshot dimensions overflow");
    assert_eq!(
        CropError::Mismatch.message(),
        "Screenshot dimensions do not match the viewport"
    );
}

#[test]
fn a_crop_of_all_is_all() {
    let source: Vec<u8> = (0..24).collect();
    assert_eq!(crop_rgba8(&source, 3, 2, 0, 0, 3, 2), Ok(source));
}

#[test]
fn red_and_blue_change_places() {
    let mut pixels = vec![1, 2, 3, 4, 5, 6, 7, 8, 9];
    exchange_red_and_blue(&mut pixels);
    assert_eq!(pixels, vec![3, 2, 1, 4, 7, 6, 5, 8, 9]);
    exchange_red_and_blue(&mut pixels);
    assert_eq!(pixels, vec![1, 2, 3, 4, 5, 6, 7, 8, 9]);
}

#[test]
fn the_view_is_cut_out_and_cleared() {
    let source = vec![9, 9, 9, 9, 47, 44, 43, 255, 30, 20, 10, 255];
    let made =
        viewport_pixels(&source, 3, 1, 1, 0, 2, 1, PixelFormat::Bgra, [43, 44, 47]).unwrap();
    assert_eq!(made, vec![43, 44, 47, 0, 10, 20, 30, 255]);
    let made =
        viewport_pixels(&source, 3, 1, 2, 0, 1, 1, PixelFormat::Rgba, [43, 44, 47]).unwrap();
    assert_eq!(made, vec![30, 20, 10, 255]);
}

#[test]
fn pixels_are_encoded_as_png() {
    let pixels = [1, 2, 3, 255, 4, 5, 6, 0];
    let bytes = png_bytes(&pixels, 2, 1).unwrap();
    assert_eq!(bytes[..8], [137, 80, 78, 71, 13, 10, 26, 10]);
    let decoder = png::Decoder::new(std::io::Cursor::new(bytes));
    let mut reader = decoder.read_info().unwrap();
    let mut decoded = vec![0; reader.output_buffer_size().unwrap()];
    let info = reader.next_frame(&mut decoded).unwrap();
    assert_eq!((info.width, info.height), (2, 1));
    assert_eq!(decoded, pixels.to_vec());
}

#[test]
fn an_empty_image_has_no_png() {
    let told = png_bytes(&[], 0, 0).unwrap_err();
    assert!(told.starts_with("Could not write PNG header: "));
    assert_eq!(png_failure(PngFailure::Data("x".to_string())), "Could not encode PNG: x");
}

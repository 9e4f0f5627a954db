use ranger::image;

#[test]
fn image_point_create() {
    let p = image::ImgPoint::new();
    assert_eq!(p.x, 0);
    assert_eq!(p.y, 0);
}

#[test]
fn image_point_set_xy() {
    let mut p = image::ImgPoint::new();
    p.set_xy(5, 5);
    assert_eq!(p.x, 5);
    assert_eq!(p.y, 5);

    p.x = 6;
    assert_eq!(p.x, 6);
    assert_eq!(p.y, 5);
}

#[test]
fn image_buffer_create() {
    let mut buf: Vec<u8> = vec![];
    buf.push(9);
    assert_eq!(buf.len(), 1);
}

#[test]
fn image_size() {
    let img = image::RGBA::new(2, 2);
    assert_eq!(img.bounds().size(), 4);
}

#[test]
fn image_buf_size() {
    let mut img = image::RGBA::new(2, 2);
    assert_eq!(img.size(), 4 * 4);
}

#[test]
fn image_set_pixel_direct() {
    let mut img = image::RGBA::new(2, 2);
    img.pix[0] = 128;
    assert_eq!(img.pix[0], 128);
    img.pix[1] = 255;
    assert_eq!(img.pix[1], 255);
}

#[test]
fn image_set_pixel_by_buf() {
    let mut img = image::RGBA::new(2, 2);
    img.buf()[0] = 120;
    assert_eq!(img.buf()[0], 120);
}

#[test]
fn image_set_pixel_index_op() {
    let mut img = image::RGBA::new(2, 2);

    img.pix[0] = 120;
    assert_eq!(img.pix[0], 120);
}

#[test]
fn image_at_pixel() {
    // Sets 'B' of the pixel at 0,0.
    let mut img = image::RGBA::new(2, 2);
    img.pix[2] = 120;

    //                        R  G   B   A
    assert_eq!(img.at(0, 0), [0, 0, 120, 0]);
}

#[test]
fn image_at_pixel2() {
    // Sets 'R' of the pixel at 1,0.
    let mut img = image::RGBA::new(2, 2);
    img.pix[1 * 4] = 127;

    //                        R  G   B   A
    assert_eq!(img.at(1, 0), [127, 0, 0, 0]);
}

#[test]
fn image_set_pixel() {
    // Sets pixel 1,0 = Orange.
    let mut img = image::RGBA::new(2, 2);
    img.set(1, 0, [255, 127, 0, 0]);

    assert_eq!(img.at(1, 0), [255, 127, 0, 0]);
}

#[test]
fn image_set_pixel_by_components() {
    let mut img = image::RGBA::new(2, 2);
    // Sets pixel 1,0 = Orange.
    img.set_components(1, 0, 255, 127, 0, 0);

    assert_eq!(img.at(1, 0), [255, 127, 0, 0]);
}

#[test]
fn image_set_pixel_outside_ignored() {
    let mut img = image::RGBA::new(2, 2);
    img.set(5, 5, [1, 2, 3, 4]);
    assert_eq!(img.at(5, 5), [0, 0, 0, 0]);
    for i in 0..img.pix.len() {
        assert_eq!(img.pix[i], 0);
    }
}

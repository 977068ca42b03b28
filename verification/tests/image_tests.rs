use heat_abnormal::plane::Plane;
use heat_abnormal::rgb::{ChannelOrder, RgbImage};
use heat_abnormal::point_ops::{
    apply_lut, apply_lut_image, combine_images, combine_planes, invert_image, threshold_binary, BinaryOp,
};

fn plane(w: usize, h: usize, data: &[u8]) -> Plane {
    Plane::new(w, h, data.to_vec()).unwrap()
}

fn rgb(w: usize, h: usize, r: &[u8], g: &[u8], b: &[u8]) -> RgbImage {
    RgbImage::from_planes(plane(w, h, r), plane(w, h, g), plane(w, h, b)).unwrap()
}

#[test]
fn plane_new_checks_length() {
    assert!(Plane::new(2, 3, vec![0; 6]).is_some());
    assert!(Plane::new(2, 3, vec![0; 5]).is_none());
    assert!(Plane::new(0, 0, vec![]).is_some());
    assert!(Plane::new(usize::MAX, 2, vec![]).is_none());
    let p = plane(3, 1, &[4, 5, 6]);
    assert_eq!(p.width(), 3);
    assert_eq!(p.height(), 1);
    assert_eq!(p.data(), &vec![4, 5, 6]);
    assert_eq!(p.len(), 3);
}

#[test]
fn plane_count_nonzero() {
    assert_eq!(plane(2, 2, &[0, 3, 0, 255]).count_nonzero(), 2);
    assert_eq!(plane(0, 5, &[]).count_nonzero(), 0);
}

#[test]
fn rgb_from_planes_checks_sizes() {
    assert!(RgbImage::from_planes(plane(1, 2, &[1, 2]), plane(2, 1, &[1, 2]), plane(1, 2, &[1, 2])).is_none());
    assert!(RgbImage::from_planes(plane(1, 2, &[1, 2]), plane(1, 2, &[1, 2]), plane(1, 2, &[1, 2])).is_some());
}

#[test]
fn interleaved_rgb_and_bgr() {
    let img = rgb(2, 1, &[1, 4], &[2, 5], &[3, 6]);
    assert_eq!(img.to_interleaved(ChannelOrder::Rgb), vec![1, 2, 3, 4, 5, 6]);
    assert_eq!(img.to_interleaved(ChannelOrder::Bgr), vec![3, 2, 1, 6, 5, 4]);
    let back = RgbImage::from_interleaved(2, 1, &[3, 2, 1, 6, 5, 4], ChannelOrder::Bgr).unwrap();
    assert_eq!(back.red().data(), &vec![1, 4]);
    assert_eq!(back.green().data(), &vec![2, 5]);
    assert_eq!(back.blue().data(), &vec![3, 6]);
    assert!(RgbImage::from_interleaved(2, 1, &[1, 2, 3, 4, 5], ChannelOrder::Rgb).is_none());
    assert!(RgbImage::from_interleaved(2, 1, &[1, 2, 3, 4, 5, 6, 7], ChannelOrder::Rgb).is_none());
}

#[test]
fn interleaved_roundtrip_gives_the_image() {
    let img = rgb(3, 2, &[0, 10, 20, 30, 40, 50], &[1, 11, 21, 31, 41, 51], &[2, 12, 22, 32, 42, 52]);
    let bytes = img.to_interleaved(ChannelOrder::Bgr);
    let back = RgbImage::from_interleaved(3, 2, &bytes, ChannelOrder::Bgr).unwrap();
    assert_eq!(back.to_interleaved(ChannelOrder::Rgb), img.to_interleaved(ChannelOrder::Rgb));
}

#[test]
fn gray_values_use_bt601_luma() {
    let img = rgb(4, 1, &[255, 0, 0, 10], &[0, 255, 0, 20], &[0, 0, 255, 30]);
    // (4899*255 + 8192) >> 14 = 76; (9617*255 + 8192) >> 14 = 150; (1868*255 + 8192) >> 14 = 29;
    // (4899*10 + 9617*20 + 1868*30 + 8192) >> 14 = 18.
    assert_eq!(img.to_gray().data(), &vec![76, 150, 29, 18]);
}

#[test]
fn gray_to_color_to_gray_is_identity() {
    let p = plane(256, 1, &(0..=255u8).collect::<Vec<u8>>());
    let back = RgbImage::from_gray(p.duplicate()).to_gray();
    assert_eq!(back.data(), p.data());
}

#[test]
fn threshold_is_strictly_above() {
    let p = plane(4, 1, &[0, 100, 101, 255]);
    assert_eq!(threshold_binary(&p, 100).data(), &vec![0, 0, 255, 255]);
    assert_eq!(threshold_binary(&p, 255).data(), &vec![0, 0, 0, 0]);
}

#[test]
fn negate_twice_is_identity() {
    let img = rgb(2, 1, &[0, 255], &[7, 100], &[128, 1]);
    let once = invert_image(&img);
    assert_eq!(once.red().data(), &vec![255, 0]);
    assert_eq!(once.green().data(), &vec![248, 155]);
    assert_eq!(once.blue().data(), &vec![127, 254]);
    let twice = invert_image(&once);
    assert_eq!(twice.to_interleaved(ChannelOrder::Rgb), img.to_interleaved(ChannelOrder::Rgb));
}

#[test]
fn lookup_table_applies_per_byte() {
    let mut lut = [0u8; 256];
    for i in 0..256 {
        lut[i] = (255 - i) as u8 / 2;
    }
    let p = plane(3, 1, &[0, 1, 255]);
    assert_eq!(apply_lut(&p, &lut).data(), &vec![127, 127, 0]);
    let img = rgb(1, 1, &[0], &[1], &[255]);
    let out = apply_lut_image(&img, &lut);
    assert_eq!(out.to_interleaved(ChannelOrder::Rgb), vec![127, 127, 0]);
}

#[test]
fn two_image_operations() {
    let a = plane(4, 1, &[200, 50, 3, 6]);
    let b = plane(4, 1, &[100, 100, 4, 7]);
    assert_eq!(combine_planes(&a, &b, BinaryOp::Add).data(), &vec![255, 150, 7, 13]);
    assert_eq!(combine_planes(&a, &b, BinaryOp::Subtract).data(), &vec![100, 0, 0, 0]);
    // halves go to the even neighbour: 150, 75, 3.5 -> 4, 6.5 -> 6
    assert_eq!(combine_planes(&a, &b, BinaryOp::Blend).data(), &vec![150, 75, 4, 6]);
    assert_eq!(combine_planes(&a, &b, BinaryOp::And).data(), &vec![200 & 100, 50 & 100, 3 & 4, 6 & 7]);
    assert_eq!(combine_planes(&a, &b, BinaryOp::Or).data(), &vec![200 | 100, 50 | 100, 3 | 4, 6 | 7]);
    assert_eq!(combine_planes(&a, &b, BinaryOp::Xor).data(), &vec![200 ^ 100, 50 ^ 100, 3 ^ 4, 6 ^ 7]);
    assert_eq!(combine_planes(&a, &b, BinaryOp::Not).data(), &vec![55, 205, 252, 249]);
    let c = plane(2, 1, &[1, 2]);
    let d = plane(2, 1, &[2, 5]);
    // 1.5 -> 2, 3.5 -> 4
    assert_eq!(combine_planes(&c, &d, BinaryOp::Blend).data(), &vec![2, 4]);
}

#[test]
fn combining_with_itself() {
    let p = plane(3, 1, &[0, 77, 255]);
    assert_eq!(combine_planes(&p, &p, BinaryOp::Blend).data(), p.data());
    assert_eq!(combine_planes(&p, &p, BinaryOp::And).data(), p.data());
    assert_eq!(combine_planes(&p, &p, BinaryOp::Or).data(), p.data());
    assert_eq!(combine_planes(&p, &p, BinaryOp::Subtract).data(), &vec![0, 0, 0]);
    assert_eq!(combine_planes(&p, &p, BinaryOp::Xor).data(), &vec![0, 0, 0]);
}

#[test]
fn combine_images_per_channel() {
    let a = rgb(1, 1, &[10], &[20], &[30]);
    let b = rgb(1, 1, &[250], &[5], &[30]);
    let out = combine_images(&a, &b, BinaryOp::Subtract);
    assert_eq!(out.to_interleaved(ChannelOrder::Rgb), vec![0, 15, 0]);
}

use heat_abnormal::actions::{
    calculate_gray_histogram, canny_edge, convert_color, convert_to_hsv, convert_to_lab, custom_filter, dilate,
    equalization_input, equalize_histogram, linear_filter_kernel, median_filter, negate, posterize,
    selective_stretch, segment, skeletonize, split_rgb, two_argument_op,
};
use heat_abnormal::plane::Plane;
use heat_abnormal::rgb::{ChannelOrder, RgbImage};
use heat_abnormal::store::{ActionError, ImageContainer, ImageStore};

fn plane(w: usize, h: usize, data: &[u8]) -> Plane {
    Plane::new(w, h, data.to_vec()).unwrap()
}

fn gray(w: usize, h: usize, data: &[u8], label: &str) -> ImageContainer {
    ImageContainer { img: RgbImage::from_gray(plane(w, h, data)), label: label.to_string(), color: false }
}

fn color(w: usize, h: usize, r: &[u8], g: &[u8], b: &[u8], label: &str) -> ImageContainer {
    let img = RgbImage::from_planes(plane(w, h, r), plane(w, h, g), plane(w, h, b)).unwrap();
    ImageContainer { img, label: label.to_string(), color: true }
}

fn store_with(images: Vec<ImageContainer>, selected: i32) -> ImageStore {
    let mut s = ImageStore::new();
    s.loaded_images = images;
    s.selected_image = selected;
    s
}

fn labels(s: &ImageStore) -> Vec<String> {
    s.loaded_images.iter().map(|c| c.label.clone()).collect()
}

fn pixels(c: &ImageContainer) -> Vec<u8> {
    c.img.to_interleaved(ChannelOrder::Rgb)
}

#[test]
fn new_store_is_empty() {
    let s = ImageStore::new();
    assert!(s.loaded_images.is_empty());
    assert_eq!(s.selected_image, -1);
    assert!(s.histogram.is_none());
    assert_eq!(s.get_current_image().err(), Some(ActionError::NoImageAt(-1)));
}

#[test]
fn get_current_image_checks_selection() {
    let s = store_with(vec![gray(1, 1, &[1], "a"), gray(1, 1, &[2], "b")], 1);
    let (idx, c) = s.get_current_image().unwrap();
    assert_eq!(idx, 1);
    assert_eq!(c.label, "b");
    let s = store_with(vec![gray(1, 1, &[1], "a")], 3);
    assert_eq!(s.get_current_image().err(), Some(ActionError::NoImageAt(3)));
}

#[test]
fn open_file_selects_last() {
    let mut s = store_with(vec![gray(1, 1, &[1], "a")], 0);
    s.open_file(vec![gray(1, 1, &[2], "b"), gray(1, 1, &[3], "c")]);
    assert_eq!(labels(&s), vec!["a", "b", "c"]);
    assert_eq!(s.selected_image, 2);
    assert_eq!(s.get_current_image().unwrap().1.label, "c");
}

#[test]
fn push_image_keeps_selection() {
    let mut s = store_with(vec![gray(1, 1, &[1], "a")], 0);
    s.push_image(gray(1, 1, &[2], "b"));
    assert_eq!(s.selected_image, 0);
    s.select_last();
    assert_eq!(s.selected_image, 1);
}

#[test]
fn close_file_moves_selection_back() {
    let mut s = store_with(vec![gray(1, 1, &[1], "a"), gray(1, 1, &[2], "b"), gray(1, 1, &[3], "c")], 2);
    assert_eq!(s.close_file(1), Ok(()));
    assert_eq!(labels(&s), vec!["a", "c"]);
    assert_eq!(s.selected_image, 1);
    assert_eq!(s.get_current_image().unwrap().1.label, "c");
}

#[test]
fn close_file_before_selection_untouched() {
    let mut s = store_with(vec![gray(1, 1, &[1], "a"), gray(1, 1, &[2], "b"), gray(1, 1, &[3], "c")], 0);
    assert_eq!(s.close_file(2), Ok(()));
    assert_eq!(s.selected_image, 0);
}

#[test]
fn close_file_selected_first_stays_at_zero() {
    let mut s = store_with(vec![gray(1, 1, &[1], "a"), gray(1, 1, &[2], "b")], 0);
    assert_eq!(s.close_file(0), Ok(()));
    assert_eq!(s.selected_image, 0);
    assert_eq!(labels(&s), vec!["b"]);
}

#[test]
fn close_last_image_clears_selection() {
    let mut s = store_with(vec![gray(1, 1, &[1], "a")], 0);
    assert_eq!(s.close_file(0), Ok(()));
    assert!(s.loaded_images.is_empty());
    assert_eq!(s.selected_image, -1);
}

#[test]
fn close_file_rejects_bad_index() {
    let mut s = store_with(vec![gray(1, 1, &[1], "a")], 0);
    assert_eq!(s.close_file(1), Err(ActionError::InvalidCloseIndex));
    assert_eq!(labels(&s), vec!["a"]);
    assert_eq!(s.selected_image, 0);
    let mut m = store_with(vec![gray(1, 1, &[1], "a")], i32::MIN);
    assert_eq!(m.close_file(0x8000_0000), Err(ActionError::InvalidCloseIndex));
    assert_eq!(m.selected_image, i32::MIN);
}

#[test]
fn histogram_of_selected_gray_image() {
    let mut s = store_with(vec![gray(2, 2, &[0, 9, 9, 9], "a")], 0);
    assert_eq!(calculate_gray_histogram(&mut s), Ok(()));
    let h = s.histogram.as_ref().unwrap();
    assert_eq!(h.counts[0], 1);
    assert_eq!(h.counts[9], 3);
    assert_eq!(h.max_count, 3);
    assert_eq!(h.total, 4);
    let mut c = store_with(vec![color(1, 1, &[1], &[2], &[3], "c")], 0);
    assert_eq!(calculate_gray_histogram(&mut c), Err(ActionError::HistogramNeedsGray));
    assert!(c.histogram.is_none());
}

#[test]
fn segment_thresholds_gray_image() {
    let mut s = store_with(vec![gray(3, 1, &[10, 128, 200], "a")], 0);
    assert_eq!(segment(&mut s, 128), Ok(()));
    assert_eq!(pixels(&s.loaded_images[0]), vec![0, 0, 0, 0, 0, 0, 255, 255, 255]);
    assert!(!s.loaded_images[0].color);
    assert_eq!(s.loaded_images[0].label, "a");
    let h = s.histogram.as_ref().unwrap();
    assert_eq!(h.counts[0], 2);
    assert_eq!(h.counts[255], 1);
    let mut c = store_with(vec![color(1, 1, &[1], &[2], &[3], "c")], 0);
    assert_eq!(segment(&mut c, 1), Err(ActionError::ThresholdNeedsGray));
    let mut e = ImageStore::new();
    assert_eq!(segment(&mut e, 1), Err(ActionError::NoImageAt(-1)));
}

#[test]
fn convert_color_both_ways() {
    let mut s = store_with(vec![color(1, 1, &[255], &[0], &[0], "c")], 0);
    assert_eq!(convert_color(&mut s), Ok(()));
    assert!(!s.loaded_images[0].color);
    assert_eq!(pixels(&s.loaded_images[0]), vec![76, 76, 76]);
    assert_eq!(convert_color(&mut s), Ok(()));
    assert!(s.loaded_images[0].color);
    assert_eq!(pixels(&s.loaded_images[0]), vec![76, 76, 76]);
}

#[test]
fn equalization_uses_red_channel_counts() {
    let mut s = store_with(vec![gray(4, 1, &[50, 50, 100, 200], "a")], 0);
    let input = equalization_input(&s).unwrap();
    assert_eq!(input.first_nonzero, 2);
    assert_eq!(input.total, 4);
    assert_eq!(input.cdf[100], 3);
    let mut lut = [0u8; 256];
    lut[50] = 0;
    lut[100] = 128;
    lut[200] = 255;
    assert_eq!(equalize_histogram(&mut s, &lut), Ok(()));
    assert_eq!(pixels(&s.loaded_images[0]), vec![0, 0, 0, 0, 0, 0, 128, 128, 128, 255, 255, 255]);
    assert_eq!(s.histogram.as_ref().unwrap().counts[128], 1);
    let mut c = store_with(vec![color(1, 1, &[1], &[2], &[3], "c")], 0);
    assert_eq!(equalization_input(&c).err(), Some(ActionError::EqualizeNeedsGray));
    assert_eq!(equalize_histogram(&mut c, &lut), Err(ActionError::EqualizeNeedsGray));
}

#[test]
fn selective_stretch_checks_ranges() {
    let mut lut = [0u8; 256];
    for i in 0..256 {
        lut[i] = 255 - i as u8;
    }
    let mut s = store_with(vec![gray(4, 1, &[0, 2, 5, 200], "a")], 0);
    assert_eq!(selective_stretch(&mut s, 10, 10, 0, 255, &lut), Err(ActionError::StretchEmptyRange));
    assert_eq!(selective_stretch(&mut s, 0, 10, 9, 9, &lut), Err(ActionError::StretchEmptyRange));
    assert_eq!(s.loaded_images[0].img.red().data(), &vec![0, 2, 5, 200]);
    // at or below p1 = 2: q3 = 7; at or above p2 = 10: q4 = 100; between: the table
    assert_eq!(selective_stretch(&mut s, 2, 10, 7, 100, &lut), Ok(()));
    assert_eq!(s.loaded_images[0].img.red().data(), &vec![7, 7, 250, 100]);
    assert_eq!(s.loaded_images[0].img.blue().data(), &vec![7, 7, 250, 100]);
    let mut c = store_with(vec![color(1, 1, &[1], &[2], &[3], "c")], 0);
    assert_eq!(selective_stretch(&mut c, 0, 10, 0, 255, &lut), Err(ActionError::StretchNeedsGray));
}

#[test]
fn negate_any_image() {
    let mut s = store_with(vec![color(1, 1, &[0], &[100], &[255], "c")], 0);
    assert_eq!(negate(&mut s), Ok(()));
    assert_eq!(pixels(&s.loaded_images[0]), vec![255, 155, 0]);
    assert!(s.histogram.is_none());
    let mut g = store_with(vec![gray(1, 1, &[30], "g")], 0);
    assert_eq!(negate(&mut g), Ok(()));
    assert_eq!(g.histogram.as_ref().unwrap().counts[225], 1);
}

#[test]
fn posterize_needs_two_levels() {
    let lut = [7u8; 256];
    let mut s = store_with(vec![color(1, 1, &[0], &[100], &[255], "c")], 0);
    assert_eq!(posterize(&mut s, 1, &lut), Err(ActionError::TooFewLevels));
    assert_eq!(posterize(&mut s, 2, &lut), Ok(()));
    assert_eq!(pixels(&s.loaded_images[0]), vec![7, 7, 7]);
}

#[test]
fn split_rgb_adds_three_gray_images() {
    let mut s = store_with(vec![color(1, 1, &[1], &[2], &[3], "pic")], 0);
    assert_eq!(split_rgb(&mut s), Ok(()));
    assert_eq!(labels(&s), vec!["pic", "pic_R", "pic_G", "pic_B"]);
    assert_eq!(pixels(&s.loaded_images[1]), vec![1, 1, 1]);
    assert_eq!(pixels(&s.loaded_images[2]), vec![2, 2, 2]);
    assert_eq!(pixels(&s.loaded_images[3]), vec![3, 3, 3]);
    assert!(!s.loaded_images[3].color);
    assert_eq!(s.selected_image, 3);
    assert_eq!(split_rgb(&mut s), Err(ActionError::SplitNeedsColor));
}

#[test]
fn hsv_and_lab_channels_are_labelled() {
    let mut s = store_with(vec![color(1, 1, &[1], &[2], &[3], "pic")], 0);
    let chans = || (plane(1, 1, &[10]), plane(1, 1, &[20]), plane(1, 1, &[30]));
    assert_eq!(convert_to_hsv(&mut s, chans()), Ok(()));
    assert_eq!(labels(&s), vec!["pic", "pic_H", "pic_S", "pic_V"]);
    assert_eq!(s.selected_image, 3);
    assert_eq!(convert_to_hsv(&mut s, chans()), Err(ActionError::HsvNeedsColor));
    assert_eq!(convert_to_lab(&mut s, chans()), Err(ActionError::LabNeedsColor));
    s.selected_image = 0;
    assert_eq!(convert_to_lab(&mut s, chans()), Ok(()));
    assert_eq!(labels(&s)[4..].to_vec(), vec!["pic_L", "pic_a", "pic_b"]);
    assert_eq!(pixels(&s.loaded_images[6]), vec![30, 30, 30]);
}

#[test]
fn median_filter_kernel_sizes() {
    let mut s = store_with(vec![gray(3, 3, &[10, 10, 10, 10, 250, 10, 10, 10, 10], "g")], 0);
    assert_eq!(median_filter(&mut s, 2), Err(ActionError::MedianKernelSize));
    assert_eq!(median_filter(&mut s, -1), Err(ActionError::MedianKernelSize));
    assert_eq!(median_filter(&mut s, 0), Err(ActionError::MedianKernelSize));
    assert_eq!(median_filter(&mut s, 1), Ok(()));
    assert_eq!(s.loaded_images[0].img.red().data()[4], 250);
    assert_eq!(median_filter(&mut s, 3), Ok(()));
    assert_eq!(s.loaded_images[0].img.red().data(), &vec![10; 9]);
    assert_eq!(s.histogram.as_ref().unwrap().counts[10], 9);
}

#[test]
fn median_filter_color_per_channel() {
    let mut s = store_with(vec![color(3, 1, &[1, 9, 1], &[5, 5, 0], &[0, 0, 0], "c")], 0);
    assert_eq!(median_filter(&mut s, 3), Ok(()));
    assert_eq!(s.loaded_images[0].img.red().data(), &vec![1, 1, 1]);
    assert_eq!(s.loaded_images[0].img.green().data(), &vec![5, 5, 0]);
    assert!(s.histogram.is_none());
}

#[test]
fn dilate_gray_and_color() {
    let mut s = store_with(vec![gray(3, 1, &[0, 7, 0], "g")], 0);
    assert_eq!(dilate(&mut s, 1), Ok(()));
    assert_eq!(s.loaded_images[0].img.red().data(), &vec![7, 7, 7]);
    let mut c = store_with(vec![color(3, 1, &[9, 0, 0], &[0, 0, 0], &[0, 0, 5], "c")], 0);
    assert_eq!(dilate(&mut c, 0), Ok(()));
    assert_eq!(c.loaded_images[0].img.red().data(), &vec![9, 0, 0]);
    assert_eq!(dilate(&mut c, 1), Ok(()));
    assert_eq!(c.loaded_images[0].img.red().data(), &vec![9, 9, 0]);
    assert_eq!(c.loaded_images[0].img.blue().data(), &vec![0, 5, 5]);
}

#[test]
fn skeletonize_gray_image() {
    let mut s = store_with(vec![gray(5, 3, &[0, 0, 0, 0, 0, 0, 200, 200, 200, 0, 0, 0, 0, 0, 0], "g")], 0);
    assert_eq!(skeletonize(&mut s, 100), Ok(()));
    assert_eq!(s.loaded_images[0].img.red().data(), &vec![0, 0, 0, 0, 0, 0, 255, 255, 255, 0, 0, 0, 0, 0, 0]);
    let mut c = store_with(vec![color(1, 1, &[1], &[2], &[3], "c")], 0);
    assert_eq!(skeletonize(&mut c, 0), Err(ActionError::SkeletonNeedsGray));
}

#[test]
fn canny_and_custom_filter_results() {
    let mut s = store_with(vec![color(2, 1, &[1, 2], &[3, 4], &[5, 6], "c")], 0);
    assert_eq!(canny_edge(&mut s, plane(2, 1, &[0, 255])), Ok(()));
    assert!(!s.loaded_images[0].color);
    assert_eq!(pixels(&s.loaded_images[0]), vec![0, 0, 0, 255, 255, 255]);
    assert!(s.histogram.is_none());
    let filtered = RgbImage::from_gray(plane(2, 1, &[4, 4]));
    assert_eq!(custom_filter(&mut s, filtered), Ok(()));
    assert_eq!(s.histogram.as_ref().unwrap().counts[4], 2);
    let mut e = ImageStore::new();
    assert_eq!(custom_filter(&mut e, RgbImage::from_gray(plane(0, 0, &[]))), Err(ActionError::NoImageAt(-1)));
}

#[test]
fn linear_filter_masks() {
    let k = linear_filter_kernel(0).ok().unwrap();
    assert_eq!(k.weights, [1; 9]);
    assert_eq!(k.divisor, 9);
    assert_eq!(linear_filter_kernel(1).ok().unwrap().weights, [0, -1, 0, -1, 5, -1, 0, -1, 0]);
    assert_eq!(linear_filter_kernel(2).ok().unwrap().weights, [0, 1, 0, 1, -4, 1, 0, 1, 0]);
    assert_eq!(linear_filter_kernel(3).ok().unwrap().weights, [-1, 0, 1, -2, 0, 2, -1, 0, 1]);
    assert_eq!(linear_filter_kernel(4).ok().unwrap().weights, [-1, -2, -1, 0, 0, 0, 1, 2, 1]);
    assert_eq!(linear_filter_kernel(5).ok().unwrap().weights, [-1, 0, 1, -1, 0, 1, -1, 0, 1]);
    assert_eq!(linear_filter_kernel(6).ok().unwrap().weights, [-1, -1, -1, 0, 0, 0, 1, 1, 1]);
    assert_eq!(linear_filter_kernel(6).ok().unwrap().divisor, 1);
    assert_eq!(linear_filter_kernel(7).err(), Some(ActionError::UnknownFilterType));
    assert_eq!(linear_filter_kernel(-1).err(), Some(ActionError::UnknownFilterType));
}

#[test]
fn two_argument_operations() {
    let mut s = store_with(
        vec![color(1, 1, &[200], &[10], &[3], "a"), color(1, 1, &[100], &[20], &[4], "b"), gray(2, 1, &[1, 2], "c")],
        0,
    );
    assert_eq!(two_argument_op(&mut s, 0, 5, None), Err(ActionError::InvalidSecondIndex));
    assert_eq!(two_argument_op(&mut s, 0, -1, None), Err(ActionError::InvalidSecondIndex));
    assert_eq!(two_argument_op(&mut s, 9, 1, None), Err(ActionError::UnknownOperation));
    assert_eq!(two_argument_op(&mut s, 0, 2, None), Err(ActionError::SizeMismatch));
    assert_eq!(two_argument_op(&mut s, 0, 1, None), Ok(()));
    assert_eq!(pixels(&s.loaded_images[0]), vec![255, 30, 7]);
    assert_eq!(s.loaded_images[0].label, "a");
    assert!(s.loaded_images[0].color);
    let resized = RgbImage::from_gray(plane(1, 1, &[5]));
    assert_eq!(two_argument_op(&mut s, 1, 2, Some(resized)), Ok(()));
    assert_eq!(pixels(&s.loaded_images[0]), vec![250, 25, 2]);
    assert_eq!(two_argument_op(&mut s, 5, 0, None), Ok(()));
    assert_eq!(pixels(&s.loaded_images[0]), vec![0, 0, 0]);
}

#[test]
fn not_operation_negates_the_selected_image() {
    let mut s = store_with(vec![color(1, 1, &[0], &[0], &[0], "a"), color(1, 1, &[0], &[0], &[0], "b")], 0);
    assert_eq!(two_argument_op(&mut s, 6, 1, None), Ok(()));
    assert_eq!(pixels(&s.loaded_images[0]), vec![255, 255, 255]);
    assert_eq!(pixels(&s.loaded_images[1]), vec![0, 0, 0]);
    assert_eq!(two_argument_op(&mut s, 7, 1, None), Err(ActionError::UnknownOperation));
}

#[test]
fn negate_mirrors_gray_histogram() {
    let mut s = store_with(vec![gray(4, 1, &[0, 10, 10, 200], "g")], 0);
    assert_eq!(calculate_gray_histogram(&mut s), Ok(()));
    let before = s.histogram.as_ref().unwrap().counts.clone();
    let before_max = s.histogram.as_ref().unwrap().max_count;
    assert_eq!(negate(&mut s), Ok(()));
    let after = s.histogram.as_ref().unwrap();
    for v in 0..256 {
        assert_eq!(after.counts[v], before[255 - v]);
    }
    assert_eq!(after.counts[245], 2);
    assert_eq!(after.total, 4);
    assert_eq!(after.max_count, before_max);
}

use heat_abnormal::histogram::{cumulative_histogram, gray_histogram, value_counts};
use heat_abnormal::median::median_filter_plane;
use heat_abnormal::morphology::{background_present, cross_filter, dilate_square_times, skeleton, square_dilate};
use heat_abnormal::plane::Plane;

fn plane(w: usize, h: usize, data: &[u8]) -> Plane {
    Plane::new(w, h, data.to_vec()).unwrap()
}

#[test]
fn histogram_counts_and_totals() {
    let p = plane(3, 2, &[0, 5, 5, 255, 5, 0]);
    let h = gray_histogram(&p);
    assert_eq!(h.counts.len(), 256);
    assert_eq!(h.counts[0], 2);
    assert_eq!(h.counts[5], 3);
    assert_eq!(h.counts[255], 1);
    assert_eq!(h.max_count, 3);
    assert_eq!(h.total, 6);
    assert_eq!(h.counts.iter().sum::<usize>(), h.total);
}

#[test]
fn histogram_of_empty_plane() {
    let h = gray_histogram(&plane(0, 0, &[]));
    assert_eq!(h.total, 0);
    assert_eq!(h.max_count, 0);
    assert!(h.counts.iter().all(|&c| c == 0));
    assert_eq!(value_counts(&plane(0, 3, &[])).len(), 256);
}

#[test]
fn cumulative_histogram_and_first_nonzero() {
    let p = plane(4, 1, &[3, 3, 7, 200]);
    let c = cumulative_histogram(&p);
    assert_eq!(c.cdf[0], 0);
    assert_eq!(c.cdf[2], 0);
    assert_eq!(c.cdf[3], 2);
    assert_eq!(c.cdf[6], 2);
    assert_eq!(c.cdf[7], 3);
    assert_eq!(c.cdf[199], 3);
    assert_eq!(c.cdf[200], 4);
    assert_eq!(c.cdf[255], 4);
    assert_eq!(c.first_nonzero, 2);
    assert_eq!(c.total, 4);
    for v in 1..256 {
        assert!(c.cdf[v - 1] <= c.cdf[v]);
    }
    let e = cumulative_histogram(&plane(0, 0, &[]));
    assert_eq!(e.first_nonzero, 0);
    assert_eq!(e.cdf[255], 0);
}

#[test]
fn erosion_and_dilation_by_the_cross() {
    // 3x3 with a single bright pixel in the middle
    let p = plane(3, 3, &[0, 0, 0, 0, 9, 0, 0, 0, 0]);
    assert_eq!(cross_filter(&p, true).data(), &vec![0; 9]);
    assert_eq!(cross_filter(&p, false).data(), &vec![0, 9, 0, 9, 9, 9, 0, 9, 0]);
    // pixels outside the plane are left out: an all-bright plane stays bright
    let full = plane(2, 2, &[5, 5, 5, 5]);
    assert_eq!(cross_filter(&full, true).data(), &vec![5, 5, 5, 5]);
    let q = plane(3, 1, &[1, 2, 3]);
    assert_eq!(cross_filter(&q, true).data(), &vec![1, 1, 2]);
    assert_eq!(cross_filter(&q, false).data(), &vec![2, 3, 3]);
}

#[test]
fn erosion_below_dilation_above() {
    let p = plane(4, 3, &[3, 9, 1, 0, 7, 7, 2, 8, 0, 5, 6, 4]);
    let e = cross_filter(&p, true);
    let d = cross_filter(&p, false);
    let s = square_dilate(&p);
    for i in 0..12 {
        assert!(e.data()[i] <= p.data()[i]);
        assert!(d.data()[i] >= p.data()[i]);
        assert!(s.data()[i] >= p.data()[i]);
    }
}

#[test]
fn square_dilation_and_iterations() {
    let p = plane(5, 1, &[0, 0, 9, 0, 0]);
    assert_eq!(square_dilate(&p).data(), &vec![0, 9, 9, 9, 0]);
    assert_eq!(dilate_square_times(&p, 0).data(), p.data());
    assert_eq!(dilate_square_times(&p, -3).data(), &vec![0, 9, 9, 9, 0]);
    assert_eq!(dilate_square_times(&p, 2).data(), &vec![9, 9, 9, 9, 9]);
    let q = plane(3, 3, &[0, 0, 0, 0, 0, 0, 0, 0, 4]);
    assert_eq!(square_dilate(&q).data(), &vec![0, 0, 0, 0, 4, 4, 0, 4, 4]);
}

#[test]
fn skeleton_of_a_bar() {
    // a 5x3 plane with a 3x1 bright bar in the middle row: the bar is its own skeleton
    let p = plane(5, 3, &[0, 0, 0, 0, 0, 0, 255, 255, 255, 0, 0, 0, 0, 0, 0]);
    let s = skeleton(&p);
    assert_eq!(s.data(), p.data());
}

#[test]
fn skeleton_within_input() {
    let p = plane(
        5,
        5,
        &[0, 0, 0, 0, 0, 0, 255, 255, 255, 0, 0, 255, 255, 255, 0, 0, 255, 255, 255, 0, 0, 0, 0, 0, 0],
    );
    let s = skeleton(&p);
    // the 3x3 square reduces to its centre and its four corners
    let mut expected = vec![0u8; 25];
    for i in [6, 8, 12, 16, 18] {
        expected[i] = 255;
    }
    assert_eq!(s.data(), &expected);
    for i in 0..25 {
        if s.data()[i] != 0 {
            assert!(p.data()[i] != 0);
        }
    }
    assert_eq!(skeleton(&plane(2, 2, &[0, 0, 0, 0])).data(), &vec![0, 0, 0, 0]);
    assert_eq!(skeleton(&plane(0, 0, &[])).len(), 0);
}

#[test]
fn median_filter_removes_an_outlier() {
    let p = plane(3, 3, &[10, 10, 10, 10, 250, 10, 10, 10, 10]);
    let m = median_filter_plane(&p, 1);
    assert_eq!(m.data(), &vec![10; 9]);
}

#[test]
fn median_filter_replicates_the_border() {
    // corner window of [1, 2 / 3, 4] with replicated border is 1,1,2,1,1,2,3,3,4 -> median 2
    let p = plane(2, 2, &[1, 2, 3, 4]);
    let m = median_filter_plane(&p, 1);
    assert_eq!(m.data()[0], 2);
    assert_eq!(m.data(), &vec![2, 2, 3, 3]);
}

#[test]
fn median_side_one_is_identity() {
    let p = plane(3, 2, &[9, 1, 8, 2, 7, 3]);
    assert_eq!(median_filter_plane(&p, 0).data(), p.data());
}

#[test]
fn median_value_occurs_in_window() {
    let p = plane(5, 1, &[1, 100, 3, 200, 5]);
    let m = median_filter_plane(&p, 1);
    // windows (rows replicated): [1,1,100]x3, [1,100,3]x3, [100,3,200]x3, [3,200,5]x3, [200,5,5]x3
    assert_eq!(m.data(), &vec![1, 3, 100, 5, 5]);
}

#[test]
fn background_needed_for_a_skeleton() {
    assert!(background_present(&plane(0, 0, &[])));
    assert!(background_present(&plane(3, 1, &[255, 0, 255])));
    assert!(!background_present(&plane(2, 1, &[9, 9])));
}

#[test]
fn cross_and_square_take_neighbourhood_extremes() {
    // 3x3 plane, centre 5: cross neighbours 2, 4, 6, 8; corners 1, 3, 7, 9
    let p = plane(3, 3, &[1, 2, 3, 4, 5, 6, 7, 8, 9]);
    let eroded = cross_filter(&p, true);
    let dilated = cross_filter(&p, false);
    let square = square_dilate(&p);
    assert_eq!(eroded.data()[4], 2);
    assert_eq!(dilated.data()[4], 8);
    assert_eq!(square.data()[4], 9);
    // the corner pixel 0 sees only 1, 2 and 4 through the cross, and 5 through the square
    assert_eq!(eroded.data()[0], 1);
    assert_eq!(dilated.data()[0], 4);
    assert_eq!(square.data()[0], 5);
}

#[test]
fn iterated_dilation_reaches_n_pixels() {
    let p = plane(7, 1, &[9, 0, 0, 0, 0, 0, 3]);
    assert_eq!(dilate_square_times(&p, 2).data(), &vec![9, 9, 9, 0, 3, 3, 3]);
    let q = plane(5, 5, &[0, 0, 0, 0, 0, 0, 0, 0, 0, 0, 0, 0, 8, 0, 0, 0, 0, 0, 0, 0, 0, 0, 0, 0, 0]);
    assert!(dilate_square_times(&q, 2).data().iter().all(|&v| v == 8));
    let once = dilate_square_times(&q, 1);
    assert_eq!(once.data()[0], 0);
    assert_eq!(once.data()[6], 8);
}

#[test]
fn skeleton_of_thresholded_plane_is_binary() {
    let p = plane(4, 3, &[0, 0, 0, 0, 0, 255, 255, 0, 0, 255, 255, 0]);
    let s = skeleton(&p);
    assert!(s.data().iter().all(|&v| v == 0 || v == 255));
}

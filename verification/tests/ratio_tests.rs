use vados::ratio::ImageRatio;

#[test]
fn classifies_standard_shapes() {
    assert_eq!(ImageRatio::best_fitting(100, 100), ImageRatio::Is1By1);
    assert_eq!(ImageRatio::best_fitting(1920, 1080), ImageRatio::Is16By9);
    assert_eq!(ImageRatio::best_fitting(300, 100), ImageRatio::Is3By1);
    assert_eq!(ImageRatio::best_fitting(100, 300), ImageRatio::Is1By3);
    assert_eq!(ImageRatio::best_fitting(400, 300), ImageRatio::Is4By3);
}

#[test]
fn boundary_values_select_the_narrower_bucket() {
    // exactly 2.50: the test is strict, so the 2:1 bucket wins over 3:1
    assert_eq!(ImageRatio::best_fitting(500, 200), ImageRatio::Is2By1);
    // just above 2.50
    assert_eq!(ImageRatio::best_fitting(501, 200), ImageRatio::Is3By1);
    // exactly 0.42 falls through to the narrowest bucket
    assert_eq!(ImageRatio::best_fitting(42, 100), ImageRatio::Is1By3);
    assert_eq!(ImageRatio::best_fitting(43, 100), ImageRatio::Is1By2);
    // exactly 0.90 selects the 4:5 bucket, not 1:1
    assert_eq!(ImageRatio::best_fitting(90, 100), ImageRatio::Is4by5);
    assert_eq!(ImageRatio::best_fitting(91, 100), ImageRatio::Is1By1);
}

#[test]
fn converts_between_axes_with_truncation() {
    assert_eq!(ImageRatio::Is16By9.get_height(1920), 1080);
    assert_eq!(ImageRatio::Is16By9.get_width(1080), 1920);
    assert_eq!(ImageRatio::Is2By1.get_height(101), 50);
    assert_eq!(ImageRatio::Is1By2.get_height(7), 14);
    assert_eq!(ImageRatio::Is3By1.get_width(5), 15);
}

#[test]
fn round_trip_recovers_width_up_to_truncation() {
    // 16:9 loses at most 2 units: 7 -> 3 -> 5
    assert_eq!(ImageRatio::Is16By9.get_height(7), 3);
    assert_eq!(ImageRatio::Is16By9.get_width(3), 5);
    // 2:1 loses at most 1 unit
    assert_eq!(ImageRatio::Is2By1.get_width(ImageRatio::Is2By1.get_height(7)), 6);
    // 1:1 is lossless
    assert_eq!(ImageRatio::Is1By1.get_width(ImageRatio::Is1By1.get_height(123)), 123);
}

#[test]
fn css_classes_name_the_buckets() {
    assert_eq!(ImageRatio::Is1By1.to_css_class(), "is-1by1");
    assert_eq!(ImageRatio::Is16By9.to_css_class(), "is-16by9");
    assert_eq!(ImageRatio::Is4by5.to_css_class(), "is-4by5");
}

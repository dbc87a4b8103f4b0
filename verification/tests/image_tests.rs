use vados::config_files::ImageReference;
use vados::image::{all_widths, crop_box, crop_rgba, path_start_of, plan_reference,
    variants_to_encode, ImageCatalog, ProcessedImage};
use vados::errors::ImageError;
use vados::ratio::ImageRatio;

#[test]
fn all_widths_takes_the_fitting_suffix() {
    assert_eq!(
        all_widths(2000),
        vec![(1972, 75), (1479, 75), (986, 75), (632, 75), (425, 75), (318, 75), (159, 40)]
    );
    assert_eq!(all_widths(700), vec![(632, 75), (425, 75), (318, 75), (159, 40)]);
    assert_eq!(all_widths(159), vec![(159, 40)]);
}

#[test]
fn all_widths_below_the_table_is_synthetic() {
    assert_eq!(all_widths(100), vec![(100, 90)]);
    assert_eq!(all_widths(158), vec![(158, 90)]);
}

#[test]
fn crop_box_clamps_and_centers() {
    // 250x100 is classified 2:1; the 2:1 width of height 100 is 200,
    // so the crop is 200x100 centered horizontally
    let b = crop_box(ImageRatio::Is2By1, 250, 100);
    assert_eq!((b.x, b.y, b.width, b.height), (25, 0, 200, 100));
    // an exact 2:1 source is cropped to itself
    let b = crop_box(ImageRatio::Is2By1, 1000, 500);
    assert_eq!((b.x, b.y, b.width, b.height), (0, 0, 1000, 500));
    // a 100x205 source classified 1:2: the 1:2 width of height 205 is 102,
    // above the source width, so width clamps and the crop centers vertically
    let b = crop_box(ImageRatio::Is1By2, 100, 205);
    assert_eq!((b.x, b.y, b.width, b.height), (0, 2, 100, 200));
}

#[test]
fn crop_rgba_extracts_the_window() {
    // a 2x2 image, pixels numbered 0..4, each channel marked
    let pixels: Vec<u8> = vec![
        0, 1, 2, 3, 10, 11, 12, 13, // row 0
        20, 21, 22, 23, 30, 31, 32, 33, // row 1
    ];
    let b = vados::image::CropBox { x: 1, y: 1, width: 1, height: 1 };
    let out = crop_rgba(&pixels, 2, 2, &b);
    assert_eq!(out, vec![30, 31, 32, 33]);
    let b = vados::image::CropBox { x: 0, y: 1, width: 2, height: 1 };
    let out = crop_rgba(&pixels, 2, 2, &b);
    assert_eq!(out, vec![20, 21, 22, 23, 30, 31, 32, 33]);
}

#[test]
fn plan_derives_paths_srcset_and_src() {
    let reference = ImageReference {
        file_name: String::from("photo.png"),
        title: None,
        alt_text: String::from("a photo"),
    };
    let plan = plan_reference("", &reference, 1000, 500).unwrap();
    assert_eq!(plan.ratio, ImageRatio::Is2By1);
    assert_eq!((plan.crop.x, plan.crop.y, plan.crop.width, plan.crop.height), (0, 0, 1000, 500));
    assert_eq!(plan.base_path, "/photo");
    let widths: Vec<u32> = plan.variants.iter().map(|v| v.width).collect();
    assert_eq!(widths, vec![159, 318, 425, 632, 986]);
    let heights: Vec<u32> = plan.variants.iter().map(|v| v.height).collect();
    assert_eq!(heights, vec![79, 159, 212, 316, 493]);
    assert_eq!(plan.variants[0].path, "/img/photo-w159.webp");
    assert_eq!(plan.variants[0].quality, 40);
    assert_eq!(plan.variants[4].quality, 75);
    assert_eq!(plan.image.title, "photo");
    assert_eq!(plan.image.alt, "a photo");
    assert_eq!(plan.image.src, "/img/photo-w986.webp");
    assert_eq!(
        plan.image.srcset,
        "/img/photo-w159.webp 159w, /img/photo-w318.webp 318w, /img/photo-w425.webp 425w, \
         /img/photo-w632.webp 632w, /img/photo-w986.webp 986w"
    );
}

#[test]
fn plan_uses_the_directory_fragment() {
    let reference = ImageReference {
        file_name: String::from("cat.jpeg"),
        title: Some(String::from("Cat")),
        alt_text: String::from("a cat"),
    };
    let plan = plan_reference("/pets", &reference, 200, 200).unwrap();
    assert_eq!(plan.base_path, "/pets/cat");
    assert_eq!(plan.image.title, "Cat");
    assert_eq!(plan.variants.len(), 1);
    assert_eq!(plan.variants[0].path, "/img/pets/cat-w159.webp");
    assert_eq!(plan.variants[0].quality, 40);
    assert_eq!(plan.image.src, "/img/pets/cat-w159.webp");
}

#[test]
fn tiny_sources_get_one_synthetic_variant() {
    let reference = ImageReference {
        file_name: String::from("dot.png"),
        title: None,
        alt_text: String::from("a dot"),
    };
    let plan = plan_reference("", &reference, 100, 100).unwrap();
    assert_eq!(plan.variants.len(), 1);
    assert_eq!(plan.variants[0].width, 100);
    assert_eq!(plan.variants[0].quality, 90);
    assert_eq!(plan.image.srcset, "/img/dot-w100.webp 100w");
}

#[test]
fn file_name_without_period_is_skipped() {
    let reference = ImageReference {
        file_name: String::from("noext"),
        title: None,
        alt_text: String::from("x"),
    };
    match plan_reference("", &reference, 100, 100) {
        Err(ImageError::NoFileExtension(name)) => assert_eq!(name, "noext"),
        other => panic!("expected a missing-extension error, got {:?}", other.is_ok()),
    }
}

#[test]
fn only_missing_outputs_are_encoded() {
    let reference = ImageReference {
        file_name: String::from("photo.png"),
        title: None,
        alt_text: String::from("a photo"),
    };
    let plan = plan_reference("", &reference, 1000, 500).unwrap();
    let existing = vec![true, false, true, false, true];
    assert_eq!(variants_to_encode(&plan, &existing), vec![1, 3]);
}

#[test]
fn second_run_encodes_nothing() {
    let reference = ImageReference {
        file_name: String::from("photo.png"),
        title: None,
        alt_text: String::from("a photo"),
    };
    let plan = plan_reference("", &reference, 1000, 500).unwrap();
    // first run: nothing exists, every variant is encoded
    let first = variants_to_encode(&plan, &vec![false; 5]);
    assert_eq!(first, vec![0, 1, 2, 3, 4]);
    // second run over an unchanged tree: every output exists, zero writes
    let second = variants_to_encode(&plan, &vec![true; 5]);
    assert_eq!(second, Vec::<usize>::new());
}

#[test]
fn catalog_keeps_processed_metadata() {
    let mut catalog = ImageCatalog::new();
    assert!(catalog.get("/photo").is_none());
    catalog.insert(
        String::from("/photo"),
        ProcessedImage {
            title: String::from("photo"),
            alt: String::from("a photo"),
            ratio: ImageRatio::Is2By1,
            srcset: String::from("/img/photo-w159.webp 159w"),
            src: String::from("/img/photo-w159.webp"),
        },
    );
    let img = catalog.get("/photo").unwrap();
    assert_eq!(img.title, "photo");
    assert_eq!(img.ratio, ImageRatio::Is2By1);
    assert!(catalog.get("/other").is_none());
}

#[test]
fn path_start_strips_the_image_root() {
    assert_eq!(path_start_of("/srv/img", "/srv/img"), "");
    assert_eq!(path_start_of("/srv/img", "/srv/img/pets"), "/pets");
}

//! The transform pipeline: per-picture isolation, untouched unselected
//! pictures, rotation composition and the end-to-end batch run.

use picturust::application::{Application, DecodeOutcome, ScanEntry};
use picturust::error::TransformationError;
use picturust::format::{Format, Quality};
use picturust::picture::{Metadata, Picture};
use picturust::raster::Raster;
use picturust::resize::{Resize, ResizeType};
use picturust::rotate::{set_initial_rotation, Angle, Rotate};

fn entry(path: &str) -> ScanEntry {
    ScanEntry { path: path.to_string(), metadata: None }
}

fn tiny_image() -> image::DynamicImage {
    let mut buf = image::RgbaImage::new(2, 3);
    let mut v: u8 = 10;
    for y in 0..3 {
        for x in 0..2 {
            buf.put_pixel(x, y, image::Rgba([v, v.wrapping_add(40), v.wrapping_add(80), 255]));
            v = v.wrapping_add(17);
        }
    }
    image::DynamicImage::ImageRgba8(buf)
}

fn app_with(entries: Vec<ScanEntry>) -> Application {
    let mut app = Application::default();
    app.set_source_path(Some("src_dir".to_string()), true, entries);
    app.set_destination_path(Some("out".to_string()), true);
    app
}

#[test]
fn end_to_end_three_jpegs_to_webp() {
    let mut app = app_with(vec![
        entry("src_dir/a.jpg"),
        entry("src_dir/b.jpg"),
        entry("src_dir/c.jpg"),
        entry("src_dir/notes.txt"),
    ]);
    assert_eq!(app.pictures.len(), 3);
    app.format.set_format("webp".to_string());
    app.format.quality = Quality::from("80".to_string());
    let decoded = vec![
        DecodeOutcome::Loaded(Raster::from_image(tiny_image())),
        DecodeOutcome::Loaded(Raster::from_image(tiny_image())),
        DecodeOutcome::Loaded(Raster::from_image(tiny_image())),
    ];
    let jobs = app.transform(decoded);
    assert_eq!(jobs.len(), 3);
    let paths: Vec<&str> = jobs.iter().map(|j| j.0.as_str()).collect();
    assert_eq!(paths, vec!["out/a.webp", "out/b.webp", "out/c.webp"]);
    for (_, bytes) in &jobs {
        assert!(bytes.len() > 12);
        assert_eq!(&bytes[0..4], b"RIFF");
        assert_eq!(&bytes[8..12], b"WEBP");
    }
    for p in &app.pictures {
        assert!(p.is_processed);
        assert!(!p.is_in_process);
    }
    assert!(app.errors.is_empty());
}

#[test]
fn unselected_pictures_are_untouched() {
    let mut app = app_with(vec![entry("src_dir/a.jpg"), entry("src_dir/b.jpg")]);
    app.format.set_format("png".to_string());
    app.pictures[1].is_selected = false;
    let before = app.pictures[1].clone();
    let decoded = vec![
        DecodeOutcome::Loaded(Raster::from_image(tiny_image())),
        DecodeOutcome::NotLoaded,
    ];
    let jobs = app.transform(decoded);
    assert_eq!(jobs.len(), 1);
    assert_eq!(jobs[0].0, "out/a.png");
    assert_eq!(app.pictures[1], before);
    assert!(!app.pictures[1].is_processed);
    assert!(app.errors.is_empty());
}

#[test]
fn decode_failure_does_not_stop_siblings() {
    let mut app = app_with(vec![
        entry("src_dir/p.jpg"),
        entry("src_dir/q.jpg"),
        entry("src_dir/r.jpg"),
    ]);
    app.format.set_format("png".to_string());
    let decoded = vec![
        DecodeOutcome::Failed("corrupt header".to_string()),
        DecodeOutcome::Loaded(Raster::from_image(tiny_image())),
        DecodeOutcome::Loaded(Raster::from_image(tiny_image())),
    ];
    let jobs = app.transform(decoded);
    assert_eq!(jobs.len(), 2);
    assert_eq!(jobs[0].0, "out/q.png");
    assert_eq!(jobs[1].0, "out/r.png");
    assert_eq!(app.errors.len(), 1);
    assert!(matches!(&app.errors[0], TransformationError::Image(n) if n.as_str() == "p.jpg"));
    for p in &app.pictures {
        assert!(p.is_processed);
        assert!(!p.is_in_process);
    }
}

#[test]
fn unchanged_format_writes_nothing_but_marks_processed() {
    let mut app = app_with(vec![entry("src_dir/a.jpg")]);
    let decoded = vec![DecodeOutcome::Loaded(Raster::from_image(tiny_image()))];
    let jobs = app.transform(decoded);
    assert!(jobs.is_empty());
    assert!(app.errors.is_empty());
    assert!(app.pictures[0].is_processed);
}

#[test]
fn orientation_and_user_rotation_compose_to_identity() {
    // An embedded quarter turn followed by a user three-quarter turn is a
    // full turn: the raster must come out pixel-identical to one that had
    // neither correction nor rotation.
    let format = {
        let mut f = Format::default();
        f.set_format("png".to_string());
        f
    };
    let path = "out/x".to_string();

    let mut turned = Raster::from_image(tiny_image());
    set_initial_rotation(Some(6), &mut turned);
    let rot270 = Rotate { angle: Angle::ThreeQuarters };
    rot270.apply(&mut turned, None);
    assert_eq!((turned.width, turned.height), (2, 3));

    // The same composition handed to the rotation step at once leaves
    // the raster untouched outright.
    let mut composed = Raster::from_image(tiny_image());
    rot270.apply(&mut composed, Some(6));
    assert_eq!((composed.width, composed.height), (2, 3));

    let mut plain = Raster::from_image(tiny_image());
    let rot0 = Rotate { angle: Angle::Zero };
    rot0.apply(&mut plain, None);

    let turned_png = format.apply(&turned, &path).unwrap().unwrap().1;
    let plain_png = format.apply(&plain, &path).unwrap().unwrap().1;
    assert_eq!(turned_png, plain_png);
}

#[test]
fn a_real_rotation_changes_the_raster() {
    let mut r = Raster::from_image(tiny_image());
    let rot90 = Rotate { angle: Angle::Quarter };
    rot90.apply(&mut r, None);
    assert_eq!((r.width, r.height), (3, 2));

    // The embedded code alone rotates too: code 3 is a half turn.
    let mut h = Raster::from_image(tiny_image());
    let rot0 = Rotate { angle: Angle::Zero };
    rot0.apply(&mut h, Some(3));
    assert_eq!((h.width, h.height), (2, 3));
    let format = {
        let mut f = Format::default();
        f.set_format("png".to_string());
        f
    };
    let path = "out/x".to_string();
    let half_png = format.apply(&h, &path).unwrap().unwrap().1;
    let mut plain = Raster::from_image(tiny_image());
    rot0.apply(&mut plain, None);
    let plain_png = format.apply(&plain, &path).unwrap().unwrap().1;
    assert_ne!(half_png, plain_png);
}

#[test]
fn initial_rotation_alone_follows_the_code() {
    let mut r = Raster::from_image(tiny_image());
    set_initial_rotation(Some(6), &mut r);
    assert_eq!((r.width, r.height), (3, 2));
    let mut s = Raster::from_image(tiny_image());
    set_initial_rotation(Some(1), &mut s);
    assert_eq!((s.width, s.height), (2, 3));
    set_initial_rotation(None, &mut s);
    assert_eq!((s.width, s.height), (2, 3));
}

#[test]
fn resize_exact_uses_height_for_both_dimensions() {
    let mut r = Raster::from_image(tiny_image());
    let resize = Resize {
        resize_type: Some(ResizeType::Exact),
        method: picturust::resize::ResizeMethod::Nearest,
        width: 9,
        height: 5,
    };
    resize.apply(&mut r);
    assert_eq!((r.width, r.height), (5, 5));
}

#[test]
fn resize_thumbnail_fits_the_box() {
    let mut r = Raster::from_image(image::DynamicImage::new_rgba8(64, 32));
    let resize = Resize {
        resize_type: Some(ResizeType::Thumbnail),
        method: picturust::resize::ResizeMethod::Nearest,
        width: 16,
        height: 16,
    };
    resize.apply(&mut r);
    assert!(r.width <= 16 && r.height <= 16);
    assert_eq!((r.width, r.height), (16, 8));
}

#[test]
fn resize_thumbnail_never_upscales() {
    let mut r = Raster::from_image(tiny_image());
    let resize = Resize {
        resize_type: Some(ResizeType::Thumbnail),
        method: picturust::resize::ResizeMethod::Nearest,
        width: 10,
        height: 10,
    };
    resize.apply(&mut r);
    assert_eq!((r.width, r.height), (2, 3));
}

#[test]
fn resize_fill_crops_to_the_exact_box() {
    let mut r = Raster::from_image(image::DynamicImage::new_rgba8(64, 32));
    let resize = Resize {
        resize_type: Some(ResizeType::Fill),
        method: picturust::resize::ResizeMethod::Nearest,
        width: 16,
        height: 16,
    };
    resize.apply(&mut r);
    assert_eq!((r.width, r.height), (16, 16));
}

#[test]
fn avif_and_tiff_and_jpeg_encode() {
    let format_of = |name: &str| {
        let mut f = Format::default();
        f.set_format(name.to_string());
        f
    };
    let path = "out/x".to_string();
    let r = Raster::from_image(tiny_image());
    let avif = format_of("avif").apply(&r, &path).unwrap().unwrap();
    assert_eq!(avif.0, "out/x.avif");
    assert!(!avif.1.is_empty());
    let tiff = format_of("tiff").apply(&r, &path).unwrap().unwrap();
    assert_eq!(tiff.0, "out/x.tiff");
    let jpeg = format_of("jpg").apply(&r, &path).unwrap().unwrap();
    assert_eq!(jpeg.0, "out/x.jpg");
}

#[test]
fn output_path_replaces_an_existing_extension() {
    // The built path has no extension, but a stem with a dot in it keeps
    // only the part before the last dot of the final component.
    let format = {
        let mut f = Format::default();
        f.set_format("png".to_string());
        f
    };
    let p = Picture::new("src_dir/photo.v2.jpg".to_string(), Metadata::default());
    let built = p.name.build("out");
    assert_eq!(built, "out/photo.v2");
    let r = Raster::from_image(tiny_image());
    let job = format.apply(&r, &built).unwrap().unwrap();
    assert_eq!(job.0, "out/photo.png");
}

#[test]
fn error_payload_is_readable() {
    let e = TransformationError::Image("a.jpg".to_string());
    assert_eq!(e.payload().as_str(), "a.jpg");
    let f = TransformationError::Format("b.jpg".to_string());
    assert_eq!(f.payload().as_str(), "b.jpg");
}

#[test]
fn error_message_carries_the_variant_label() {
    assert_eq!(TransformationError::IO("x".to_string()).message(), "IO Error: x");
    assert_eq!(TransformationError::Image("x".to_string()).message(), "Image Error: x");
    assert_eq!(TransformationError::Resize("x".to_string()).message(), "Resize Error: x");
    assert_eq!(TransformationError::Rotate("x".to_string()).message(), "Rotate Error: x");
    assert_eq!(TransformationError::Format("x".to_string()).message(), "Format Error: x");
    assert_eq!(TransformationError::Metadata("x".to_string()).message(), "Metadata Error: x");
}

#[test]
fn select_all_and_unselect_all() {
    let mut app = app_with(vec![entry("src_dir/a.jpg"), entry("src_dir/b.jpg")]);
    assert!(app.is_all_selected());
    app.unselect_all();
    assert!(!app.is_all_selected());
    assert!(app.pictures.iter().all(|p| !p.is_selected));
    app.select_all();
    assert!(app.is_all_selected());
}

#[test]
fn catalog_is_sorted_after_scan() {
    let app = app_with(vec![
        entry("src_dir/c.jpg"),
        entry("src_dir/a.jpg"),
        entry("src_dir/b.jpg"),
    ]);
    let names: Vec<String> = app.pictures.iter().map(|p| p.get_name()).collect();
    assert_eq!(names, vec!["a.jpg", "b.jpg", "c.jpg"]);
}

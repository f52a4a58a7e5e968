//! User-input parsing: quality and speed fall back to their defaults on
//! anything that does not parse, and keep out-of-range numbers verbatim.

use picturust::format::{Format, ImageKind, Quality, Speed};
use picturust::paths::Paths;
use picturust::resize::{Resize, ResizeMethod, ResizeType};
use picturust::rotate::{Angle, Rotate};

#[test]
fn quality_falls_back_to_default_on_garbage() {
    assert_eq!(Quality::from("abc".to_string()).value, 75);
    assert_eq!(Quality::from("".to_string()).value, 75);
    assert_eq!(Quality::from("12x".to_string()).value, 75);
    assert_eq!(Quality::from("-3".to_string()).value, 75);
}

#[test]
fn quality_accepts_out_of_range_numbers_verbatim() {
    assert_eq!(Quality::from("150".to_string()).value, 150);
    assert_eq!(Quality::from("0".to_string()).value, 0);
    assert_eq!(Quality::from("100".to_string()).value, 100);
    assert_eq!(Quality::from("+42".to_string()).value, 42);
    // Past eight bits the parse fails, so the default returns.
    assert_eq!(Quality::from("256".to_string()).value, 75);
    assert_eq!(Quality::from("99999999999999999999".to_string()).value, 75);
}

#[test]
fn speed_parses_with_its_own_default() {
    assert_eq!(Speed::from("abc".to_string()).value, 7);
    assert_eq!(Speed::from("3".to_string()).value, 3);
    assert_eq!(Speed::from("200".to_string()).value, 200);
    assert_eq!(Speed::new().value, 7);
    assert_eq!(Quality::new().value, 75);
}

#[test]
fn format_choice_from_string() {
    let mut f = Format::default();
    assert_eq!(f.image, None);
    f.set_format("png".to_string());
    assert_eq!(f.image, Some(ImageKind::Png));
    f.set_format("jpg".to_string());
    assert_eq!(f.image, Some(ImageKind::Jpeg));
    f.set_format("webp".to_string());
    assert_eq!(f.image, Some(ImageKind::WebP));
    f.set_format("avif".to_string());
    assert_eq!(f.image, Some(ImageKind::Avif));
    f.set_format("tiff".to_string());
    assert_eq!(f.image, Some(ImageKind::Tiff));
    f.set_format("none".to_string());
    assert_eq!(f.image, None);
    assert_eq!(Format::get_default_image_format(), ImageKind::Png);
}

#[test]
fn resize_choice_from_string() {
    let mut r = Resize::default();
    r.set_resize_type("exact".to_string());
    assert_eq!(r.resize_type, Some(ResizeType::Exact));
    r.set_resize_type("fill".to_string());
    assert_eq!(r.resize_type, Some(ResizeType::Fill));
    r.set_resize_type("thumbnail".to_string());
    assert_eq!(r.resize_type, Some(ResizeType::Thumbnail));
    r.set_resize_type("off".to_string());
    assert_eq!(r.resize_type, None);
    r.set_method("nearest".to_string());
    assert_eq!(r.method, ResizeMethod::Nearest);
    r.set_method("catmullrom".to_string());
    assert_eq!(r.method, ResizeMethod::CatmullRom);
    r.set_method("triangle".to_string());
    assert_eq!(r.method, ResizeMethod::Triangle);
    r.set_method("gaussian".to_string());
    assert_eq!(r.method, ResizeMethod::Gaussian);
    r.set_method("whatever".to_string());
    assert_eq!(r.method, ResizeMethod::Lanczos3);
}

#[test]
fn rotation_choice_from_string() {
    let mut r = Rotate::default();
    assert_eq!(r.angle, Angle::Zero);
    r.set_angle("90".to_string());
    assert_eq!(r.angle, Angle::Quarter);
    r.set_angle("180".to_string());
    assert_eq!(r.angle, Angle::Half);
    r.set_angle("270".to_string());
    assert_eq!(r.angle, Angle::ThreeQuarters);
    r.set_angle("none".to_string());
    assert_eq!(r.angle, Angle::Zero);
}

#[test]
fn paths_validity_needs_both_directories() {
    let mut p = Paths::default();
    assert!(!p.is_valid());
    p.source = "in".to_string();
    p.source_is_dir = true;
    assert!(!p.is_valid());
    p.destination = "out".to_string();
    p.destination_is_dir = true;
    assert!(p.is_valid());
}

#[test]
fn destination_display_strips_drive() {
    let mut p = Paths::default();
    p.destination = "C:\\out".to_string();
    assert_eq!(p.get_destination(), "out");
    p.destination = "/srv/out".to_string();
    assert_eq!(p.get_destination(), "/srv/out");
}

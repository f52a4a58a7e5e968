//! Catalog scanning: extension filtering, metadata degradation and the
//! display helpers of a picture.

use picturust::application::{Application, ScanEntry};
use picturust::picture::{FileName, Metadata, Picture};

fn entry(path: &str) -> ScanEntry {
    ScanEntry { path: path.to_string(), metadata: None }
}

#[test]
fn scan_keeps_only_image_extensions() {
    let entries = vec![
        entry("dir/a.jpg"),
        entry("dir/notes.txt"),
        entry("dir/b.png"),
        entry("dir/c.webp"),
        entry("dir/d.avif"),
        entry("dir/e.tiff"),
        entry("dir/f.jpeg"),
        entry("dir/archive.tar.gz"),
        entry("dir/README"),
    ];
    let catalog = Application::build_catalog(entries);
    let names: Vec<String> = catalog.iter().map(|p| p.path.clone()).collect();
    assert_eq!(
        names,
        vec!["dir/a.jpg", "dir/b.png", "dir/c.webp", "dir/d.avif", "dir/e.tiff", "dir/f.jpeg"]
    );
}

#[test]
fn scan_is_case_insensitive_on_extensions() {
    let entries = vec![entry("x/A.JPG"), entry("x/B.Png"), entry("x/C.TIFF"), entry("x/D.TXT")];
    let catalog = Application::build_catalog(entries);
    assert_eq!(catalog.len(), 3);
    assert_eq!(catalog[0].path, "x/A.JPG");
}

#[test]
fn scan_skips_files_without_extension_or_hidden() {
    let entries = vec![entry("x/plain"), entry("x/.hidden"), entry("x/ok.jpg")];
    let catalog = Application::build_catalog(entries);
    assert_eq!(catalog.len(), 1);
    assert_eq!(catalog[0].path, "x/ok.jpg");
}

#[test]
fn scan_defaults_missing_metadata_to_zeroes() {
    let catalog = Application::build_catalog(vec![entry("x/ok.jpg")]);
    let m = &catalog[0].metadata;
    assert_eq!(m.weight, 0);
    assert_eq!(m.width, 0);
    assert_eq!(m.height, 0);
    assert_eq!(m.rotation, None);
    assert_eq!(m.created, None);
    assert_eq!(m.modified, None);
    assert_eq!(m.accessed, None);
}

#[test]
fn scan_keeps_observed_metadata() {
    let m = Metadata::new(1234, 640, 480, Some(6), Some(10), Some(20), Some(30));
    let e = ScanEntry { path: "x/ok.jpg".to_string(), metadata: Some(m) };
    let catalog = Application::build_catalog(vec![e]);
    assert_eq!(catalog[0].metadata.weight, 1234);
    assert_eq!(catalog[0].metadata.width, 640);
    assert_eq!(catalog[0].metadata.rotation, Some(6));
}

#[test]
fn new_picture_is_selected_and_untouched() {
    let p = Picture::new("dir/photo.jpg".to_string(), Metadata::default());
    assert!(p.is_selected);
    assert!(!p.is_in_process);
    assert!(!p.is_processed);
    assert_eq!(p.name.source_name, "photo");
    assert_eq!(p.name.prefix, "");
    assert_eq!(p.name.suffix, "");
}

#[test]
fn picture_name_is_the_file_name() {
    let p = Picture::new("a/b/photo.v2.jpg".to_string(), Metadata::default());
    assert_eq!(p.get_name(), "photo.v2.jpg");
    assert_eq!(p.name.source_name, "photo.v2");
}

#[test]
fn picture_size_label() {
    let m = Metadata::new(0, 640, 480, None, None, None, None);
    let p = Picture::new("x/a.jpg".to_string(), m);
    assert_eq!(p.get_size(), "640px - 480px");
}

#[test]
fn picture_weight_labels() {
    let mk = |w: u64| {
        Picture::new("x/a.jpg".to_string(), Metadata::new(w, 0, 0, None, None, None, None))
    };
    assert_eq!(mk(500).get_weight(), "500 B");
    assert_eq!(mk(2048).get_weight(), "2.00 KB");
    // Two decimals are rounded: 2047 bytes is 1.999 kilobytes.
    assert_eq!(mk(2047).get_weight(), "2.00 KB");
    assert_eq!(mk(1500000).get_weight(), "1.43 MB");
    assert_eq!(mk(1048576).get_weight(), "1024.00 KB");
}

#[test]
fn picture_path_strips_drive_prefix() {
    let p = Picture::new("C:\\pics\\a.jpg".to_string(), Metadata::default());
    assert_eq!(p.get_path(), "pics\\a.jpg");
    let q = Picture::new("/home/pics/a.jpg".to_string(), Metadata::default());
    assert_eq!(q.get_path(), "/home/pics/a.jpg");
}

#[test]
fn file_name_builds_output_path() {
    let mut n = FileName::new("photo");
    assert_eq!(n.build("out"), "out/photo");
    n.prefix = "new_".to_string();
    n.suffix = "_edited".to_string();
    assert_eq!(n.build("out"), "out/new_photo_edited");
}

//! The sort engine: ordering per field and direction, stability,
//! idempotence, and the mirror property of ascending and descending.

use picturust::picture::{Metadata, Picture};
use picturust::sort::{Sort, SortOrder, SortType};

fn pic(path: &str, weight: u64, created: Option<u64>) -> Picture {
    let m = Metadata::new(weight, 0, 0, None, created, None, None);
    Picture::new(path.to_string(), m)
}

fn names(v: &Vec<Picture>) -> Vec<String> {
    v.iter().map(|p| p.get_name()).collect()
}

#[test]
fn sort_by_name_ascending() {
    let mut v = vec![pic("d/c.jpg", 0, None), pic("d/a.jpg", 0, None), pic("d/b.jpg", 0, None)];
    let s = Sort { field: SortType::Name, order: SortOrder::Asc };
    s.apply(&mut v);
    assert_eq!(names(&v), vec!["a.jpg", "b.jpg", "c.jpg"]);
}

#[test]
fn sort_by_name_descending() {
    let mut v = vec![pic("d/c.jpg", 0, None), pic("d/a.jpg", 0, None), pic("d/b.jpg", 0, None)];
    let s = Sort { field: SortType::Name, order: SortOrder::Desc };
    s.apply(&mut v);
    assert_eq!(names(&v), vec!["c.jpg", "b.jpg", "a.jpg"]);
}

#[test]
fn sort_by_weight() {
    let mut v = vec![pic("d/a.jpg", 30, None), pic("d/b.jpg", 10, None), pic("d/c.jpg", 20, None)];
    let s = Sort { field: SortType::Weight, order: SortOrder::Asc };
    s.apply(&mut v);
    assert_eq!(names(&v), vec!["b.jpg", "c.jpg", "a.jpg"]);
}

#[test]
fn missing_timestamp_sorts_before_present() {
    let mut v = vec![
        pic("d/a.jpg", 0, Some(50)),
        pic("d/b.jpg", 0, None),
        pic("d/c.jpg", 0, Some(10)),
    ];
    let s = Sort { field: SortType::Created, order: SortOrder::Asc };
    s.apply(&mut v);
    assert_eq!(names(&v), vec!["b.jpg", "c.jpg", "a.jpg"]);
}

#[test]
fn sort_is_stable_on_ties() {
    let mut v = vec![
        pic("d/z.jpg", 5, None),
        pic("d/m.jpg", 5, None),
        pic("d/a.jpg", 5, None),
        pic("d/q.jpg", 1, None),
    ];
    let s = Sort { field: SortType::Weight, order: SortOrder::Asc };
    s.apply(&mut v);
    assert_eq!(names(&v), vec!["q.jpg", "z.jpg", "m.jpg", "a.jpg"]);
}

#[test]
fn sorting_twice_equals_sorting_once() {
    let mut once = vec![
        pic("d/c.jpg", 3, None),
        pic("d/a.jpg", 1, None),
        pic("d/b.jpg", 2, None),
    ];
    let s = Sort { field: SortType::Name, order: SortOrder::Asc };
    s.apply(&mut once);
    let mut twice = once.clone();
    s.apply(&mut twice);
    assert_eq!(once, twice);
}

#[test]
fn name_asc_then_desc_is_exact_reverse() {
    let mut v = vec![
        pic("d/c.jpg", 0, None),
        pic("d/a.jpg", 0, None),
        pic("d/d.jpg", 0, None),
        pic("d/b.jpg", 0, None),
    ];
    let asc = Sort { field: SortType::Name, order: SortOrder::Asc };
    asc.apply(&mut v);
    let mut asc_names = names(&v);
    let desc = Sort { field: SortType::Name, order: SortOrder::Desc };
    desc.apply(&mut v);
    asc_names.reverse();
    assert_eq!(names(&v), asc_names);
}

#[test]
fn sort_field_from_string() {
    assert_eq!(SortType::from("weight".to_string()), SortType::Weight);
    assert_eq!(SortType::from("created".to_string()), SortType::Created);
    assert_eq!(SortType::from("modified".to_string()), SortType::Modified);
    assert_eq!(SortType::from("accessed".to_string()), SortType::Accessed);
    assert_eq!(SortType::from("name".to_string()), SortType::Name);
    assert_eq!(SortType::from("garbage".to_string()), SortType::Name);
}

#[test]
fn set_order_toggles() {
    let mut s = Sort::default();
    assert_eq!(s.order, SortOrder::Asc);
    s.set_order();
    assert_eq!(s.order, SortOrder::Desc);
    s.set_order();
    assert_eq!(s.order, SortOrder::Asc);
}

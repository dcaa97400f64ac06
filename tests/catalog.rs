use rs_fast_image_viewer::{
    compare_digit_runs, compare_files, digit_run_end, name_compare, natural_sort_compare,
    sort_files, Config, ImageFile, ImageHandler, SortAlgorithm,
};
use std::cmp::Ordering;

fn file(name: &str) -> ImageFile {
    ImageFile::new(format!("/pics/{}", name), name.to_string(), None, None)
}

fn timed(name: &str, created: Option<i128>, modified: Option<i128>) -> ImageFile {
    ImageFile::new(format!("/pics/{}", name), name.to_string(), created, modified)
}

fn names(files: &[ImageFile]) -> Vec<String> {
    files.iter().map(|f| f.name.clone()).collect()
}

fn handler(alg: SortAlgorithm) -> ImageHandler {
    ImageHandler::new(Config { min_window_size: (800, 600), sort_algorithm: alg })
}

#[test]
fn natural_order_sorts_numbers_by_value() {
    let mut v = vec![file("file1.jpg"), file("file10.jpg"), file("file2.jpg")];
    sort_files(SortAlgorithm::FileNameNatural, &mut v);
    assert_eq!(names(&v), vec!["file1.jpg", "file2.jpg", "file10.jpg"]);
}

#[test]
fn name_order_sorts_character_by_character() {
    let mut v = vec![file("file1.jpg"), file("file10.jpg"), file("file2.jpg")];
    sort_files(SortAlgorithm::FileName, &mut v);
    assert_eq!(names(&v), vec!["file1.jpg", "file10.jpg", "file2.jpg"]);
}

#[test]
fn natural_compare_cases() {
    assert_eq!(natural_sort_compare("a2", "a10"), Ordering::Less);
    assert_eq!(natural_sort_compare("a10", "a2"), Ordering::Greater);
    assert_eq!(natural_sort_compare("a01", "a1"), Ordering::Equal);
    assert_eq!(natural_sort_compare("img007b", "img7a"), Ordering::Greater);
    assert_eq!(natural_sort_compare("abc", "abd"), Ordering::Less);
    assert_eq!(natural_sort_compare("", ""), Ordering::Equal);
    assert_eq!(natural_sort_compare("", "a"), Ordering::Less);
    assert_eq!(natural_sort_compare("ab", "a"), Ordering::Greater);
    assert_eq!(natural_sort_compare("x9", "xa"), Ordering::Less);
}

#[test]
fn natural_compare_long_numbers_by_full_value() {
    assert_eq!(natural_sort_compare("99999999999999999999999", "1"), Ordering::Greater);
    assert_eq!(natural_sort_compare("img99999999999999999999999", "img0"), Ordering::Greater);
    assert_eq!(natural_sort_compare("18446744073709551616", "18446744073709551615"), Ordering::Greater);
    assert_eq!(natural_sort_compare("a000000000000000000000000123", "a123"), Ordering::Equal);
    assert_eq!(
        natural_sort_compare("x123456789012345678901234567890", "x123456789012345678901234567891"),
        Ordering::Less
    );
}

#[test]
fn digit_runs() {
    assert_eq!(digit_run_end("abc123def", 3), 6);
    assert_eq!(digit_run_end("abc", 1), 1);
    assert_eq!(digit_run_end("x007", 1), 4);
    assert_eq!(compare_digit_runs("x007", 1, "7", 0), (Ordering::Equal, 4, 1));
    assert_eq!(compare_digit_runs("a12b", 1, "c9", 1), (Ordering::Greater, 3, 2));
    assert_eq!(compare_digit_runs("0099", 0, "100", 0), (Ordering::Less, 4, 3));
}

#[test]
fn name_compare_cases() {
    assert_eq!(name_compare("file10.jpg", "file2.jpg"), Ordering::Less);
    assert_eq!(name_compare("a", "a"), Ordering::Equal);
    assert_eq!(name_compare("ab", "a"), Ordering::Greater);
    assert_eq!(name_compare("B", "a"), Ordering::Less);
}

#[test]
fn supported_extensions() {
    let h = handler(SortAlgorithm::FileName);
    for n in ["a.jpg", "a.JPG", "a.jpeg", "b.Jpeg", "c.png", "d.WebP", "e.psd", "x.tar.png"] {
        assert!(h.is_supported_format(n), "{}", n);
    }
    for n in ["a.gif", ".png", "png", "a.", "a.pngx", "a.jp", "noext", ""] {
        assert!(!h.is_supported_format(n), "{}", n);
    }
}

#[test]
fn timestamps_missing_first() {
    let mut v = vec![
        timed("c", Some(30), Some(1)),
        timed("a", None, Some(3)),
        timed("b", Some(10), None),
    ];
    sort_files(SortAlgorithm::CreatedTime, &mut v);
    assert_eq!(names(&v), vec!["a", "b", "c"]);
    sort_files(SortAlgorithm::ModifiedTime, &mut v);
    assert_eq!(names(&v), vec!["b", "c", "a"]);
    assert_eq!(compare_files(SortAlgorithm::CreatedTime, &v[0], &v[0]), Ordering::Equal);
}

#[test]
fn equal_files_keep_their_order() {
    let mut v = vec![
        timed("first", None, None),
        timed("late", Some(5), None),
        timed("second", None, None),
        timed("third", None, None),
    ];
    sort_files(SortAlgorithm::CreatedTime, &mut v);
    assert_eq!(names(&v), vec!["first", "second", "third", "late"]);
    let mut w = vec![file("a05.png"), file("a1.png"), file("a5.png"), file("a005.png")];
    sort_files(SortAlgorithm::FileNameNatural, &mut w);
    assert_eq!(names(&w), vec!["a1.png", "a05.png", "a5.png", "a005.png"]);
    let mut h = handler(SortAlgorithm::FileNameNatural);
    h.load_images_from_directory(vec![file("b5.jpg"), file("b05.jpg"), file("note.txt"), file("b005.jpg")]);
    assert_eq!(names(&h.images), vec!["b5.jpg", "b05.jpg", "b005.jpg"]);
}

#[test]
fn load_keeps_supported_files_sorted() {
    let mut h = handler(SortAlgorithm::FileNameNatural);
    h.current_index = 0;
    h.load_images_from_directory(vec![
        file("z10.png"),
        file("notes.txt"),
        file("z2.JPG"),
        file("z1.webp"),
        file("archive.zip"),
    ]);
    assert_eq!(names(&h.images), vec!["z1.webp", "z2.JPG", "z10.png"]);
    assert_eq!(h.current_index, 0);
    assert_eq!(h.len(), 3);
    assert!(!h.is_empty());
}

#[test]
fn load_resets_cursor() {
    let mut h = handler(SortAlgorithm::FileName);
    h.load_images_from_directory(vec![file("a.png"), file("b.png"), file("c.png")]);
    h.next_image();
    h.next_image();
    assert_eq!(h.current_index, 2);
    h.load_images_from_directory(vec![file("a.png"), file("b.png")]);
    assert_eq!(h.current_index, 0);
}

#[test]
fn target_sets_cursor() {
    let mut h = handler(SortAlgorithm::FileName);
    let entries = vec![file("c.png"), file("a.png"), file("b.png")];
    h.load_images_with_target(entries, &"/pics/b.png".to_string());
    assert_eq!(h.current_index, 1);
    assert_eq!(h.current_image().unwrap().name, "b.png");
}

#[test]
fn target_outside_set_leaves_cursor_at_start() {
    let mut h = handler(SortAlgorithm::FileName);
    let entries = vec![file("c.png"), file("a.png"), file("notes.txt")];
    h.load_images_with_target(entries, &"/pics/notes.txt".to_string());
    assert_eq!(h.current_index, 0);
    assert_eq!(h.len(), 2);
    let mut h2 = handler(SortAlgorithm::FileName);
    h2.load_images_with_target(vec![file("c.png")], &"/elsewhere/x.png".to_string());
    assert_eq!(h2.current_index, 0);
}

#[test]
fn next_cycles_through_catalog() {
    let mut h = handler(SortAlgorithm::FileName);
    h.load_images_from_directory(vec![file("a.png"), file("b.png"), file("c.png"), file("d.png")]);
    h.next_image();
    let start = h.current_index;
    for _ in 0..h.len() {
        h.next_image();
    }
    assert_eq!(h.current_index, start);
    h.current_index = 3;
    h.next_image();
    assert_eq!(h.current_index, 0);
}

#[test]
fn previous_from_first_goes_to_last() {
    let mut h = handler(SortAlgorithm::FileName);
    h.load_images_from_directory(vec![file("a.png"), file("b.png"), file("c.png")]);
    h.previous_image();
    assert_eq!(h.current_index, 2);
    h.previous_image();
    assert_eq!(h.current_index, 1);
    assert_eq!(h.current_image().unwrap().name, "b.png");
}

#[test]
fn empty_catalog_navigation_is_noop() {
    let mut h = handler(SortAlgorithm::FileName);
    assert!(h.is_empty());
    assert_eq!(h.len(), 0);
    h.next_image();
    assert_eq!(h.current_index, 0);
    h.previous_image();
    assert_eq!(h.current_index, 0);
    assert!(h.current_image().is_none());
    h.load_images_from_directory(vec![file("readme.md")]);
    assert!(h.is_empty());
    assert!(h.current_image().is_none());
}

#[test]
fn single_file_catalog_stays_put() {
    let mut h = handler(SortAlgorithm::FileName);
    h.load_images_from_directory(vec![file("only.psd")]);
    h.next_image();
    assert_eq!(h.current_index, 0);
    h.previous_image();
    assert_eq!(h.current_index, 0);
}

#[test]
fn config_defaults() {
    let c = Config::default();
    assert_eq!(c.min_window_size, (800, 600));
    assert_eq!(c.sort_algorithm, SortAlgorithm::FileName);
    assert_eq!(SortAlgorithm::default(), SortAlgorithm::FileName);
    let custom = Config { min_window_size: (640, 480), sort_algorithm: SortAlgorithm::CreatedTime };
    let h = ImageHandler::new(custom);
    assert_eq!(h.config.min_window_size, (640, 480));
    assert_eq!(h.config.sort_algorithm, SortAlgorithm::CreatedTime);
}

#[test]
fn psd_files_are_told_apart() {
    assert!(rs_fast_image_viewer::is_psd_file("layers.PSD"));
    assert!(rs_fast_image_viewer::is_psd_file("a.psd"));
    assert!(!rs_fast_image_viewer::is_psd_file("a.png"));
    assert!(!rs_fast_image_viewer::is_psd_file(".psd"));
}

#[test]
fn loading_same_listing_twice_gives_same_order() {
    let listing = || {
        vec![timed("b.png", None, None), timed("a.png", Some(1), None), timed("c.png", None, None)]
    };
    let mut h = handler(SortAlgorithm::CreatedTime);
    h.load_images_from_directory(listing());
    let first = names(&h.images);
    h.load_images_from_directory(listing());
    assert_eq!(names(&h.images), first);
    assert_eq!(first, vec!["b.png", "c.png", "a.png"]);
}

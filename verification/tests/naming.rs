use digital_garden::naming::{
    bytes_eq, contains_name, derive_name, resolve_collision, slugify, timestamp_name,
};
use digital_garden::time::Timestamp;

fn ts(year: u16, month: u8, day: u8, hour: u8, minute: u8, second: u8) -> Timestamp {
    Timestamp { year, month, day, hour, minute, second }
}

#[test]
fn slug_of_simple_title() {
    assert_eq!(slugify(&b"Morning Notes".to_vec()), b"morning-notes".to_vec());
}

#[test]
fn slug_collapses_punctuation_and_case() {
    assert_eq!(slugify(&b"Hello,   World!!".to_vec()), b"hello-world".to_vec());
    assert_eq!(slugify(&b"  A  B  ".to_vec()), b"a-b".to_vec());
}

#[test]
fn slug_is_a_pure_function_of_the_title() {
    let title = b"Tending the Garden".to_vec();
    assert_eq!(slugify(&title), slugify(&title.clone()));
}

#[test]
fn slug_holds_only_safe_bytes() {
    let slug = slugify(&b"What a day: tea, rain & (some) code!".to_vec());
    assert!(!slug.is_empty());
    for b in slug {
        assert!(b.is_ascii_lowercase() || b.is_ascii_digit() || b == b'-');
    }
}

#[test]
fn slug_is_bounded_and_never_ends_with_a_separator() {
    let long = vec![b'x', b' '].repeat(100);
    let slug = slugify(&long);
    assert!(slug.len() <= 50);
    assert_ne!(slug.last(), Some(&b'-'));
}

#[test]
fn empty_or_unusable_title_slug_is_empty() {
    assert_eq!(slugify(&b"".to_vec()), b"".to_vec());
    assert_eq!(slugify(&b"!!! ???".to_vec()), b"".to_vec());
}

#[test]
fn timestamp_name_has_the_fixed_format() {
    let name = timestamp_name(&ts(2024, 1, 2, 3, 4, 5));
    assert_eq!(name, b"2024-01-02-03-04-05".to_vec());
}

#[test]
fn untitled_names_sort_by_creation_time() {
    let earlier = timestamp_name(&ts(2024, 12, 31, 23, 59, 59));
    let later = timestamp_name(&ts(2025, 1, 1, 0, 0, 0));
    assert!(earlier < later);
    let a = timestamp_name(&ts(2024, 6, 1, 9, 30, 0));
    let b = timestamp_name(&ts(2024, 6, 1, 9, 30, 1));
    assert!(a < b);
}

#[test]
fn derive_name_prefers_the_title() {
    let name = derive_name(&Some(b"Morning Notes".to_vec()), &ts(2024, 1, 2, 3, 4, 5));
    assert_eq!(name, b"morning-notes".to_vec());
}

#[test]
fn derive_name_falls_back_to_the_timestamp() {
    let when = ts(2024, 1, 2, 3, 4, 5);
    assert_eq!(derive_name(&None, &when), b"2024-01-02-03-04-05".to_vec());
    assert_eq!(derive_name(&Some(b"???".to_vec()), &when), b"2024-01-02-03-04-05".to_vec());
}

#[test]
fn resolve_collision_keeps_a_free_name() {
    let existing = vec![b"other".to_vec()];
    assert_eq!(resolve_collision(&b"morning-notes".to_vec(), &existing), b"morning-notes".to_vec());
}

#[test]
fn resolve_collision_appends_the_smallest_free_suffix() {
    let existing = vec![b"morning-notes".to_vec()];
    assert_eq!(
        resolve_collision(&b"morning-notes".to_vec(), &existing),
        b"morning-notes-1".to_vec()
    );
    let crowded = vec![
        b"morning-notes".to_vec(),
        b"morning-notes-1".to_vec(),
        b"morning-notes-2".to_vec(),
        b"morning-notes-3".to_vec(),
    ];
    assert_eq!(
        resolve_collision(&b"morning-notes".to_vec(), &crowded),
        b"morning-notes-4".to_vec()
    );
}

#[test]
fn resolve_collision_takes_the_first_free_suffix() {
    let existing = vec![b"notes".to_vec(), b"notes-2".to_vec()];
    assert_eq!(resolve_collision(&b"notes".to_vec(), &existing), b"notes-1".to_vec());
}

#[test]
fn helpers_compare_and_search_names() {
    assert!(bytes_eq(&b"a-b".to_vec(), &b"a-b".to_vec()));
    assert!(!bytes_eq(&b"a-b".to_vec(), &b"a-c".to_vec()));
    let names = vec![b"one".to_vec(), b"two".to_vec()];
    assert!(contains_name(&names, &b"two".to_vec()));
    assert!(!contains_name(&names, &b"three".to_vec()));
}

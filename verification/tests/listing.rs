use recent_listing::entry::{File, FileType};
use recent_listing::listing::{is_shown, list_dir, sort_newest_first};
use recent_listing::timestamp::Timestamp;

fn entry(name: &str, file_type: FileType, secs: i64, nanos: u32) -> File {
    File {
        name: name.to_string(),
        modified_time: Timestamp::new(secs, nanos).unwrap(),
        absolute_time: String::new(),
        relative_time: String::new(),
        file_type,
        is_dir: file_type == FileType::Directory,
        path: name.to_string(),
    }
}

fn names(files: &[File]) -> Vec<&str> {
    files.iter().map(|f| f.name.as_str()).collect()
}

#[test]
fn newest_comes_first() {
    let files = vec![
        entry("old", FileType::File, 100, 0),
        entry("new", FileType::File, 300, 0),
        entry("mid", FileType::Directory, 200, 0),
        entry("before_epoch", FileType::File, -5, 0),
    ];
    let shown = list_dir(files, 10, false);
    assert_eq!(names(&shown), vec!["new", "mid", "old", "before_epoch"]);
}

#[test]
fn nanoseconds_decide_within_a_second() {
    let files = vec![
        entry("a", FileType::File, 7, 1),
        entry("c", FileType::File, 7, 999_999_999),
        entry("b", FileType::File, 7, 2),
        entry("d", FileType::File, 8, 0),
    ];
    assert_eq!(names(&list_dir(files, 10, false)), vec!["d", "c", "b", "a"]);
}

#[test]
fn output_is_strictly_descending_for_distinct_times() {
    let mut files = Vec::new();
    for i in 0..200i64 {
        files.push(entry(&format!("f{}", i), FileType::File, (i * 7919) % 1009, 0));
    }
    let shown = list_dir(files, 150, false);
    assert_eq!(shown.len(), 150);
    for pair in shown.windows(2) {
        assert!(pair[0].modified_time.is_after(&pair[1].modified_time));
    }
    let newest = (0..200i64).map(|i| (i * 7919) % 1009).max().unwrap();
    assert_eq!(shown[0].modified_time.secs(), newest);
}

#[test]
fn of_equally_new_entries_the_later_one_comes_first() {
    let files = vec![
        entry("first", FileType::File, 50, 0),
        entry("newest", FileType::File, 60, 0),
        entry("second", FileType::File, 50, 0),
        entry("third", FileType::File, 50, 0),
    ];
    assert_eq!(
        names(&sort_newest_first(files)),
        vec!["newest", "third", "second", "first"]
    );
}

#[test]
fn at_most_the_requested_number_is_kept() {
    for count in 0usize..8 {
        let files = vec![
            entry("a", FileType::File, 1, 0),
            entry("b", FileType::File, 2, 0),
            entry("c", FileType::File, 3, 0),
            entry("d", FileType::File, 4, 0),
            entry("e", FileType::File, 5, 0),
        ];
        let shown = list_dir(files, count, true);
        assert_eq!(shown.len(), count.min(5));
        let all = ["e", "d", "c", "b", "a"];
        assert_eq!(names(&shown), all[..count.min(5)].to_vec());
    }
}

#[test]
fn asking_for_nothing_gives_nothing() {
    let files = vec![entry("a", FileType::File, 1, 0), entry("b", FileType::File, 2, 0)];
    assert!(list_dir(files, 0, true).is_empty());
    assert!(list_dir(Vec::new(), 0, false).is_empty());
    assert!(list_dir(Vec::new(), 3, false).is_empty());
}

#[test]
fn asking_for_more_than_there_is_gives_all_that_is_shown() {
    let files = vec![
        entry("a", FileType::File, 1, 0),
        entry(".b", FileType::Hidden, 2, 0),
        entry("c", FileType::Directory, 3, 0),
    ];
    let shown = list_dir(files, 1000, false);
    assert_eq!(names(&shown), vec!["c", "a"]);
}

#[test]
fn dot_names_are_left_out_unless_asked_for() {
    let files = vec![
        entry(".env", FileType::Hidden, 9, 0),
        entry("visible", FileType::File, 1, 0),
        entry(".cache", FileType::Directory, 8, 0),
        entry(".profile", FileType::File, 7, 0),
        entry(".rc", FileType::Dotfile, 6, 0),
    ];
    let shown = list_dir(files, 10, false);
    assert_eq!(names(&shown), vec!["visible"]);
    assert!(shown.iter().all(|f| !f.name.starts_with('.')));
}

#[test]
fn everything_is_shown_when_asked_for() {
    let files = vec![
        entry(".env", FileType::Hidden, 9, 0),
        entry("visible", FileType::File, 1, 0),
        entry("link", FileType::Symlink, 5, 0),
        entry(".rc", FileType::Dotfile, 6, 0),
        entry("dir", FileType::Directory, 2, 0),
    ];
    assert_eq!(names(&list_dir(files, 10, true)), vec![".env", ".rc", "link", "dir", "visible"]);
}

#[test]
fn only_files_and_directories_are_shown_by_default() {
    assert!(is_shown(&entry("a", FileType::File, 0, 0), false));
    assert!(is_shown(&entry("a", FileType::Directory, 0, 0), false));
    assert!(!is_shown(&entry("a", FileType::Symlink, 0, 0), false));
    assert!(!is_shown(&entry("a", FileType::Hidden, 0, 0), false));
    assert!(!is_shown(&entry("a", FileType::Dotfile, 0, 0), false));
    assert!(!is_shown(&entry(".a", FileType::File, 0, 0), false));
    assert!(!is_shown(&entry(".a", FileType::Directory, 0, 0), false));
    for kind in [
        FileType::File,
        FileType::Directory,
        FileType::Symlink,
        FileType::Hidden,
        FileType::Dotfile,
    ] {
        assert!(is_shown(&entry(".a", kind, 0, 0), true));
        assert!(is_shown(&entry("a", kind, 0, 0), true));
    }
}

#[test]
fn entries_left_out_do_not_count_towards_the_number() {
    let files = vec![
        entry(".newest", FileType::Hidden, 100, 0),
        entry("link", FileType::Symlink, 90, 0),
        entry("b", FileType::File, 80, 0),
        entry("a", FileType::File, 70, 0),
        entry("z", FileType::File, 60, 0),
    ];
    assert_eq!(names(&list_dir(files, 2, false)), vec!["b", "a"]);
}

#[test]
fn sorting_agrees_with_a_stable_sort_turned_round() {
    let mut files = Vec::new();
    let mut expected: Vec<(i64, usize)> = Vec::new();
    let mut seed: u64 = 12345;
    for i in 0..500usize {
        seed = seed.wrapping_mul(6364136223846793005).wrapping_add(1442695040888963407);
        let secs = ((seed >> 33) % 40) as i64;
        files.push(entry(&format!("{}", i), FileType::File, secs, 0));
        expected.push((secs, i));
    }
    expected.sort_by_key(|pair| pair.0);
    expected.reverse();
    let sorted = sort_newest_first(files);
    let got: Vec<(i64, usize)> = sorted
        .iter()
        .map(|f| (f.modified_time.secs(), f.name.parse::<usize>().unwrap()))
        .collect();
    assert_eq!(got, expected);
}

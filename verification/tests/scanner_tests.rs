use semantixel::scanner::{default_extensions, extensions_or_default, without_repeats};
use semantixel::text::to_chars;
use semantixel::{DirectoryScanner, RootWalk, WalkEntry};

fn file(path: &str) -> WalkEntry {
    WalkEntry::Found { path: path.to_string(), is_file: true }
}

fn directory(path: &str) -> WalkEntry {
    WalkEntry::Found { path: path.to_string(), is_file: false }
}

fn scanner(excluded: &[&str], extensions: &[&str]) -> DirectoryScanner {
    DirectoryScanner::new(
        "root".to_string(),
        excluded.iter().map(|text| text.to_string()).collect(),
        extensions.iter().map(|text| text.to_string()).collect(),
    )
}

#[test]
fn test_scanner_creation() {
    let scanner = DirectoryScanner::new(
        ".".to_string(),
        vec![],
        vec!["jpg".to_string(), "png".to_string()],
    );
    assert_eq!(scanner.extensions().len(), 2);
}

#[test]
fn a_scanner_keeps_its_configuration() {
    let scanner = DirectoryScanner::new(
        "root".to_string(),
        vec!["root/cache".to_string()],
        vec!["JPG".to_string(), "Png".to_string()],
    );
    assert_eq!(scanner.directories(), &vec!["root".to_string()]);
    assert_eq!(scanner.exclude_dirs(), &vec!["root/cache".to_string()]);
    assert_eq!(scanner.extensions(), &vec!["jpg".to_string(), "png".to_string()]);
    let several = DirectoryScanner::with_multiple_dirs(
        vec!["a".to_string(), "b".to_string()],
        vec![],
        vec!["GIF".to_string()],
    );
    assert_eq!(several.directories(), &vec!["a".to_string(), "b".to_string()]);
    assert!(several.exclude_dirs().is_empty());
    assert_eq!(several.extensions(), &vec!["gif".to_string()]);
}

#[test]
fn extensions_are_lowered_as_unicode_has_it() {
    let scanner = scanner(&[], &["JPÉG"]);
    assert_eq!(scanner.extensions(), &vec!["jpég".to_string()]);
    assert!(scanner.admits("root/a.JPÉG"));
    assert!(scanner.allows_extension(&to_chars("Jpég")));
    assert!(!scanner.allows_extension(&to_chars("jpeg")));
}

#[test]
fn one_root_with_every_reason_to_leave_a_file_out() {
    let scanner = scanner(&["root/cache"], &["jpg"]);
    let walk = RootWalk {
        is_directory: true,
        entries: vec![
            directory("root"),
            file("root/photo.JPG"),
            file("root/notes.txt"),
            file("root/._photo.jpg"),
            directory("root/cache"),
            file("root/cache/pic.jpg"),
        ],
    };
    let result = scanner.scan(&vec![walk]).unwrap();
    assert_eq!(result.paths, vec!["root/photo.JPG".to_string()]);
    assert_eq!(result.total_files, 1);
    assert_eq!(result.elapsed_ms, 0);
    let timed = result.timed(12);
    assert_eq!(timed.paths, vec!["root/photo.JPG".to_string()]);
    assert_eq!(timed.total_files, 1);
    assert_eq!(timed.elapsed_ms, 12);
}

#[test]
fn each_reason_is_told_apart() {
    let scanner = scanner(&["root/cache"], &["jpg"]);
    assert!(scanner.admits("root/photo.JPG"));
    assert!(!scanner.admits("root/notes.txt"));
    assert!(!scanner.admits("root/._photo.jpg"));
    assert!(!scanner.admits("root/cache/pic.jpg"));
    assert!(scanner.is_excluded("root/cache/pic.jpg"));
    assert!(!scanner.is_excluded("root/photo.JPG"));
    assert!(!scanner.is_excluded("root/._photo.jpg"));
    assert!(scanner.allows_extension(&to_chars("JPG")));
    assert!(scanner.allows_extension(&to_chars("jpg")));
    assert!(!scanner.allows_extension(&to_chars("txt")));
}

#[test]
fn an_excluded_directory_is_no_prefix_of_text() {
    let scanner = scanner(&["root/cache"], &["jpg"]);
    assert!(!scanner.is_excluded("root/cachefoo/pic.jpg"));
    assert!(scanner.admits("root/cachefoo/pic.jpg"));
    assert!(scanner.admits("root/cache.jpg"));
    assert!(scanner.is_excluded("root/cache"));
    assert!(scanner.is_excluded("root//cache/deep/er/pic.jpg"));
    let walk = RootWalk {
        is_directory: true,
        entries: vec![file("root/cachefoo/pic.jpg"), file("root/cache/pic.jpg")],
    };
    let result = scanner.scan(&vec![walk]).unwrap();
    assert_eq!(result.paths, vec!["root/cachefoo/pic.jpg".to_string()]);
}

#[test]
fn files_without_a_usable_name_or_extension_are_left_out() {
    let scanner = scanner(&[], &["jpg", ""]);
    assert!(!scanner.admits("root/jpg"));
    assert!(!scanner.admits("root/.jpg"));
    assert!(!scanner.admits("root/a.jpg/.."));
    assert!(!scanner.admits(""));
    assert!(scanner.admits("root/a.b.jpg"));
    assert!(scanner.admits("root/name."));
    assert!(scanner.admits("root/.hidden.jpg"));
    assert!(!scanner.admits("root/._.jpg"));
}

#[test]
fn only_regular_files_that_could_be_read_are_kept() {
    let scanner = scanner(&[], &["jpg"]);
    assert!(scanner.accepts(&file("root/a.jpg")));
    assert!(!scanner.accepts(&directory("root/a.jpg")));
    assert!(!scanner.accepts(&WalkEntry::Unreadable));
    let walk = RootWalk {
        is_directory: true,
        entries: vec![WalkEntry::Unreadable, directory("root/b.jpg"), file("root/a.jpg")],
    };
    assert_eq!(scanner.scan_directory(&walk), vec!["root/a.jpg".to_string()]);
}

#[test]
fn a_root_that_is_no_directory_gives_nothing() {
    let scanner = scanner(&[], &["jpg"]);
    let missing = RootWalk { is_directory: false, entries: vec![WalkEntry::Unreadable] };
    let plain_file = RootWalk { is_directory: false, entries: vec![file("photo.jpg")] };
    assert!(scanner.scan_directory(&missing).is_empty());
    assert!(scanner.scan_directory(&plain_file).is_empty());
    let result = scanner.scan(&vec![missing, plain_file]).unwrap();
    assert!(result.paths.is_empty());
    assert_eq!(result.total_files, 0);
}

#[test]
fn several_roots_are_joined_and_counted() {
    let scanner = DirectoryScanner::with_multiple_dirs(
        vec!["a".to_string(), "b".to_string(), "c".to_string()],
        vec!["b/skip".to_string()],
        vec!["png".to_string(), "jpg".to_string()],
    );
    let walks = vec![
        RootWalk { is_directory: true, entries: vec![file("a/1.png"), file("a/2.txt")] },
        RootWalk { is_directory: true, entries: vec![file("b/skip/3.png"), file("b/4.JPG")] },
        RootWalk { is_directory: true, entries: vec![] },
        RootWalk { is_directory: true, entries: vec![file("a/1.png")] },
    ];
    let result = scanner.scan(&walks).unwrap();
    assert_eq!(result.paths, vec!["a/1.png".to_string(), "b/4.JPG".to_string()]);
    assert_eq!(result.total_files, result.paths.len());
    assert_eq!(result.total_files, 2);
    for path in &result.paths {
        assert!(scanner.admits(path));
    }
}

#[test]
fn no_walk_gives_nothing() {
    let scanner = scanner(&[], &["jpg"]);
    let result = scanner.scan(&vec![]).unwrap();
    assert!(result.paths.is_empty());
    assert_eq!(result.total_files, 0);
    assert_eq!(result.elapsed_ms, 0);
}

#[test]
fn the_default_extensions_are_the_common_image_kinds() {
    let expected: Vec<String> =
        ["jpg", "jpeg", "png", "gif", "bmp"].iter().map(|text| text.to_string()).collect();
    assert_eq!(default_extensions(), expected);
    assert_eq!(extensions_or_default(None), expected);
    assert_eq!(extensions_or_default(Some(vec!["tif".to_string()])), vec!["tif".to_string()]);
    assert!(extensions_or_default(Some(vec![])).is_empty());
}

#[test]
fn a_path_that_several_roots_reach_is_listed_once() {
    let scanner = DirectoryScanner::with_multiple_dirs(
        vec!["root".to_string(), "root".to_string(), "root/sub".to_string()],
        vec![],
        vec!["jpg".to_string()],
    );
    let whole = || RootWalk {
        is_directory: true,
        entries: vec![directory("root"), file("root/a.jpg"), file("root/sub/b.jpg")],
    };
    let inner = RootWalk { is_directory: true, entries: vec![file("root/sub/b.jpg")] };
    let result = scanner.scan(&vec![whole(), whole(), inner]).unwrap();
    assert_eq!(result.paths, vec!["root/a.jpg".to_string(), "root/sub/b.jpg".to_string()]);
    assert_eq!(result.total_files, 2);
    let twice = DirectoryScanner::with_multiple_dirs(
        vec!["root".to_string(), "root".to_string()],
        vec![],
        vec!["jpg".to_string()],
    );
    let one = || RootWalk { is_directory: true, entries: vec![file("root/a.jpg")] };
    let result = twice.scan(&vec![one(), one()]).unwrap();
    assert_eq!(result.paths, vec!["root/a.jpg".to_string()]);
    assert_eq!(result.total_files, 1);
}

#[test]
fn repeats_are_removed_where_they_come_again() {
    let paths: Vec<String> =
        ["b", "a", "b", "c", "a", "a", "d"].iter().map(|text| text.to_string()).collect();
    let expected: Vec<String> = ["b", "a", "c", "d"].iter().map(|text| text.to_string()).collect();
    assert_eq!(without_repeats(paths), expected);
    assert!(without_repeats(vec![]).is_empty());
    assert_eq!(without_repeats(vec!["x".to_string()]), vec!["x".to_string()]);
    assert_eq!(without_repeats(vec!["A".to_string(), "a".to_string()]).len(), 2);
}

#[test]
fn a_lowered_extension_is_looked_up_as_it_stands() {
    let scanner = scanner(&[], &["JPG", "png"]);
    assert!(scanner.holds_extension(&"jpg".to_string()));
    assert!(scanner.holds_extension(&"png".to_string()));
    assert!(!scanner.holds_extension(&"JPG".to_string()));
    assert!(!scanner.holds_extension(&"gif".to_string()));
    assert!(!scanner.holds_extension(&String::new()));
}

#[test]
fn ascii_capitals_are_made_small_and_nothing_else_changes() {
    let scanner = scanner(&[], &["J-P_G.9", "@[`{"]);
    assert_eq!(scanner.extensions(), &vec!["j-p_g.9".to_string(), "@[`{".to_string()]);
    for letter in b'A'..=b'Z' {
        let upper = (letter as char).to_string();
        let lower = ((letter + 32) as char).to_string();
        let one = DirectoryScanner::new(".".to_string(), vec![], vec![upper]);
        assert_eq!(one.extensions(), &vec![lower]);
    }
}

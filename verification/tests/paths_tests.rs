use semantixel::paths::{
    begins, components, extension, extension_of, file_name, names, starts_with,
};
use semantixel::text::{same_chars, to_chars};

fn strings(parts: Vec<Vec<char>>) -> Vec<String> {
    parts.into_iter().map(|part| part.into_iter().collect()).collect()
}

fn string(part: Option<Vec<char>>) -> Option<String> {
    part.map(|chars| chars.into_iter().collect())
}

#[test]
fn splits_a_relative_path() {
    assert_eq!(strings(components("root/cache/pic.jpg")), vec!["root", "cache", "pic.jpg"]);
}

#[test]
fn drops_empty_pieces_and_single_dots() {
    assert_eq!(strings(components("a//b/./c/")), vec!["a", "b", "c"]);
    assert_eq!(strings(components("a/b/.")), vec!["a", "b"]);
    assert_eq!(strings(names("a//b/./c/")), vec!["a", "b", "c"]);
}

#[test]
fn keeps_the_root_and_a_leading_dot() {
    assert_eq!(strings(components("/a/b")), vec!["/", "a", "b"]);
    assert_eq!(strings(components("//a")), vec!["/", "a"]);
    assert_eq!(strings(components("/./a")), vec!["/", "a"]);
    assert_eq!(strings(components("./a")), vec![".", "a"]);
    assert_eq!(strings(components(".")), vec!["."]);
    assert_eq!(strings(components("/")), vec!["/"]);
    assert_eq!(strings(names("/a/b")), vec!["a", "b"]);
    assert_eq!(strings(names("./a")), vec!["a"]);
}

#[test]
fn keeps_parent_steps() {
    assert_eq!(strings(components("../a/..")), vec!["..", "a", ".."]);
}

#[test]
fn the_empty_path_has_no_component() {
    assert!(components("").is_empty());
    assert!(names("").is_empty());
}

#[test]
fn splits_as_the_standard_library_does() {
    let samples = [
        "", ".", "..", "/", "a", "a/", "a/b", "/a/b", "./a/b", "a/./b", "a//b", "a/b/.", "a/../b",
        "//a", "/.", "./.", "root/cache/pic.jpg", "a/.hidden", "a/b.c/d.e",
    ];
    for sample in samples {
        let expected: Vec<String> = std::path::Path::new(sample)
            .components()
            .map(|part| part.as_os_str().to_string_lossy().into_owned())
            .collect();
        assert_eq!(strings(components(sample)), expected);
    }
}

#[test]
fn a_prefix_is_matched_by_whole_components() {
    assert!(starts_with("root/cache/pic.jpg", "root/cache"));
    assert!(starts_with("root/cache", "root/cache"));
    assert!(starts_with("root/cache/pic.jpg", "root"));
    assert!(starts_with("root/cache/pic.jpg", "root/cache/"));
    assert!(starts_with("root//cache/./pic.jpg", "root/cache"));
    assert!(!starts_with("root/cachefoo/pic.jpg", "root/cache"));
    assert!(!starts_with("root/cache", "root/cache/pic.jpg"));
    assert!(!starts_with("root/cache/pic.jpg", "cache"));
    assert!(!starts_with("root/cache/pic.jpg", "roo"));
}

#[test]
fn the_root_and_the_leading_dot_count_in_a_prefix() {
    assert!(starts_with("/a/b", "/a"));
    assert!(!starts_with("/a/b", "a"));
    assert!(!starts_with("a/b", "/a"));
    assert!(starts_with("./a/b", "./a"));
    assert!(!starts_with("./a/b", "a"));
}

#[test]
fn every_path_starts_with_the_empty_path() {
    assert!(starts_with("a/b", ""));
    assert!(starts_with("", ""));
    assert!(!starts_with("", "a"));
}

#[test]
fn prefixes_as_the_standard_library_does() {
    let samples = ["", ".", "/", "a", "a/b", "/a/b", "./a", "a/bc", "a/b/c", "a//b", "ab", "a/.."];
    for path in samples {
        for base in samples {
            assert_eq!(starts_with(path, base), std::path::Path::new(path).starts_with(base));
        }
    }
}

#[test]
fn finds_the_file_name() {
    assert_eq!(string(file_name("root/photo.JPG")), Some("photo.JPG".to_string()));
    assert_eq!(string(file_name("photo.JPG")), Some("photo.JPG".to_string()));
    assert_eq!(string(file_name("root/dir/")), Some("dir".to_string()));
    assert_eq!(string(file_name("root/dir/.")), Some("dir".to_string()));
    assert_eq!(string(file_name("root/..")), None);
    assert_eq!(string(file_name("/")), None);
    assert_eq!(string(file_name(".")), None);
    assert_eq!(string(file_name("")), None);
}

#[test]
fn finds_the_extension() {
    assert_eq!(string(extension("root/photo.JPG")), Some("JPG".to_string()));
    assert_eq!(string(extension("root/archive.tar.gz")), Some("gz".to_string()));
    assert_eq!(string(extension("root/._photo.jpg")), Some("jpg".to_string()));
    assert_eq!(string(extension("root/notes")), None);
    assert_eq!(string(extension("root/.bashrc")), None);
    assert_eq!(string(extension("root/name.")), Some(String::new()));
    assert_eq!(string(extension("root.d/name")), None);
    assert_eq!(string(extension("root/..")), None);
    assert_eq!(string(extension_of(&to_chars("a.b"))), Some("b".to_string()));
    assert_eq!(string(extension_of(&to_chars("ab"))), None);
}

#[test]
fn names_and_extensions_as_the_standard_library_does() {
    let samples = [
        "", ".", "..", "/", "a", "a.b", "a/b.c", ".a", "a/.b", "a/.b.c", "a.", "a..", "a/..b",
        "a.b/c", "a/b/", "x/._photo.jpg", "photo.JPG", "a.b.c.d",
    ];
    for sample in samples {
        let path = std::path::Path::new(sample);
        let name = path.file_name().map(|text| text.to_string_lossy().into_owned());
        let ext = path.extension().map(|text| text.to_string_lossy().into_owned());
        assert_eq!(string(file_name(sample)), name);
        assert_eq!(string(extension(sample)), ext);
    }
}

#[test]
fn turns_text_into_characters() {
    assert_eq!(to_chars("héllo"), vec!['h', 'é', 'l', 'l', 'o']);
    assert!(to_chars("").is_empty());
    assert!(same_chars(&to_chars("abc"), &to_chars("abc")));
    assert!(!same_chars(&to_chars("abc"), &to_chars("abd")));
    assert!(!same_chars(&to_chars("abc"), &to_chars("ab")));
}

#[test]
fn components_begin_components() {
    let whole = components("root/cache/pic.jpg");
    assert!(begins(&whole, &components("root/cache")));
    assert!(begins(&whole, &components("root/cache/pic.jpg")));
    assert!(begins(&whole, &components("")));
    assert!(!begins(&whole, &components("root/cach")));
    assert!(!begins(&whole, &components("root/cache/pic.jpg/more")));
    assert!(!begins(&components(""), &whole));
}

fn all_texts(alphabet: &[char], longest: usize) -> Vec<String> {
    let mut texts = vec![String::new()];
    let mut start = 0;
    for _ in 0..longest {
        let end = texts.len();
        for index in start..end {
            for letter in alphabet {
                let mut longer = texts[index].clone();
                longer.push(*letter);
                texts.push(longer);
            }
        }
        start = end;
    }
    texts
}

#[test]
fn every_short_path_splits_as_the_standard_library_has_it() {
    for sample in all_texts(&['a', '.', '/', '_'], 6) {
        let path = std::path::Path::new(&sample);
        let expected: Vec<String> = path
            .components()
            .map(|part| part.as_os_str().to_string_lossy().into_owned())
            .collect();
        let name = path.file_name().map(|text| text.to_string_lossy().into_owned());
        let ext = path.extension().map(|text| text.to_string_lossy().into_owned());
        assert_eq!(strings(components(&sample)), expected);
        assert_eq!(string(file_name(&sample)), name);
        assert_eq!(string(extension(&sample)), ext);
    }
}

#[test]
fn every_short_path_begins_what_the_standard_library_has_it_begin() {
    let samples = all_texts(&['a', '.', '/'], 5);
    for path in &samples {
        for base in &samples {
            assert_eq!(starts_with(path, base), std::path::Path::new(path).starts_with(base));
        }
    }
}

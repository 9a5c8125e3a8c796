use flatten::path::{
    extension, file_name, file_stem, join, normalize, relative_to, resolution_target, same_path,
};
use std::path::{Component, Path, PathBuf};

const SAMPLES: [&str; 40] = [
    "",
    ".",
    "..",
    "/",
    "//",
    "a",
    "a/",
    "a/b",
    "a//b",
    "a/./b",
    "a/../b",
    "a/b/..",
    "a/b/../..",
    "a/b/../../..",
    "../a",
    "../../a/b",
    "./a",
    ".//a",
    "./a/./b/.",
    "/a",
    "/a/b",
    "/a/b/",
    "/a//b//",
    "/a/./b",
    "/a/../b",
    "/..",
    "/../a",
    "/a/b/../../..",
    "/./a",
    "a/.",
    "a/..",
    ".hidden",
    "dir/.hidden",
    "dir/file.txt",
    "dir/archive.tar.gz",
    "dir/.config.toml",
    "dir/trailing.",
    "dir/..name",
    "/tmp/x/flatten",
    "...",
];

fn folded(path: &str) -> String {
    let path = Path::new(path);
    let mut result = if path.is_absolute() {
        PathBuf::from("/")
    } else {
        PathBuf::new()
    };
    for component in path.components() {
        match component {
            Component::RootDir => {}
            Component::CurDir => {}
            Component::ParentDir => {
                result.pop();
            }
            Component::Normal(name) => {
                result.push(name);
            }
            _ => {}
        }
    }
    result.display().to_string()
}

#[test]
fn normalize_folds_components_as_path_buf_does() {
    for sample in SAMPLES {
        assert_eq!(normalize(sample), folded(sample), "for {:?}", sample);
    }
}

#[test]
fn normalize_twice_is_normalize_once() {
    for sample in SAMPLES {
        let once = normalize(sample);
        assert_eq!(normalize(&once), once, "for {:?}", sample);
    }
}

#[test]
fn normalize_exact_values() {
    assert_eq!(normalize("/tmp/work/../data/./notes.txt"), "/tmp/data/notes.txt");
    assert_eq!(normalize("a/b/../../../c"), "c");
    assert_eq!(normalize("/../.."), "/");
    assert_eq!(normalize("./"), "");
    assert_eq!(normalize("//a///b/"), "/a/b");
}

#[test]
fn join_agrees_with_path_join() {
    for base in SAMPLES {
        for path in SAMPLES {
            let expected = Path::new(base).join(path).display().to_string();
            assert_eq!(join(base, path), expected, "for {:?} and {:?}", base, path);
        }
    }
}

#[test]
fn join_exact_values() {
    assert_eq!(join("/root/dir", "a.txt"), "/root/dir/a.txt");
    assert_eq!(join("/root/dir/", "a.txt"), "/root/dir/a.txt");
    assert_eq!(join("/root/dir", "/etc/passwd"), "/etc/passwd");
    assert_eq!(join("", "a.txt"), "a.txt");
    assert_eq!(join("/root/dir", ""), "/root/dir/");
}

#[test]
fn resolution_target_is_the_normalized_join() {
    for base in SAMPLES {
        for path in SAMPLES {
            let expected = folded(&Path::new(base).join(path).display().to_string());
            assert_eq!(resolution_target(base, path), expected, "for {:?} and {:?}", base, path);
        }
    }
    assert_eq!(resolution_target("/root/dir", "../other/./x"), "/root/other/x");
}

#[test]
fn same_path_agrees_with_path_equality() {
    for a in SAMPLES {
        for b in SAMPLES {
            assert_eq!(same_path(a, b), Path::new(a) == Path::new(b), "for {:?} and {:?}", a, b);
        }
    }
}

#[test]
fn relative_to_agrees_with_strip_prefix() {
    for path in SAMPLES {
        for base in SAMPLES {
            let expected = match Path::new(path).strip_prefix(base) {
                Ok(rest) => rest.to_path_buf(),
                Err(_) => PathBuf::from(path),
            };
            let got = relative_to(path, base);
            assert_eq!(Path::new(&got), expected.as_path(), "for {:?} below {:?}", path, base);
            if Path::new(path).strip_prefix(base).is_err() {
                assert_eq!(got, path);
            }
        }
    }
}

#[test]
fn relative_to_exact_values() {
    assert_eq!(relative_to("/root/dir/sub/a.txt", "/root/dir"), "sub/a.txt");
    assert_eq!(relative_to("/root/dir/a.txt", "/root/dir/"), "a.txt");
    assert_eq!(relative_to("/root/dir", "/root/dir"), "");
    assert_eq!(relative_to("/root/dirty/a.txt", "/root/dir"), "/root/dirty/a.txt");
    assert_eq!(relative_to("/elsewhere/a.txt", "/root/dir"), "/elsewhere/a.txt");
    assert_eq!(relative_to("/a/b", ""), "/a/b");
    assert_eq!(relative_to("a/b", "/a"), "a/b");
}

#[test]
fn names_agree_with_path() {
    for sample in SAMPLES {
        let path = Path::new(sample);
        let name = path.file_name().map(|p| p.to_str().unwrap().to_string());
        let ext = path.extension().map(|p| p.to_str().unwrap().to_string());
        let stem = path.file_stem().map(|p| p.to_str().unwrap().to_string());
        assert_eq!(file_name(sample), name, "file name of {:?}", sample);
        assert_eq!(extension(sample), ext, "extension of {:?}", sample);
        assert_eq!(file_stem(sample), stem, "file stem of {:?}", sample);
    }
}

#[test]
fn extension_exact_values() {
    assert_eq!(extension("src/main.rs"), Some("rs".to_string()));
    assert_eq!(extension("archive.tar.gz"), Some("gz".to_string()));
    assert_eq!(extension(".gitignore"), None);
    assert_eq!(extension("Makefile"), None);
    assert_eq!(extension("odd."), Some("".to_string()));
    assert_eq!(extension("dir/.."), None);
    assert_eq!(file_stem("/home/me/project.d"), Some("project".to_string()));
    assert_eq!(file_stem("/"), None);
    assert_eq!(file_name("/home/me/project.d/"), Some("project.d".to_string()));
}

/// Every text of at most `longest` characters over `/`, `.`, `a` and `b`.
fn all_texts(longest: usize) -> Vec<String> {
    let alphabet = ['/', '.', 'a', 'b'];
    let mut all = vec![String::new()];
    let mut last = vec![String::new()];
    for _ in 0..longest {
        let mut next = Vec::new();
        for text in &last {
            for c in alphabet {
                let mut longer = text.clone();
                longer.push(c);
                next.push(longer);
            }
        }
        all.extend(next.iter().cloned());
        last = next;
    }
    all
}

#[test]
fn every_short_path_normalizes_as_path_buf_folds_it() {
    for sample in all_texts(7) {
        let once = normalize(&sample);
        assert_eq!(once, folded(&sample), "for {:?}", sample);
        assert_eq!(normalize(&once), once, "twice for {:?}", sample);
    }
}

#[test]
fn every_short_path_has_the_names_that_path_gives() {
    for sample in all_texts(7) {
        let path = Path::new(&sample);
        let name = path.file_name().map(|p| p.to_str().unwrap().to_string());
        let ext = path.extension().map(|p| p.to_str().unwrap().to_string());
        let stem = path.file_stem().map(|p| p.to_str().unwrap().to_string());
        assert_eq!(file_name(&sample), name, "file name of {:?}", sample);
        assert_eq!(extension(&sample), ext, "extension of {:?}", sample);
        assert_eq!(file_stem(&sample), stem, "file stem of {:?}", sample);
    }
}

#[test]
fn every_pair_of_short_paths_joins_and_compares_as_path_does() {
    let all = all_texts(4);
    for a in &all {
        for b in &all {
            assert_eq!(same_path(a, b), Path::new(a) == Path::new(b), "for {:?} and {:?}", a, b);
            assert_eq!(
                join(a, b),
                Path::new(a).join(b).display().to_string(),
                "for {:?} and {:?}",
                a,
                b
            );
        }
    }
}

#[test]
fn every_pair_of_short_paths_strips_as_path_does() {
    let all = all_texts(4);
    for path in &all {
        for base in &all {
            let got = relative_to(path, base);
            match Path::new(path).strip_prefix(base) {
                Ok(rest) => {
                    assert_eq!(Path::new(&got), rest, "for {:?} below {:?}", path, base);
                    assert_eq!(got, normal_text(rest), "for {:?} below {:?}", path, base);
                }
                Err(_) => assert_eq!(&got, path, "for {:?} not below {:?}", path, base),
            }
        }
    }
}

/// The components of a path joined by single separators.
fn normal_text(path: &Path) -> String {
    let mut text = String::new();
    for component in path.components() {
        match component {
            Component::RootDir => text.push('/'),
            other => {
                if !text.is_empty() && !text.ends_with('/') {
                    text.push('/');
                }
                text.push_str(other.as_os_str().to_str().unwrap());
            }
        }
    }
    text
}

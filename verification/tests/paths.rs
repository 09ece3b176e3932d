use agent_connectors::order::{in_order, in_order_once, keep_once, path_before};
use agent_connectors::paths::FilePath;
use agent_connectors::scan::ScanRoot;
use std::path::{Path, PathBuf};

const SAMPLES: [&str; 30] = [
    "",
    "/",
    ".",
    "..",
    "./",
    "./a",
    "../a",
    "a",
    "a/",
    "a//b",
    "a/./b",
    "a/../b",
    "/a",
    "//a",
    "/a/b.json",
    "/a/b.tar.gz",
    "/a/.hidden",
    "/a/.hidden.txt",
    "/a/b.",
    "/a/..",
    "/./a",
    "/A",
    "/a b",
    "/é",
    "/aé/b",
    "/z",
    "a.b/c",
    "/home/user/.config/Code - Insiders/User",
    "/a/b/c/d/e/f",
    "/~",
];

fn parts(path: &Path) -> Vec<String> {
    path.components()
        .map(|part| part.as_os_str().to_str().unwrap().to_string())
        .collect()
}

#[test]
fn a_path_has_the_parts_of_the_standard_library() {
    for sample in SAMPLES {
        let own = FilePath::parse(sample);
        let standard = Path::new(sample);
        assert_eq!(own.parts, parts(standard), "{sample}");
        assert_eq!(
            own.file_name(),
            standard.file_name().map(|name| name.to_str().unwrap()),
            "{sample}"
        );
        assert_eq!(
            own.extension().as_deref(),
            standard.extension().map(|name| name.to_str().unwrap()),
            "{sample}"
        );
        assert_eq!(
            own.file_stem().as_deref(),
            standard.file_stem().map(|name| name.to_str().unwrap()),
            "{sample}"
        );
        assert_eq!(
            own.parent().map(|parent| parent.parts),
            standard.parent().map(parts),
            "{sample}"
        );
        assert_eq!(Path::new(&own.to_text()), standard, "{sample}");
    }
}

#[test]
fn joining_follows_the_standard_library() {
    for base in SAMPLES {
        for tail in ["x", "x/y", "./x", "", "/abs/x", "state.vscdb", "a#b/c"] {
            assert_eq!(
                FilePath::parse(base).join(tail).parts,
                parts(&Path::new(base).join(tail)),
                "{base} and {tail}"
            );
        }
    }
}

#[test]
fn the_order_is_that_of_the_standard_library() {
    for a in SAMPLES {
        for b in SAMPLES {
            assert_eq!(
                path_before(&FilePath::parse(a), &FilePath::parse(b)),
                Path::new(a) < Path::new(b),
                "{a} and {b}"
            );
            assert_eq!(
                FilePath::parse(a).same(&FilePath::parse(b)),
                Path::new(a) == Path::new(b),
                "{a} and {b}"
            );
        }
    }
}

#[test]
fn sorting_follows_the_standard_library() {
    let mut standard: Vec<PathBuf> = SAMPLES.iter().rev().map(PathBuf::from).collect();
    let own: Vec<FilePath> = SAMPLES.iter().rev().map(|s| FilePath::parse(s)).collect();
    standard.sort();
    let sorted: Vec<Vec<String>> = in_order(own).into_iter().map(|path| path.parts).collect();
    assert_eq!(
        sorted,
        standard.iter().map(|path| parts(path)).collect::<Vec<_>>()
    );
    standard.dedup();
    let own: Vec<FilePath> = SAMPLES.iter().map(|s| FilePath::parse(s)).collect();
    let once: Vec<Vec<String>> = in_order_once(own)
        .into_iter()
        .map(|path| path.parts)
        .collect();
    assert_eq!(
        once,
        standard.iter().map(|path| parts(path)).collect::<Vec<_>>()
    );
}

fn root(path: &str, origin: &str) -> ScanRoot {
    ScanRoot {
        path: FilePath::parse(path),
        origin: origin.to_string(),
    }
}

#[test]
fn the_first_item_at_a_path_is_kept() {
    let list = || vec![root("/b", "one"), root("/a", "two"), root("/b/", "three")];
    let sorted = in_order_once(list());
    assert_eq!(sorted.len(), 2);
    assert_eq!(sorted[0].origin, "two");
    assert_eq!(sorted[1].origin, "one");
    let kept = keep_once(list());
    assert_eq!(kept.len(), 2);
    assert_eq!(kept[0].origin, "one");
    assert_eq!(kept[1].origin, "two");
    let stable: Vec<String> = in_order(list()).into_iter().map(|root| root.origin).collect();
    assert_eq!(stable, ["two", "one", "three"]);
}

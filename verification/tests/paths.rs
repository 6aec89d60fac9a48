use iodd::paths::{extension, file_name, join, parent, with_extension};
use std::path::Path;

const PATHS: [&str; 24] = [
    "", "/", "//", ".", "..", "a", "a/", "a//", "a/.", "/a", "/a/b", "a//b", "a/b/..", "a/b.c",
    "a/.b", "a/.b.c", "a/b.", "a/b.c.d", "./a.b", "a.b/c", "/a/b/./", "a/b/c.d/", "...", "a/..b",
];

fn text(p: Option<&Path>) -> Option<&str> {
    p.and_then(Path::to_str)
}

/// The parts agree with what std says of the same path.
#[test]
fn parts_agree_with_std() {
    for p in PATHS {
        let path = Path::new(p);
        assert_eq!(file_name(p).as_deref(), path.file_name().and_then(|n| n.to_str()), "{p:?}");
        assert_eq!(extension(p).as_deref(), path.extension().and_then(|n| n.to_str()), "{p:?}");
        assert_eq!(parent(p).as_deref(), text(path.parent()), "{p:?}");
        let mut swapped = path.to_path_buf();
        swapped.set_extension("x");
        assert_eq!(Some(with_extension(p, "x").as_str()), text(Some(&swapped)), "{p:?}");
        assert_eq!(Some(join(p, "n").as_str()), text(Some(path.join("n").as_path())), "{p:?}");
        assert_eq!(join(p, "/n"), "/n");
    }
}

#[test]
fn an_extension_reads_back() {
    assert_eq!(extension(&with_extension("/a/b.c", "vhd")).as_deref(), Some("vhd"));
    assert_eq!(with_extension(&with_extension("/a/b.c", "vhd"), "c"), "/a/b.c");
    assert_eq!(extension("/a/b.c.vhd").as_deref(), Some("vhd"));
}

#[test]
fn a_name_reads_back_from_where_it_was_put() {
    for dir in ["/", "a", "/a/b", ".."] {
        let path = join(dir, "n.vhd");
        assert_eq!(file_name(&path).as_deref(), Some("n.vhd"));
        assert_eq!(parent(&path).as_deref(), Some(dir));
    }
    assert_eq!(parent(&join("a//", "n")).as_deref(), Some("a"));
    assert_eq!(parent(&join("/./", "n")).as_deref(), Some("/"));
    assert_eq!(parent(&join("", "n")).as_deref(), Some(""));
    assert_eq!(parent("a//b").as_deref(), Some("a"));
    assert_eq!(parent("b").as_deref(), Some(""));
}

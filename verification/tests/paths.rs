use cargo::order::{comes_first, sort};
use cargo::path::{join_paths, Path};

fn path(text: &str) -> Path {
    Path { repr: text.as_bytes().to_vec() }
}

#[test]
fn join_reads_the_tail_below_the_base() {
    assert_eq!(path("/a").join(b"b"), path("/a/b"));
    assert_eq!(path("a/b").join(b"c/d"), path("a/b/c/d"));
}

#[test]
fn join_with_nothing_keeps_the_base() {
    assert_eq!(path("/a/target").join(b""), path("/a/target"));
}

#[test]
fn join_with_an_absolute_tail_takes_the_tail() {
    assert_eq!(path("/a").join(b"/b"), path("/b"));
}

#[test]
fn dir_path_drops_the_last_component() {
    assert_eq!(path("/a/b/Cargo.toml").dir_path(), path("/a/b"));
    assert_eq!(path("/Cargo.toml").dir_path(), path("/"));
    assert_eq!(path("Cargo.toml").dir_path(), path("."));
    assert_eq!(path("").dir_path(), path("."));
}

#[test]
fn relative_path_below_the_base() {
    assert_eq!(
        path("/work/pkg/target/test-a").path_relative_from(&path("/work/pkg")),
        Some(path("target/test-a"))
    );
}

#[test]
fn relative_path_beside_the_base() {
    assert_eq!(
        path("/work/other/target/x").path_relative_from(&path("/work/pkg/src")),
        Some(path("../../other/target/x"))
    );
}

#[test]
fn relative_path_of_the_base_itself() {
    assert_eq!(path("/a/b").path_relative_from(&path("/a/b/")), Some(path(".")));
}

#[test]
fn relative_path_ignores_pieces_that_name_nothing() {
    assert_eq!(path("/a//./b").path_relative_from(&path("/a/c")), Some(path("../b")));
}

#[test]
fn relative_path_of_an_absolute_path_from_a_relative_base() {
    assert_eq!(path("/a/b").path_relative_from(&path("a")), Some(path("/a/b")));
}

#[test]
fn no_relative_path_from_an_absolute_base() {
    assert_eq!(path("a/b").path_relative_from(&path("/a")), None);
}

#[test]
fn no_relative_path_from_a_base_that_goes_up() {
    assert_eq!(path("a/b").path_relative_from(&path("../c")), None);
    assert_eq!(path("../a").path_relative_from(&path("../c")), Some(path("../a")));
}

#[test]
fn relative_path_joined_to_the_base_gives_the_path_back() {
    for whole in ["/a/b/c", "/", "/x/../y", "/a//b/"] {
        for base in ["/a/b", "/a/b/c/d", "/", "/q/./r"] {
            let way = path(whole).path_relative_from(&path(base)).unwrap();
            assert_eq!(path(base).join(&way.repr), Path::new(whole.as_bytes()));
        }
    }
}

#[test]
fn new_paths_are_in_their_shortest_form() {
    let cases = [
        ("/a//b/./c/", "/a/b/c"),
        ("/a/../../b", "/b"),
        ("a/../../b", "../b"),
        ("../../a", "../../a"),
        ("a/..", "."),
        ("/..", "/"),
        ("", "."),
        ("./x", "x"),
    ];
    for (given, expected) in cases {
        assert_eq!(Path::new(given.as_bytes()), path(expected));
        assert_eq!(Path::new(expected.as_bytes()), path(expected));
    }
}

#[test]
fn join_does_not_double_the_separator() {
    assert_eq!(path("/").join(b"a"), path("/a"));
    assert_eq!(path("a/").join(b"b/"), path("a/b"));
    assert_eq!(path(".").join(b"doc"), path("doc"));
}

#[test]
fn join_goes_up() {
    assert_eq!(path("/a/b").join(b"../c"), path("/a/c"));
    assert_eq!(path("/a/./b").join(b"c"), Path::new(b"/a/./b").join(b"c"));
}

#[test]
fn dir_path_of_the_root_and_of_what_is_above() {
    assert_eq!(path("/").dir_path(), path("/"));
    assert_eq!(path("..").dir_path(), path(".."));
    assert_eq!(path("../..").dir_path(), path("../.."));
    assert_eq!(path("../a").dir_path(), path(".."));
}

#[test]
fn components_are_as_few_as_possible() {
    let parts = path("/a/b/../c").to_components();
    assert_eq!(parts, vec![b"a".to_vec(), b"c".to_vec()]);
}

#[test]
fn paths_are_ordered_by_their_bytes() {
    assert!(comes_first(&path("a"), &path("b")));
    assert!(!comes_first(&path("b"), &path("a")));
    assert!(comes_first(&path("a"), &path("a")));
    assert!(comes_first(&path("a"), &path("a/b")));
    assert!(!comes_first(&path("a/b"), &path("a")));
    assert!(comes_first(&path("Z"), &path("a")));
}

#[test]
fn sorting_puts_paths_in_order_and_keeps_them_all() {
    let sorted = sort(vec![path("c"), path("a"), path("b"), path("a")]);
    assert_eq!(sorted, vec![path("a"), path("a"), path("b"), path("c")]);
    assert_eq!(sort(Vec::new()), Vec::new());
}

#[test]
fn the_order_of_sorted_paths_does_not_depend_on_the_order_before() {
    let one = sort(vec![path("x/b"), path("x"), path("x/a")]);
    let other = sort(vec![path("x/a"), path("x/b"), path("x")]);
    assert_eq!(one, other);
}

#[test]
fn search_path_is_joined_by_colons() {
    assert_eq!(join_paths(&vec![path("/a"), path("/b"), path("/c")]), b"/a:/b:/c".to_vec());
    assert_eq!(join_paths(&vec![path("/a")]), b"/a".to_vec());
    assert_eq!(join_paths(&Vec::new()), b"".to_vec());
}

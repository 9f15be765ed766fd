use vacuum::executors::context::Context;
use vacuum::path::RealPath;

#[test]
fn from_text_splits_at_separators() {
    let path = RealPath::from_text("/usr/local/bin");
    assert!(path.is_absolute());
    assert_eq!(path.depth(), 3);
    assert_eq!(path.to_text(), "/usr/local/bin");
}

#[test]
fn from_text_passes_over_empty_segments() {
    assert_eq!(RealPath::from_text("//a///b/").to_text(), "/a/b");
    assert_eq!(RealPath::from_text("a//b").to_text(), "a/b");
    assert_eq!(RealPath::from_text("a/"), RealPath::from_text("a"));
}

#[test]
fn from_text_of_nothing_is_the_default_path() {
    let path = RealPath::from_text("");
    assert!(!path.is_absolute());
    assert_eq!(path.depth(), 0);
    assert_eq!(path.to_text(), "");
    assert_eq!(path, RealPath::default());
}

#[test]
fn root_has_no_segments() {
    let root = RealPath::from_text("/");
    assert!(root.is_absolute());
    assert_eq!(root.depth(), 0);
    assert_eq!(root.to_text(), "/");
}

#[test]
fn to_text_round_trips() {
    for text in ["", "/", "a", "/a", "a/b/c", "/x/y.txt", "..", "./a"] {
        let path = RealPath::from_text(text);
        assert_eq!(path.to_text(), text);
        assert_eq!(RealPath::from_text(&path.to_text()), path);
    }
}

#[test]
fn join_appends_the_segments_of_the_name() {
    let base = RealPath::from_text("/srv/app");
    assert_eq!(base.join("conf.json").to_text(), "/srv/app/conf.json");
    assert_eq!(base.join("a/b").to_text(), "/srv/app/a/b");
    assert_eq!(base.join("").to_text(), "/srv/app");
    assert_eq!(RealPath::from_text("").join("a").to_text(), "a");
    assert_eq!(RealPath::from_text("/").join("a").to_text(), "/a");
}

#[test]
fn join_appends_an_absolute_name_too() {
    let base = RealPath::from_text("/srv/app");
    assert_eq!(base.join("/etc/passwd").to_text(), "/srv/app/etc/passwd");
    assert_eq!(RealPath::from_text("rel").join("/x").to_text(), "rel/x");
}

#[test]
fn join_twice_is_join_once_with_a_separator() {
    let base = RealPath::from_text("/srv");
    for (first, second) in [("a", "b"), ("a/b", "c"), ("", "c"), ("a", ""), ("a/", "/b"), ("", "")] {
        let once = base.join(&format!("{}/{}", first, second));
        assert_eq!(base.join(first).join(second), once);
    }
}

#[test]
fn sub_of_a_real_path_is_join() {
    let base = RealPath::from_text("/srv");
    assert_eq!(base.sub("a/b"), base.join("a/b"));
    assert_eq!(base.sub("a").sub("b"), base.sub("a/b"));
}

#[test]
fn below_gives_the_relative_path() {
    let base = RealPath::from_text("/srv/app");
    let deep = RealPath::from_text("/srv/app/a/b.txt");
    assert_eq!(deep.below(&base), Some(RealPath::from_text("a/b.txt")));
    assert_eq!(base.below(&base), Some(RealPath::from_text("")));
    assert_eq!(base.below(&deep), None);
    assert_eq!(RealPath::from_text("/srv/other/a").below(&base), None);
    assert_eq!(RealPath::from_text("/srv/application").below(&base), None);
    assert_eq!(RealPath::from_text("srv/app/a").below(&base), None);
    assert_eq!(
        RealPath::from_text("/etc").below(&RealPath::from_text("")),
        None
    );
}

#[test]
fn concat_appends_the_segments_of_the_other_path() {
    let base = RealPath::from_text("/out");
    assert_eq!(
        base.concat(&RealPath::from_text("a/b")).to_text(),
        "/out/a/b"
    );
    assert_eq!(base.concat(&RealPath::from_text("/a")).to_text(), "/out/a");
    assert_eq!(base.concat(&RealPath::from_text("")).to_text(), "/out");
}

#[test]
fn below_and_concat_undo_each_other() {
    let base = RealPath::from_text("/srv/app");
    let deep = RealPath::from_text("/srv/app/x/y");
    let rest = deep.below(&base).unwrap();
    assert_eq!(base.concat(&rest), deep);
}

#[test]
fn parent_drops_the_last_segment() {
    assert_eq!(RealPath::from_text("/a/b").parent().to_text(), "/a");
    assert_eq!(RealPath::from_text("a").parent().to_text(), "");
    assert_eq!(RealPath::from_text("/").parent().to_text(), "/");
    assert_eq!(RealPath::from_text("").parent().to_text(), "");
}

#[test]
fn clone_is_equal() {
    let path = RealPath::from_text("/a/b");
    assert_eq!(path.clone(), path);
}

#[test]
fn search_pattern_puts_a_separator_between_root_and_pattern() {
    assert_eq!(
        RealPath::from_text("/srv/app").search_pattern("*.txt"),
        "/srv/app/*.txt"
    );
    assert_eq!(RealPath::from_text("").search_pattern("*"), "/*");
    assert_eq!(RealPath::from_text("rel").search_pattern("a/*"), "rel/a/*");
}

#[test]
fn resolve_turns_text_into_paths() {
    assert_eq!(RealPath::resolve(None), None);
    assert_eq!(
        RealPath::resolve(Some("/home/alice".to_string())),
        Some(RealPath::from_text("/home/alice"))
    );
    assert_eq!(
        RealPath::resolve_all(vec![Some("/a/b".to_string()), None, Some("c".to_string())]),
        vec![
            Some(RealPath::from_text("/a/b")),
            None,
            Some(RealPath::from_text("c"))
        ]
    );
    assert_eq!(RealPath::resolve_all(vec![]), vec![]);
}

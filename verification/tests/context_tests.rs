use vacuum::executors::context::{Context, SearchError};
use vacuum::executors::file_system_executor::{Executor, FileSystemContext};
use vacuum::executors::ops::{Ops, Step};
use vacuum::path::RealPath;

fn context(source: &str, target: &str) -> FileSystemContext<RealPath> {
    FileSystemContext {
        source: RealPath::from_text(source),
        target: RealPath::from_text(target),
    }
}

#[test]
fn new_context_writes_below_the_target_and_reads_from_the_default() {
    let ctx = FileSystemContext::new(RealPath::from_text("/out"));
    assert_eq!(ctx.target, RealPath::from_text("/out"));
    assert_eq!(ctx.source, RealPath::default());
}

#[test]
fn default_context_is_empty_on_both_sides() {
    let ctx = FileSystemContext::<RealPath>::default();
    assert_eq!(ctx.source, RealPath::default());
    assert_eq!(ctx.target, RealPath::default());
}

#[test]
fn sub_descends_on_both_sides() {
    let ctx = context("/src", "/out").sub("a/b");
    assert_eq!(ctx.source.to_text(), "/src/a/b");
    assert_eq!(ctx.target.to_text(), "/out/a/b");
}

#[test]
fn sub_twice_is_sub_once_with_a_separator() {
    let ctx = context("/src", "/out");
    assert_eq!(ctx.sub("first").sub("second"), ctx.sub("first/second"));
    assert_eq!(ctx.sub("a/b").sub("c/d"), ctx.sub("a/b/c/d"));
}

#[test]
fn namespaced_takes_the_host_directory_as_source() {
    let ctx = context("/src/deep/down", "/out/a/b");
    let home = ctx
        .namespaced(Some(RealPath::from_text("/home/alice")), "home")
        .unwrap();
    assert_eq!(home.source.to_text(), "/home/alice");
    assert_eq!(home.target.to_text(), "/out/a/b/home");
    assert_eq!(home.target.depth(), ctx.target.depth() + 1);
    let config = ctx
        .namespaced(Some(RealPath::from_text("/home/alice/.config")), "config")
        .unwrap();
    assert_eq!(config.source.to_text(), "/home/alice/.config");
    assert_eq!(config.target.to_text(), "/out/a/b/config");
}

#[test]
fn namespaced_is_unavailable_without_a_host_directory() {
    assert_eq!(context("/src", "/out").namespaced(None, "home"), None);
}

#[test]
fn home_is_namespaced_under_the_target() {
    let ctx = context("/src/deep", "/out/x");
    let host = RealPath::default().home();
    match ctx.home() {
        Some(home) => {
            assert_eq!(home.target.to_text(), "/out/x/home");
            assert_eq!(Some(home.source), host);
        }
        None => assert_eq!(host, None),
    }
}

#[test]
fn config_is_namespaced_under_the_target() {
    let ctx = context("/src/deep", "/out/x");
    let host = RealPath::default().config();
    match ctx.config() {
        Some(config) => {
            assert_eq!(config.target.to_text(), "/out/x/config");
            assert_eq!(Some(config.source), host);
        }
        None => assert_eq!(host, None),
    }
}

#[test]
fn real_path_home_does_not_depend_on_the_path() {
    assert_eq!(
        RealPath::from_text("/a").home(),
        RealPath::from_text("b/c").home()
    );
    assert_eq!(
        RealPath::from_text("/a").config(),
        RealPath::from_text("b/c").config()
    );
}

#[test]
fn mirror_reparents_matches_under_the_target() {
    let ctx = context("/src/dir", "/out");
    let found = vec![
        Some(RealPath::from_text("/src/dir/a.txt")),
        Some(RealPath::from_text("/src/dir/b.txt")),
    ];
    let entries = ctx.mirror(&found).unwrap();
    assert_eq!(
        entries,
        vec![
            Some(context("/src/dir/a.txt", "/out/a.txt")),
            Some(context("/src/dir/b.txt", "/out/b.txt")),
        ]
    );
}

#[test]
fn mirror_keeps_empty_entries_in_place() {
    let ctx = context("/src", "/out");
    let found = vec![
        None,
        Some(RealPath::from_text("/src/sub/a")),
        None,
        Some(RealPath::from_text("/src")),
    ];
    assert_eq!(
        ctx.mirror(&found),
        Ok(vec![
            None,
            Some(context("/src/sub/a", "/out/sub/a")),
            None,
            Some(context("/src", "/out")),
        ])
    );
    assert_eq!(ctx.mirror(&vec![]), Ok(vec![]));
}

#[test]
fn mirror_names_the_first_match_outside_the_source() {
    let ctx = context("/src", "/out");
    let found = vec![
        Some(RealPath::from_text("/src/a")),
        None,
        Some(RealPath::from_text("/elsewhere/b")),
        Some(RealPath::from_text("/other/c")),
    ];
    assert_eq!(
        ctx.mirror(&found),
        Err(SearchError::OutsideRoot { index: 2 })
    );
}

#[test]
fn search_finds_files_in_order_and_mirrors_them() {
    let ctx = context("tests", "/out/t");
    let found = ctx.search("p*_tests.rs").unwrap();
    assert_eq!(
        found,
        vec![
            Some(context("tests/parser_tests.rs", "/out/t/parser_tests.rs")),
            Some(context("tests/path_tests.rs", "/out/t/path_tests.rs")),
        ]
    );
    for entry in found.iter().flatten() {
        assert_eq!(
            entry.source.below(&ctx.source),
            entry.target.below(&ctx.target)
        );
    }
}

#[test]
fn search_of_a_real_path_lists_matches() {
    let root = RealPath::from_text("");
    assert_eq!(
        RealPath::from_text("tests").search("deps_*.rs"),
        Ok(vec![Some(RealPath::from_text("tests/deps_tests.rs"))])
    );
    assert_eq!(
        RealPath::from_text("tests").search("*.nothing"),
        Ok(vec![])
    );
    assert_eq!(root.search("no_such_entry_at_the_root_*"), Ok(vec![]));
}

#[test]
fn search_refuses_a_malformed_pattern() {
    let ctx = context("/tmp", "/out");
    match ctx.search("a**b") {
        Err(SearchError::Pattern { message, .. }) => assert!(!message.is_empty()),
        other => panic!("no pattern error: {:?}", other),
    }
    match RealPath::from_text("/tmp").search("[") {
        Err(SearchError::Pattern { position, message }) => {
            assert_eq!(position, 5);
            assert_eq!(message, "invalid range pattern");
        }
        other => panic!("no pattern error: {:?}", other),
    }
}

#[test]
fn copy_of_a_missing_file_asks_for_nothing() {
    let executor = Executor::new(context("/src", "/out"));
    assert_eq!(executor.copy("missing.txt", false), vec![]);
}

#[test]
fn copy_makes_the_directory_and_copies() {
    let executor = Executor::new(context("/src", "/out"));
    assert_eq!(
        executor.copy("a.txt", true),
        vec![
            Step::CreateDirAll(RealPath::from_text("/out")),
            Step::CopyFile {
                from: RealPath::from_text("/src/a.txt"),
                to: RealPath::from_text("/out/a.txt"),
            },
        ]
    );
    assert_eq!(
        executor.copy("conf/app/a.txt", true),
        vec![
            Step::CreateDirAll(RealPath::from_text("/out/conf/app")),
            Step::CopyFile {
                from: RealPath::from_text("/src/conf/app/a.txt"),
                to: RealPath::from_text("/out/conf/app/a.txt"),
            },
        ]
    );
}

#[test]
fn copy_twice_asks_for_the_same_steps() {
    let executor = Executor::new(context("/src", "/out"));
    assert_eq!(executor.copy("a.txt", true), executor.copy("a.txt", true));
}

#[test]
fn copy_of_an_empty_name_stays_at_the_target() {
    let executor = Executor::new(context("/src", "/out"));
    assert_eq!(
        executor.copy("", true),
        vec![
            Step::CreateDirAll(RealPath::from_text("/out")),
            Step::CopyFile {
                from: RealPath::from_text("/src"),
                to: RealPath::from_text("/out"),
            },
        ]
    );
}

#[test]
fn copy_matches_passes_over_empty_entries() {
    let executor = Executor::new(context("/src", "/out"));
    let matches = vec![
        Some(context("/src/a.txt", "/out/a.txt")),
        None,
        Some(context("/src/d/b.txt", "/out/d/b.txt")),
    ];
    assert_eq!(
        executor.copy_matches(&matches),
        vec![
            Step::CreateDirAll(RealPath::from_text("/out")),
            Step::CopyFile {
                from: RealPath::from_text("/src/a.txt"),
                to: RealPath::from_text("/out/a.txt"),
            },
            Step::CreateDirAll(RealPath::from_text("/out/d")),
            Step::CopyFile {
                from: RealPath::from_text("/src/d/b.txt"),
                to: RealPath::from_text("/out/d/b.txt"),
            },
        ]
    );
    assert_eq!(executor.copy_matches(&vec![None, None]), vec![]);
}

#[test]
fn copy_glob_plans_a_copy_for_each_match() {
    let executor = Executor::new(context("", "/out"));
    assert_eq!(executor.copy_glob("no_such_entry_at_the_root_*"), Ok(vec![]));
    let executor = Executor::new(context("tests", "/out/k"));
    assert_eq!(
        executor.copy_glob("c*_tests.rs"),
        Ok(vec![
            Step::CreateDirAll(RealPath::from_text("/out/k")),
            Step::CopyFile {
                from: RealPath::from_text("tests/context_tests.rs"),
                to: RealPath::from_text("/out/k/context_tests.rs"),
            },
        ])
    );
    assert_eq!(executor.copy_glob("*.none"), Ok(vec![]));
}

#[test]
fn copy_glob_fails_on_a_malformed_pattern() {
    let executor = Executor::new(context("/src", "/out"));
    assert!(matches!(
        executor.copy_glob("***"),
        Err(SearchError::Pattern { .. })
    ));
}

#[test]
fn execute_runs_in_the_source_directory() {
    let executor = Executor::new(context("/src/dir", "/out"));
    assert_eq!(
        executor.execute("make all"),
        vec![Step::Run {
            command: "make all".to_string(),
            directory: RealPath::from_text("/src/dir"),
        }]
    );
}

#[test]
fn profile_with_a_copy_plans_the_copy_below_the_target() {
    let app = vacuum::parser::parse_with_actions(r#"app "demo" { copy "conf" }"#).unwrap();
    assert_eq!(app.name, "demo");
    let executor = Executor::new(context("/apps/demo", "/backup"));
    let mut plan = vec![];
    for action in &app.actions {
        match action {
            vacuum::Action::Copy(file_name) => plan.extend(executor.copy(file_name, true)),
            vacuum::Action::CopyGlob(pattern) => plan.extend(executor.copy_glob(pattern).unwrap()),
            vacuum::Action::Execute(command) => plan.extend(executor.execute(command)),
        }
    }
    assert_eq!(
        plan,
        vec![
            Step::CreateDirAll(RealPath::from_text("/backup")),
            Step::CopyFile {
                from: RealPath::from_text("/apps/demo/conf"),
                to: RealPath::from_text("/backup/conf"),
            },
        ]
    );
}

#[test]
fn search_without_star_or_bracket_succeeds() {
    let tests = RealPath::from_text("tests");
    assert_eq!(
        tests.search("path_tests.rs"),
        Ok(vec![Some(RealPath::from_text("tests/path_tests.rs"))])
    );
    assert_eq!(
        tests.search("?ath_tests.rs"),
        Ok(vec![Some(RealPath::from_text("tests/path_tests.rs"))])
    );
    assert_eq!(tests.search("no_such_file"), Ok(vec![]));
    assert_eq!(tests.search("]a!-b?"), Ok(vec![]));
    assert!(tests.search("").is_ok());
    assert!(RealPath::from_text("").search("").is_ok());
}

#[test]
fn search_of_a_context_without_star_or_bracket_has_no_pattern_error() {
    let ctx = context("tests", "/out");
    assert_eq!(
        ctx.search("deps_tests.rs"),
        Ok(vec![Some(context("tests/deps_tests.rs", "/out/deps_tests.rs"))])
    );
    assert_eq!(ctx.search("no?such?file"), Ok(vec![]));
    let executor = Executor::new(ctx);
    assert_eq!(
        executor.copy_glob("?eps_tests.rs"),
        Ok(vec![
            Step::CreateDirAll(RealPath::from_text("/out")),
            Step::CopyFile {
                from: RealPath::from_text("tests/deps_tests.rs"),
                to: RealPath::from_text("/out/deps_tests.rs"),
            },
        ])
    );
}

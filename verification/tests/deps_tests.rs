use vacuum::adapters::deps_usecase::{
    AnalyzeError, DependencyAnalyzer, DepsUseCase, FileProbe, FileState,
};
use vacuum::path::RealPath;
use vacuum::text::{contains, decimal_text};
use vacuum::{Action, App, Dependency, DependencyCheck};

fn dependency(name: &str, block: &str) -> Dependency {
    Dependency {
        name: name.to_string(),
        block: block.to_string(),
    }
}

fn pip_app() -> App {
    App {
        name: "demo".to_string(),
        dependencies: Some(vec![dependency("pip", "pip block text")]),
        actions: vec![],
    }
}

fn file_exists(rule: &str) -> DependencyCheck {
    DependencyCheck::Exists(rule.to_string())
}

fn text_holds(needle: &str, rule: &str) -> DependencyCheck {
    DependencyCheck::Contains(needle.to_string(), rule.to_string())
}

fn present(text: &str) -> FileState {
    FileState::Present(text.to_string())
}

#[test]
fn exists_reports_the_block_once_for_a_file_that_exists() {
    let app = pip_app();
    let analyzer = DependencyAnalyzer::new(&app);
    assert_eq!(
        analyzer.analyze(&present("anything"), &vec![file_exists("pip")]),
        Ok(vec!["pip block text".to_string()])
    );
    assert_eq!(
        analyzer.analyze(&FileState::Unreadable, &vec![file_exists("pip")]),
        Ok(vec!["pip block text".to_string()])
    );
}

#[test]
fn exists_reports_nothing_for_a_missing_file() {
    let app = pip_app();
    let analyzer = DependencyAnalyzer::new(&app);
    assert_eq!(
        analyzer.analyze(&FileState::Missing, &vec![file_exists("pip")]),
        Ok(vec![])
    );
}

#[test]
fn contains_reports_the_block_where_the_text_holds_the_needle() {
    let app = pip_app();
    let analyzer = DependencyAnalyzer::new(&app);
    assert_eq!(
        analyzer.analyze(
            &present("numpy\ntorch==2.0\n"),
            &vec![text_holds("torch", "pip")]
        ),
        Ok(vec!["pip block text".to_string()])
    );
}

#[test]
fn contains_reports_nothing_without_the_needle() {
    let app = pip_app();
    let analyzer = DependencyAnalyzer::new(&app);
    assert_eq!(
        analyzer.analyze(&present("numpy\ntorc h\n"), &vec![text_holds("torch", "pip")]),
        Ok(vec![])
    );
    assert_eq!(
        analyzer.analyze(&FileState::Missing, &vec![text_holds("torch", "pip")]),
        Ok(vec![])
    );
}

#[test]
fn unknown_rules_report_nothing() {
    let app = pip_app();
    let analyzer = DependencyAnalyzer::new(&app);
    assert_eq!(
        analyzer.analyze(
            &present("torch"),
            &vec![file_exists("npm"), text_holds("torch", "conda")]
        ),
        Ok(vec![])
    );
}

#[test]
fn profile_without_dependencies_reports_nothing() {
    let app = App {
        name: "bare".to_string(),
        dependencies: None,
        actions: vec![],
    };
    let analyzer = DependencyAnalyzer::new(&app);
    assert_eq!(
        analyzer.analyze(&present("x"), &vec![file_exists("pip")]),
        Ok(vec![])
    );
    assert_eq!(analyzer.block_of(&"pip".to_string()), None);
}

#[test]
fn every_check_is_evaluated_in_order() {
    let app = App {
        name: "demo".to_string(),
        dependencies: Some(vec![dependency("pip", "P"), dependency("npm", "N")]),
        actions: vec![],
    };
    let analyzer = DependencyAnalyzer::new(&app);
    let checks = vec![
        file_exists("npm"),
        text_holds("torch", "pip"),
        text_holds("absent", "npm"),
        file_exists("pip"),
        file_exists("npm"),
    ];
    assert_eq!(
        analyzer.analyze(&present("torch"), &checks),
        Ok(vec![
            "N".to_string(),
            "P".to_string(),
            "P".to_string(),
            "N".to_string()
        ])
    );
}

#[test]
fn evaluating_twice_reports_the_same_blocks() {
    let app = pip_app();
    let analyzer = DependencyAnalyzer::new(&app);
    let checks = vec![file_exists("pip"), text_holds("torch", "pip")];
    let file = present("torch");
    assert_eq!(
        analyzer.analyze(&file, &checks),
        analyzer.analyze(&file, &checks)
    );
    assert_eq!(app, pip_app());
}

#[test]
fn later_dependency_of_the_same_name_wins() {
    let app = App {
        name: "demo".to_string(),
        dependencies: Some(vec![
            dependency("pip", "first"),
            dependency("npm", "other"),
            dependency("pip", "second"),
        ]),
        actions: vec![],
    };
    let analyzer = DependencyAnalyzer::new(&app);
    assert_eq!(
        analyzer.block_of(&"pip".to_string()),
        Some("second".to_string())
    );
    assert_eq!(
        analyzer.block_of(&"npm".to_string()),
        Some("other".to_string())
    );
    assert_eq!(analyzer.block_of(&"gem".to_string()), None);
}

#[test]
fn unreadable_file_fails_a_contains_check() {
    let app = pip_app();
    let analyzer = DependencyAnalyzer::new(&app);
    assert_eq!(
        analyzer.analyze(
            &FileState::Unreadable,
            &vec![file_exists("pip"), text_holds("torch", "pip")]
        ),
        Err(AnalyzeError::Unreadable)
    );
    assert_eq!(
        analyzer.analyze(&FileState::Unreadable, &vec![text_holds("torch", "unknown")]),
        Err(AnalyzeError::Unreadable)
    );
    assert_eq!(analyzer.analyze(&FileState::Unreadable, &vec![]), Ok(vec![]));
}

#[test]
fn handle_file_without_checks_reports_nothing() {
    let app = pip_app();
    let analyzer = DependencyAnalyzer::new(&app);
    assert_eq!(analyzer.handle_file(&present("torch"), &None), Ok(vec![]));
    assert_eq!(
        analyzer.handle_file(&FileState::Unreadable, &None),
        Ok(vec![])
    );
    assert_eq!(
        analyzer.handle_file(&present("torch"), &Some(vec![file_exists("pip")])),
        Ok(vec!["pip block text".to_string()])
    );
    assert_eq!(
        analyzer.handle_file(&FileState::Unreadable, &Some(vec![text_holds("a", "pip")])),
        Err(AnalyzeError::Unreadable)
    );
}

#[test]
fn other_hooks_report_nothing() {
    let app = pip_app();
    let analyzer = DependencyAnalyzer::new(&app);
    assert_eq!(analyzer.handle_files("*.txt"), Ok(vec![]));
    assert_eq!(analyzer.handle_execute("ls", &None), Ok(vec![]));
    assert_eq!(
        analyzer.handle_execute("ls", &Some("/tmp".to_string())),
        Ok(vec![])
    );
}

#[test]
fn usecase_looks_for_files_below_the_application_directory() {
    let usecase = DepsUseCase::new(RealPath::from_text("/apps/demo"));
    assert_eq!(usecase.app_dir, RealPath::from_text("/apps/demo"));
    assert_eq!(
        usecase.file_path("requirements.txt"),
        RealPath::from_text("/apps/demo/requirements.txt")
    );
}

fn probe(file_name: &str, state: FileState, checks: Option<Vec<DependencyCheck>>) -> FileProbe {
    FileProbe {
        file_name: file_name.to_string(),
        state,
        checks,
    }
}

#[test]
fn run_walks_the_actions_in_order() {
    let app = App {
        name: "demo".to_string(),
        dependencies: Some(vec![dependency("pip", "P"), dependency("npm", "N")]),
        actions: vec![
            Action::Execute("ls".to_string()),
            Action::Copy("package".to_string()),
            Action::CopyGlob("requirements".to_string()),
            Action::Copy("requirements".to_string()),
            Action::Copy("unprobed".to_string()),
            Action::Copy("package".to_string()),
        ],
    };
    let probes = vec![
        probe(
            "requirements",
            present("torch"),
            Some(vec![text_holds("torch", "pip"), file_exists("pip")]),
        ),
        probe("package", present("{}"), Some(vec![file_exists("npm")])),
        probe("package", FileState::Missing, Some(vec![file_exists("pip")])),
        probe("unused", present(""), Some(vec![file_exists("pip")])),
    ];
    let usecase = DepsUseCase::new(RealPath::from_text("/apps/demo"));
    assert_eq!(
        usecase.run(&app, &probes),
        Ok(vec![
            "N".to_string(),
            "P".to_string(),
            "P".to_string(),
            "N".to_string()
        ])
    );
}

#[test]
fn run_without_actions_reports_nothing() {
    let usecase = DepsUseCase::new(RealPath::from_text("/apps/demo"));
    assert_eq!(
        usecase.run(
            &pip_app(),
            &vec![probe("a", present(""), Some(vec![file_exists("pip")]))]
        ),
        Ok(vec![])
    );
}

#[test]
fn run_stops_at_the_first_failure() {
    let app = App {
        name: "demo".to_string(),
        dependencies: Some(vec![dependency("pip", "P")]),
        actions: vec![
            Action::Copy("good".to_string()),
            Action::Copy("bad".to_string()),
            Action::Copy("good".to_string()),
        ],
    };
    let probes = vec![
        probe("good", present("x"), Some(vec![file_exists("pip")])),
        probe("bad", FileState::Unreadable, Some(vec![text_holds("x", "pip")])),
    ];
    let usecase = DepsUseCase::new(RealPath::from_text("/apps/demo"));
    assert_eq!(usecase.run(&app, &probes), Err(AnalyzeError::Unreadable));
}

#[test]
fn run_without_checks_for_a_file_reports_nothing() {
    let app = App {
        name: "demo".to_string(),
        dependencies: Some(vec![dependency("pip", "P")]),
        actions: vec![Action::Copy("file".to_string())],
    };
    let usecase = DepsUseCase::new(RealPath::from_text("/apps/demo"));
    assert_eq!(
        usecase.run(&app, &vec![probe("file", FileState::Unreadable, None)]),
        Ok(vec![])
    );
}

#[test]
fn contains_finds_contiguous_parts() {
    assert!(contains("hello world", "lo w"));
    assert!(contains("hello", "hello"));
    assert!(contains("hello", ""));
    assert!(contains("", ""));
    assert!(contains("aab", "ab"));
    assert!(contains("na\u{ef}ve caf\u{e9}", "f\u{e9}"));
    assert!(!contains("hello", "hellos"));
    assert!(!contains("hello", "lol"));
    assert!(!contains("", "a"));
    assert!(!contains("abc", "ca"));
}

#[test]
fn decimal_text_writes_numerals() {
    assert_eq!(decimal_text(0), "0");
    assert_eq!(decimal_text(7), "7");
    assert_eq!(decimal_text(10), "10");
    assert_eq!(decimal_text(405), "405");
    assert_eq!(decimal_text(usize::MAX), usize::MAX.to_string());
}

use import_meta_env::cli::Cli;
use import_meta_env::failure::Failure;
use import_meta_env::populate::{backup_path, is_backup_path, plan_path, PathPlan};

#[test]
fn backup_paths_end_in_the_suffix() {
    for path in [".bak", "a.bak", "dist/index.js.bak", "a.bak.bak", "\u{e9}.bak"] {
        assert!(is_backup_path(path), "{}", path);
        assert_eq!(plan_path(path), PathPlan::Skip);
    }
    for path in ["", "bak", "a.bak.js", "a.BAK", "a.bak ", "a.ba", "dist/index.js", "abak"] {
        assert!(!is_backup_path(path), "{}", path);
    }
}

#[test]
fn backup_stands_beside_the_file() {
    assert_eq!(backup_path("dist/index.js"), "dist/index.js.bak");
    assert_eq!(backup_path(""), ".bak");
    assert_eq!(
        plan_path("dist/index.js"),
        PathPlan::Populate { backup: "dist/index.js.bak".to_string() }
    );
}

#[test]
fn backup_of_a_backup_is_never_made() {
    for path in ["index.js", "a", "", "dist/a.css"] {
        match plan_path(path) {
            PathPlan::Populate { backup } => assert_eq!(plan_path(&backup), PathPlan::Skip),
            PathPlan::Skip => panic!("{} is no backup", path),
        }
    }
}

#[test]
fn defaults_of_the_arguments() {
    let args = Cli::new(".env.example".to_string());
    assert_eq!(args.env, ".env");
    assert_eq!(args.example, ".env.example");
    assert_eq!(args.output, vec!["dist/**/*", ".next/**/*", ".nuxt/**/*", ".output/**/*", "build/**/*"]);
    assert_eq!(args.disposable, false);
}

#[test]
fn messages_of_the_failures() {
    assert_eq!(
        Failure::ExampleUnreadable { path: "a/b".to_string() }.message(),
        "Failed to load example file: a/b"
    );
    assert_eq!(Failure::InvalidPattern.message(), "Failed to read glob pattern");
    assert_eq!(
        Failure::NoOutputFile { patterns: vec!["a".to_string(), "b".to_string(), "c".to_string()] }
            .message(),
        "Output file not found: a, b, c"
    );
    assert_eq!(Failure::NoOutputFile { patterns: Vec::new() }.message(), "Output file not found: ");
    assert_eq!(Failure::Serialization.message(), "Failed to serialize public env");
    assert_eq!(Failure::UnreadableOutput.message(), "Failed to read output file");
}

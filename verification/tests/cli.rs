use import_meta_env::backup::populate_file;
use import_meta_env::cli::{assert_cli_arg, assert_example_arg, assert_output_arg, Cli, Expansion};
use import_meta_env::env::{resolve, variables_of};
use import_meta_env::failure::Failure;
use import_meta_env::json::serialize;
use import_meta_env::populate::{plan_path, PathPlan};

/// One output file and its backup, as a run finds and leaves them.
struct Files {
    output: Option<String>,
    backup: Option<String>,
}

/// The keys of an example file with the given lines.
fn example_keys(lines: &[&str]) -> Vec<String> {
    lines.iter().map(|line| line.split('=').next().unwrap().to_string()).collect()
}

/// The serialized environment for the keys of an example file, the
/// variables of the process and the entries of an env file.
fn serialized(example: &[&str], process: &[(&str, &str)], env_file: &[(&str, &str)]) -> String {
    let owned = |entries: &[(&str, &str)]| -> Vec<(String, String)> {
        entries.iter().map(|(name, value)| (name.to_string(), value.to_string())).collect()
    };
    let vars = variables_of(&owned(process), &owned(env_file));
    serialize(&resolve(&example_keys(example), &vars)).unwrap()
}

/// A run over one matched path.
fn run(path: &str, files: &mut Files, disposable: bool, serialized: &str) -> Result<(), Failure> {
    match plan_path(path) {
        PathPlan::Skip => Ok(()),
        PathPlan::Populate { backup } => {
            assert_eq!(backup, format!("{}{}", path, ".bak"));
            let update =
                populate_file(disposable, files.output.as_deref(), files.backup.as_deref(), serialized)?;
            if update.restore {
                files.output = files.backup.clone();
            }
            if let Some(text) = update.backup {
                files.backup = Some(text);
            }
            files.output = Some(update.output);
            Ok(())
        }
    }
}

fn args(example: &str, output: &[&str]) -> Cli {
    let mut args = Cli::new(example.to_string());
    args.output = output.iter().map(|pattern| pattern.to_string()).collect();
    args
}

#[test]
fn example_file_does_not_exist() {
    let args = Cli::new("file-does-not-exist".to_string());
    let expansions = vec![Expansion::Matched(0); 5];
    let failure = assert_cli_arg(&args, false, &expansions).unwrap_err();
    assert_eq!(failure, Failure::ExampleUnreadable { path: "file-does-not-exist".to_string() });
    assert_eq!(failure.message(), "Failed to load example file: file-does-not-exist");
    assert_eq!(assert_example_arg(&args, false), Err(failure));
    assert_eq!(assert_example_arg(&args, true), Ok(()));
}

#[test]
fn output_contains_invalid_glob_pattern() {
    let args = args(".env.example", &["***"]);
    let failure = assert_cli_arg(&args, true, &vec![Expansion::Invalid]).unwrap_err();
    assert_eq!(failure, Failure::InvalidPattern);
    assert!(failure.message().contains("Failed to read glob pattern"));
}

#[test]
fn output_file_does_not_exist() {
    let args = args(".env.example", &["foo/**", "bar/**"]);
    let expansions = vec![Expansion::Matched(0), Expansion::Matched(0)];
    let failure = assert_cli_arg(&args, true, &expansions).unwrap_err();
    assert_eq!(
        failure,
        Failure::NoOutputFile { patterns: vec!["foo/**".to_string(), "bar/**".to_string()] }
    );
    assert!(failure.message().contains("Output file not found: foo/**, bar/**"));
    assert_eq!(assert_output_arg(&args, &expansions), Err(failure));
}

#[test]
fn populate_environment_variables() {
    let serialized = serialized(&["FOO="], &[], &[]);
    let mut files = Files {
        output: Some("const foo = \"__import_meta_env_placeholder__\".FOO;".to_string()),
        backup: None,
    };
    run("index.js", &mut files, false, &serialized).unwrap();
    assert_eq!(files.output.unwrap(), "const foo = {}.FOO;");
}

#[test]
fn populate_environment_variables_from_system() {
    let serialized = serialized(&["FOO=123"], &[("FOO", "bar")], &[]);
    let mut files = Files {
        output: Some("const foo = \"__import_meta_env_placeholder__\".FOO;".to_string()),
        backup: None,
    };
    run("index.js", &mut files, false, &serialized).unwrap();
    assert_eq!(files.output.unwrap(), "const foo = {\"FOO\":\"bar\"}.FOO;");
}

#[test]
fn populate_environment_variables_from_env_file() {
    let serialized = serialized(&["FOO=123"], &[], &[("FOO", "baz")]);
    let mut files = Files {
        output: Some("const foo = \"__import_meta_env_placeholder__\".FOO;".to_string()),
        backup: None,
    };
    run("index.js", &mut files, false, &serialized).unwrap();
    assert_eq!(files.output.unwrap(), "const foo = {\"FOO\":\"baz\"}.FOO;");
}

#[test]
fn populate_environment_variables_for_single_quotes() {
    let serialized = serialized(&["FOO=123"], &[], &[("FOO", "baz")]);
    let mut files = Files {
        output: Some("const foo = \'__import_meta_env_placeholder__\'.FOO;".to_string()),
        backup: None,
    };
    run("index.js", &mut files, false, &serialized).unwrap();
    assert_eq!(files.output.unwrap(), "const foo = {\"FOO\":\"baz\"}.FOO;");
}

#[test]
fn populate_all_environment_variables() {
    let serialized = serialized(&["FOO=123"], &[], &[("FOO", "foo")]);
    let mut files = Files {
        output: Some(
            "
            const foo1 = \'__import_meta_env_placeholder__\'.FOO;
            const foo2 = \'__import_meta_env_placeholder__\'.FOO;
        "
            .to_string(),
        ),
        backup: None,
    };
    run("index.js", &mut files, false, &serialized).unwrap();
    assert_eq!(
        files.output.unwrap(),
        "
            const foo1 = {\"FOO\":\"foo\"}.FOO;
            const foo2 = {\"FOO\":\"foo\"}.FOO;
        "
    );
}

#[test]
fn populate_environment_variables_for_arrow_functions() {
    let serialized = serialized(&["FOO=123"], &[], &[("FOO", "foo")]);
    let mut files = Files {
        output: Some(
            "
            ()=>'__import_meta_env_placeholder__'.FOO;
            () =>

                '__import_meta_env_placeholder__'.FOO;
        "
            .to_string(),
        ),
        backup: None,
    };
    run("index.js", &mut files, false, &serialized).unwrap();
    assert_eq!(
        files.output.unwrap(),
        "
            ()=>({\"FOO\":\"foo\"}).FOO;
            () =>

                ({\"FOO\":\"foo\"}).FOO;
        ",
    );
}

#[test]
fn backup_if_disposable_flag_disabled() {
    let serialized = serialized(&["FOO=123"], &[], &[("FOO", "baz")]);
    let mut files = Files {
        output: Some("const foo = \"__import_meta_env_placeholder__\".FOO;".to_string()),
        backup: None,
    };
    run("index.js", &mut files, false, &serialized).unwrap();
    assert_eq!(files.output.unwrap(), "const foo = {\"FOO\":\"baz\"}.FOO;");
    assert_eq!(files.backup.unwrap(), "const foo = \"__import_meta_env_placeholder__\".FOO;");
}

#[test]
fn restore_if_disposable_flag_disabled() {
    let serialized = serialized(&["FOO=123"], &[], &[("FOO", "baz")]);
    let mut files = Files {
        output: Some("const foo = {\"FOO\":\"bar\"}.FOO;".to_string()),
        backup: Some("const foo = \"__import_meta_env_placeholder__\".FOO;".to_string()),
    };
    run("index.js", &mut files, false, &serialized).unwrap();
    assert_eq!(files.output.unwrap(), "const foo = {\"FOO\":\"baz\"}.FOO;");
    assert_eq!(files.backup.unwrap(), "const foo = \"__import_meta_env_placeholder__\".FOO;");
}

#[test]
fn try_to_restore_if_disposable_flag_disabled() {
    let serialized = serialized(&["FOO=123"], &[], &[("FOO", "baz")]);
    let mut files = Files {
        output: Some("const foo = \"__import_meta_env_placeholder__\".FOO;".to_string()),
        backup: None,
    };
    let update = populate_file(false, files.output.as_deref(), None, &serialized).unwrap();
    assert!(!update.restore);
    run("index.js", &mut files, false, &serialized).unwrap();
    assert_eq!(files.output.unwrap(), "const foo = {\"FOO\":\"baz\"}.FOO;");
    assert_eq!(files.backup.unwrap(), "const foo = \"__import_meta_env_placeholder__\".FOO;");
}

#[test]
fn do_not_try_to_restore_and_backup_if_disposable_flag_enabled() {
    let serialized = serialized(&["FOO=123"], &[], &[("FOO", "baz")]);
    let mut files = Files {
        output: Some("const foo = \"__import_meta_env_placeholder__\".FOO;".to_string()),
        backup: Some("const foo = {\"FOO\":\"bar\"}.FOO;".to_string()),
    };
    run("index.js", &mut files, true, &serialized).unwrap();
    assert_eq!(files.output.unwrap(), "const foo = {\"FOO\":\"baz\"}.FOO;");
    assert_eq!(files.backup.unwrap(), "const foo = {\"FOO\":\"bar\"}.FOO;");
}

#[test]
fn do_not_try_to_restore_if_backup_does_not_contains_placeholder() {
    let serialized = serialized(&["FOO=123"], &[], &[("FOO", "baz")]);
    let mut files = Files {
        output: Some("const foo = \"__import_meta_env_placeholder__\".FOO;".to_string()),
        backup: Some("// should not restore from this file!".to_string()),
    };
    run("index.js", &mut files, false, &serialized).unwrap();
    assert_eq!(files.output.unwrap(), "const foo = {\"FOO\":\"baz\"}.FOO;");
    assert_eq!(files.backup.unwrap(), "const foo = \"__import_meta_env_placeholder__\".FOO;");
}

#[test]
fn do_not_backup_if_it_does_not_contains_placeholder() {
    let serialized = serialized(&["FOO=123"], &[], &[("FOO", "baz")]);
    let mut files = Files { output: Some("// do not backup this file".to_string()), backup: None };
    run("index.js", &mut files, false, &serialized).unwrap();
    assert_eq!(files.output.unwrap(), "// do not backup this file");
    assert_eq!(files.backup.is_some(), false);
}

#[test]
fn do_not_backup_or_populate_if_it_is_a_backup_file() {
    let serialized = serialized(&["FOO=123"], &[], &[("FOO", "baz")]);
    let mut files = Files {
        output: Some("const foo = \"__import_meta_env_placeholder__\".FOO;".to_string()),
        backup: None,
    };
    run("index.js.bak", &mut files, false, &serialized).unwrap();
    assert_eq!(files.output.unwrap(), "const foo = \"__import_meta_env_placeholder__\".FOO;");
    assert_eq!(files.backup.is_some(), false);
}

#[test]
fn invalid_pattern_comes_before_the_lack_of_a_match() {
    let args = args(".env.example", &["a", "***", "b"]);
    for expansions in [
        vec![Expansion::Matched(0), Expansion::Invalid],
        vec![Expansion::Matched(3), Expansion::Invalid, Expansion::Matched(1)],
        vec![Expansion::Invalid],
    ] {
        assert_eq!(assert_output_arg(&args, &expansions), Err(Failure::InvalidPattern));
    }
}

#[test]
fn one_match_is_enough() {
    let args = args(".env.example", &["a", "b", "c"]);
    for expansions in [
        vec![Expansion::Matched(1)],
        vec![Expansion::Matched(0), Expansion::Matched(0), Expansion::Matched(7)],
        vec![Expansion::Matched(usize::MAX), Expansion::Matched(usize::MAX)],
    ] {
        assert_eq!(assert_output_arg(&args, &expansions), Ok(()));
        assert_eq!(assert_cli_arg(&args, true, &expansions), Ok(()));
    }
}

#[test]
fn example_file_is_checked_first() {
    let args = args("missing", &["***"]);
    assert_eq!(
        assert_cli_arg(&args, false, &vec![Expansion::Invalid]),
        Err(Failure::ExampleUnreadable { path: "missing".to_string() })
    );
    assert_eq!(
        assert_cli_arg(&args, false, &vec![Expansion::Matched(1)]),
        Err(Failure::ExampleUnreadable { path: "missing".to_string() })
    );
}

#[test]
fn no_pattern_matches_no_file() {
    let args = args(".env.example", &[]);
    assert_eq!(
        assert_output_arg(&args, &Vec::new()),
        Err(Failure::NoOutputFile { patterns: Vec::new() })
    );
}

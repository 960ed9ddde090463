use import_meta_env::backup::{populate_file, FileUpdate};
use import_meta_env::failure::Failure;

const TEMPLATE: &str = "const foo = \"__import_meta_env_placeholder__\".FOO;";
const BAR: &str = "{\"FOO\":\"bar\"}";
const BAZ: &str = "{\"FOO\":\"baz\"}";

/// The two files after a run on them.
fn after(
    disposable: bool,
    output: Option<&str>,
    backup: Option<&str>,
    serialized: &str,
) -> (Option<String>, Option<String>) {
    match populate_file(disposable, output, backup, serialized) {
        Ok(update) => {
            let saved = match update.backup {
                Some(text) => Some(text),
                None => backup.map(|text| text.to_string()),
            };
            (Some(update.output), saved)
        }
        Err(_) => (output.map(|text| text.to_string()), backup.map(|text| text.to_string())),
    }
}

#[test]
fn template_is_backed_up_and_populated() {
    assert_eq!(
        populate_file(false, Some(TEMPLATE), None, BAR),
        Ok(FileUpdate {
            restore: false,
            backup: Some(TEMPLATE.to_string()),
            output: "const foo = {\"FOO\":\"bar\"}.FOO;".to_string(),
        })
    );
}

#[test]
fn backup_with_placeholder_is_restored() {
    assert_eq!(
        populate_file(false, Some("const foo = {\"FOO\":\"bar\"}.FOO;"), Some(TEMPLATE), BAZ),
        Ok(FileUpdate {
            restore: true,
            backup: Some(TEMPLATE.to_string()),
            output: "const foo = {\"FOO\":\"baz\"}.FOO;".to_string(),
        })
    );
}

#[test]
fn backup_with_single_quoted_placeholder_is_restored() {
    let template = "f = () => '__import_meta_env_placeholder__'";
    assert_eq!(
        populate_file(false, Some("f = () => ({})"), Some(template), BAZ),
        Ok(FileUpdate {
            restore: true,
            backup: Some(template.to_string()),
            output: "f = () => ({\"FOO\":\"baz\"})".to_string(),
        })
    );
}

#[test]
fn backup_without_placeholder_is_not_restored() {
    assert_eq!(
        populate_file(false, Some(TEMPLATE), Some("// should not restore from this file!"), BAZ),
        Ok(FileUpdate {
            restore: false,
            backup: Some(TEMPLATE.to_string()),
            output: "const foo = {\"FOO\":\"baz\"}.FOO;".to_string(),
        })
    );
}

#[test]
fn no_backup_is_made_without_placeholder() {
    assert_eq!(
        populate_file(false, Some("// do not backup this file"), None, BAZ),
        Ok(FileUpdate {
            restore: false,
            backup: None,
            output: "// do not backup this file".to_string(),
        })
    );
    assert_eq!(
        populate_file(false, Some("x"), Some("stale"), BAZ),
        Ok(FileUpdate { restore: false, backup: None, output: "x".to_string() })
    );
}

#[test]
fn disposable_run_leaves_the_backup_alone() {
    assert_eq!(
        populate_file(true, Some(TEMPLATE), Some("const foo = {\"FOO\":\"bar\"}.FOO;"), BAZ),
        Ok(FileUpdate {
            restore: false,
            backup: None,
            output: "const foo = {\"FOO\":\"baz\"}.FOO;".to_string(),
        })
    );
    assert_eq!(
        populate_file(true, Some("populated"), Some(TEMPLATE), BAZ),
        Ok(FileUpdate { restore: false, backup: None, output: "populated".to_string() })
    );
}

#[test]
fn missing_output_file_fails() {
    assert_eq!(populate_file(false, None, None, BAR), Err(Failure::UnreadableOutput));
    assert_eq!(populate_file(false, None, Some("no placeholder"), BAR), Err(Failure::UnreadableOutput));
    assert_eq!(populate_file(true, None, Some(TEMPLATE), BAR), Err(Failure::UnreadableOutput));
}

#[test]
fn missing_output_file_is_restored_from_its_backup() {
    assert_eq!(
        populate_file(false, None, Some(TEMPLATE), BAR),
        Ok(FileUpdate {
            restore: true,
            backup: Some(TEMPLATE.to_string()),
            output: "const foo = {\"FOO\":\"bar\"}.FOO;".to_string(),
        })
    );
}

#[test]
fn second_run_changes_nothing() {
    for (output, backup) in [
        (Some(TEMPLATE), None),
        (Some("populated"), Some(TEMPLATE)),
        (Some("plain"), None),
        (Some("plain"), Some("stale")),
        (Some(TEMPLATE), Some("stale")),
        (None, Some(TEMPLATE)),
    ] {
        let (output1, backup1) = after(false, output, backup, BAR);
        let (output2, backup2) = after(false, output1.as_deref(), backup1.as_deref(), BAR);
        assert_eq!(output2, output1);
        assert_eq!(backup2, backup1);
        let (output3, backup3) = after(false, output2.as_deref(), backup2.as_deref(), BAR);
        assert_eq!(output3, output1);
        assert_eq!(backup3, backup1);
    }
}

#[test]
fn later_run_shows_the_current_environment_only() {
    let (output1, backup1) = after(false, Some(TEMPLATE), None, BAR);
    assert_eq!(output1.as_deref(), Some("const foo = {\"FOO\":\"bar\"}.FOO;"));
    assert_eq!(backup1.as_deref(), Some(TEMPLATE));
    let (output2, backup2) = after(false, output1.as_deref(), backup1.as_deref(), BAZ);
    assert_eq!(output2.as_deref(), Some("const foo = {\"FOO\":\"baz\"}.FOO;"));
    assert_eq!(backup2.as_deref(), Some(TEMPLATE));
    assert_eq!((output2, backup2), after(false, Some(TEMPLATE), None, BAZ));
}

#[test]
fn rebuilt_file_replaces_the_template() {
    let rebuilt = "const foo = '__import_meta_env_placeholder__'.FOO; // v2";
    let (output1, backup1) = after(false, Some(TEMPLATE), None, BAR);
    assert_eq!(backup1.as_deref(), Some(TEMPLATE));
    assert_eq!(output1.as_deref(), Some("const foo = {\"FOO\":\"bar\"}.FOO;"));
    let (output2, backup2) = after(true, Some(rebuilt), backup1.as_deref(), BAR);
    assert_eq!(output2.as_deref(), Some("const foo = {\"FOO\":\"bar\"}.FOO; // v2"));
    assert_eq!(backup2.as_deref(), Some(TEMPLATE));
}

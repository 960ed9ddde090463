use import_meta_env::env::{resolve, variables_of, Variables};

fn names(list: &[&str]) -> Vec<String> {
    list.iter().map(|name| name.to_string()).collect()
}

fn pairs(list: &[(&str, &str)]) -> Vec<(String, String)> {
    list.iter().map(|(name, value)| (name.to_string(), value.to_string())).collect()
}

#[test]
fn new_store_defines_nothing() {
    let vars = Variables::new();
    assert_eq!(vars.get("FOO"), None);
    assert_eq!(vars.get(""), None);
}

#[test]
fn first_definition_stays() {
    let mut vars = Variables::new();
    vars.define("FOO", "bar");
    vars.define("FOO", "baz");
    vars.define("BAR", "");
    assert_eq!(vars.get("FOO"), Some("bar".to_string()));
    assert_eq!(vars.get("BAR"), Some("".to_string()));
    assert_eq!(vars.get("foo"), None);
    assert_eq!(vars.get("FOO "), None);
}

#[test]
fn process_decides_over_the_env_file() {
    let mut vars = Variables::new();
    vars.define("FOO", "process");
    vars.load(&pairs(&[("FOO", "file"), ("BAR", "file"), ("BAR", "again")]));
    assert_eq!(vars.get("FOO"), Some("process".to_string()));
    assert_eq!(vars.get("BAR"), Some("file".to_string()));
}

#[test]
fn loading_nothing_changes_nothing() {
    let mut vars = Variables::new();
    vars.define("FOO", "bar");
    vars.load(&Vec::new());
    assert_eq!(vars.get("FOO"), Some("bar".to_string()));
    assert_eq!(vars.get("BAR"), None);
}

#[test]
fn unresolved_variable_is_omitted() {
    let vars = Variables::new();
    assert_eq!(resolve(&names(&["FOO"]), &vars), Vec::new());
    let mut vars = Variables::new();
    vars.define("BAR", "1");
    assert_eq!(resolve(&names(&["FOO", "BAR", "BAZ"]), &vars), pairs(&[("BAR", "1")]));
}

#[test]
fn only_permitted_names_are_resolved() {
    let mut vars = Variables::new();
    vars.load(&pairs(&[("SECRET", "s"), ("FOO", "f")]));
    assert_eq!(resolve(&names(&["FOO"]), &vars), pairs(&[("FOO", "f")]));
    assert_eq!(resolve(&names(&[]), &vars), Vec::new());
}

#[test]
fn names_resolve_once_in_the_order_of_the_example() {
    let mut vars = Variables::new();
    vars.load(&pairs(&[("A", "1"), ("B", "2"), ("C", "3")]));
    assert_eq!(
        resolve(&names(&["C", "A", "C", "X", "B", "A"]), &vars),
        pairs(&[("C", "3"), ("A", "1"), ("B", "2")])
    );
}

#[test]
fn empty_value_is_a_value() {
    let mut vars = Variables::new();
    vars.define("FOO", "");
    assert_eq!(resolve(&names(&["FOO"]), &vars), pairs(&[("FOO", "")]));
}

#[test]
fn variables_of_a_run_let_the_process_decide() {
    let vars = variables_of(
        &pairs(&[("FOO", "process"), ("ONLY_PROCESS", "p")]),
        &pairs(&[("FOO", "file"), ("BAR", "first"), ("BAR", "second"), ("ONLY_FILE", "f")]),
    );
    assert_eq!(vars.get("FOO"), Some("process".to_string()));
    assert_eq!(vars.get("ONLY_PROCESS"), Some("p".to_string()));
    assert_eq!(vars.get("BAR"), Some("first".to_string()));
    assert_eq!(vars.get("ONLY_FILE"), Some("f".to_string()));
    assert_eq!(vars.get("NONE"), None);
}

#[test]
fn variables_of_nothing_define_nothing() {
    let vars = variables_of(&Vec::new(), &Vec::new());
    assert_eq!(vars.get("FOO"), None);
    assert_eq!(resolve(&names(&["FOO"]), &vars), Vec::new());
}

use fmusim_gui::{
    clone_names, contains_name, find_variable, plottable_outputs, remove_name, resolve_outputs,
    VariableInfo, VariableKind,
};

fn var(name: &str, is_output: bool) -> VariableInfo {
    VariableInfo {
        name: name.to_string(),
        description: Some(format!("the {name}")),
        causality: "Local".to_string(),
        kind: VariableKind::Float,
        is_output,
    }
}

fn vars() -> Vec<VariableInfo> {
    vec![var("time", false), var("x", true), var("y", false), var("x", true), var("z", true)]
}

#[test]
fn no_selection_resolves_all_outputs() {
    assert_eq!(resolve_outputs(&vec![], &vars()), Ok(vec![1, 3, 4]));
    assert_eq!(resolve_outputs(&vec![], &vec![]), Ok(vec![]));
}

#[test]
fn selection_resolves_first_variable_of_each_name() {
    let sel = vec!["z".to_string(), "x".to_string(), "y".to_string()];
    assert_eq!(resolve_outputs(&sel, &vars()), Ok(vec![4, 1, 2]));
}

#[test]
fn unknown_output_is_an_error() {
    let sel = vec!["x".to_string(), "w".to_string(), "q".to_string()];
    assert_eq!(
        resolve_outputs(&sel, &vars()),
        Err("Unknown output variable: w".to_string())
    );
}

#[test]
fn finding_variables() {
    assert_eq!(find_variable(&vars(), &"x".to_string()), Some(1));
    assert_eq!(find_variable(&vars(), &"time".to_string()), Some(0));
    assert_eq!(find_variable(&vars(), &"nope".to_string()), None);
}

#[test]
fn copying_names() {
    let names = vec!["a".to_string(), "b".to_string()];
    assert_eq!(clone_names(&names), names);
}

#[test]
fn plottable_output_names_in_order() {
    let mut vs = vars();
    vs[3].kind = VariableKind::Binary;
    let names = plottable_outputs(&vs);
    assert_eq!(names, vec!["x".to_string(), "z".to_string()]);
}

#[test]
fn name_lists() {
    let names = vec!["a".to_string(), "b".to_string(), "a".to_string()];
    assert!(contains_name(&names, &"b".to_string()));
    assert!(!contains_name(&names, &"c".to_string()));
    assert_eq!(remove_name(&names, &"a".to_string()), vec!["b".to_string()]);
    assert_eq!(remove_name(&names, &"c".to_string()), names);
}

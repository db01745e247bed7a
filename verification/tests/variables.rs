use inline_c::Variables;

#[test]
fn new_variables_are_none() {
    let variables = Variables::new();
    assert_eq!(variables.len(), 0);
    assert_eq!(variables.get("A"), None);
}

#[test]
fn a_name_has_the_value_it_was_given() {
    let mut variables = Variables::new();
    variables.insert("A".to_string(), "1".to_string());
    variables.insert("B".to_string(), "2".to_string());
    assert_eq!(variables.get("A"), Some(&"1".to_string()));
    assert_eq!(variables.get("B"), Some(&"2".to_string()));
    assert_eq!(variables.get("C"), None);
    assert_eq!(variables.get("a"), None);
    assert_eq!(variables.len(), 2);
}

#[test]
fn a_new_value_replaces_the_old_one() {
    let mut variables = Variables::new();
    variables.insert("A".to_string(), "1".to_string());
    variables.insert("B".to_string(), "2".to_string());
    variables.insert("A".to_string(), "3".to_string());
    assert_eq!(variables.get("A"), Some(&"3".to_string()));
    assert_eq!(variables.len(), 2);
    assert_eq!(variables.entry(0), &("A".to_string(), "3".to_string()));
    assert_eq!(variables.entry(1), &("B".to_string(), "2".to_string()));
}

#[test]
fn a_copy_holds_the_same() {
    let mut variables = Variables::new();
    variables.insert("A".to_string(), "1".to_string());
    let copy = variables.copy();
    variables.insert("A".to_string(), "2".to_string());
    assert_eq!(copy.get("A"), Some(&"1".to_string()));
    assert_eq!(copy.len(), 1);
}

#[test]
fn the_other_variables_win() {
    let mut variables = Variables::new();
    variables.insert("A".to_string(), "1".to_string());
    variables.insert("B".to_string(), "2".to_string());
    let mut other = Variables::new();
    other.insert("B".to_string(), "3".to_string());
    other.insert("C".to_string(), "4".to_string());
    variables.extend(&other);
    assert_eq!(variables.get("A"), Some(&"1".to_string()));
    assert_eq!(variables.get("B"), Some(&"3".to_string()));
    assert_eq!(variables.get("C"), Some(&"4".to_string()));
    assert_eq!(variables.len(), 3);
}

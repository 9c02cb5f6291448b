use cmdline_parser::command_line_parsing_results::CmdParsingResults;
use cmdline_parser::value::Value;

#[test]
fn add_and_retrieve_value() {
    let mut res: CmdParsingResults = CmdParsingResults::new();
    res.add_result_value("test".to_string(), Value::Text(String::from("test")));
    assert_eq!(*res.get_value::<String>("test"), *String::from("test"));
}

#[test]
fn add_and_retrieve_optional_existing_value() {
    let mut res: CmdParsingResults = CmdParsingResults::new();
    res.add_result_value("test".to_string(), Value::Text(String::from("test")));
    assert_eq!(
        res.get_optional_value::<String>("test"),
        Some(&String::from("test"))
    );
}

#[test]
fn retrieve_option_missing_value() {
    let res: CmdParsingResults = CmdParsingResults::new();
    assert_eq!(res.get_optional_value::<String>("test"), None);
}

#[test]
fn retrieve_flag_value_that_exists() {
    let mut res: CmdParsingResults = CmdParsingResults::new();
    res.add_result_value("test".to_string(), Value::Flag(true));
    assert_eq!(res.get_flag("test"), true);
}

#[test]
fn optional_value_of_other_type_is_none() {
    let mut res: CmdParsingResults = CmdParsingResults::new();
    res.add_result_value("test".to_string(), Value::Text(String::from("test")));
    assert_eq!(res.get_optional_value::<i32>("test"), None);
    assert_eq!(res.get_optional_value::<bool>("test"), None);
}

#[test]
fn later_value_replaces_earlier() {
    let mut res: CmdParsingResults = CmdParsingResults::new();
    res.add_result_value("n".to_string(), Value::Integer(1));
    res.add_result_value("n".to_string(), Value::Integer(7));
    assert_eq!(*res.get_value::<i32>("n"), 7);
    assert_eq!(res.keys(), vec!["n".to_string()]);
}

#[test]
fn keys_and_contains() {
    let mut res: CmdParsingResults = CmdParsingResults::new();
    assert!(res.keys().is_empty());
    res.add_result_value("a".to_string(), Value::Flag(false));
    res.add_result_value("b".to_string(), Value::Integer(3));
    let mut keys = res.keys();
    keys.sort();
    assert_eq!(keys, vec!["a".to_string(), "b".to_string()]);
    assert!(res.contains("a"));
    assert!(!res.contains("c"));
}

#[test]
fn action_is_last_set() {
    let mut res: CmdParsingResults = CmdParsingResults::new();
    res.set_action("outer".to_string());
    res.set_action("inner".to_string());
    assert_eq!(res.get_action(), "inner");
}

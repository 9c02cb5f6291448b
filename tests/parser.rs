use cmdline_parser::value::Conversion;
use cmdline_parser::Parser;

fn get_basic_cmd_parser() -> Parser {
    Parser::new("test", "I am a test")
        .add_default("default".to_string(), "test".to_string())
        .add_positional("positional", "I am the positional")
        .add_optional(
            "optional",
            "optional",
            'o',
            Some("default"),
            "I am the optional",
        )
        .add_flag("flag", "flag", 'f', "I am the flag")
}

fn get_nested_parser() -> Parser {
    get_basic_cmd_parser().add_action(
        Parser::new("compute", "I am da computaaah").add_positional("stuff", "stuff indeed"),
    )
}

fn tokens(toks: &[&str]) -> Vec<String> {
    toks.iter().map(|t| t.to_string()).collect()
}

const OUTER_HELP: &str = r#"test - I am a test

usage: test [positional] {-o,-f} compute

[positional]          I am the positional
-o,--optional         I am the optional
-f,--flag             I am the flag
compute               I am da computaaah
"#;

const INNER_HELP: &str = r#"compute - I am da computaaah

usage: compute [stuff]

[stuff]               stuff indeed
"#;

#[test]
fn parse_command_line_wrong_action() {
    let args: &[String] = &[
        "positional".to_string(),
        "-o".to_string(),
        "optional".to_string(),
        "-f".to_string(),
        "wrong-action".to_string(),
    ];
    let parser: Parser = get_nested_parser();
    assert!(parser.parse(Vec::from(args)).is_err())
}

#[test]
fn parse_command_line_missing_action() {
    let args: &[String] = &[
        "positional".to_string(),
        "-o".to_string(),
        "optional".to_string(),
        "-f".to_string(),
    ];
    let parser: Parser = get_nested_parser();
    assert!(parser.parse(Vec::from(args)).is_err())
}

#[test]
fn parse_command_line_full_action() {
    let args: &[String] = &[
        "positional".to_string(),
        "-o".to_string(),
        "optional".to_string(),
        "-f".to_string(),
    ];
    let parser: Parser = get_basic_cmd_parser();
    match parser.parse(Vec::from(args)) {
        Ok(result) => {
            assert_eq!(result.get_action(), "test");
            assert_eq!(result.get_value::<String>("positional"), "positional");
            assert_eq!(result.get_value::<String>("optional"), "optional");
            assert!(result.get_flag("flag"));
        }
        Err(e) => panic!("{}", e),
    }
}

#[test]
fn parse_command_line_full_sub_action() {
    let args: &[String] = &[
        "positional".to_string(),
        "-o".to_string(),
        "optional".to_string(),
        "-f".to_string(),
        "compute".to_string(),
        "values".to_string(),
    ];
    let parser: Parser = get_nested_parser();
    match parser.parse(Vec::from(args)) {
        Ok(result) => {
            assert_eq!(result.get_action(), "compute");
            assert_eq!(result.get_value::<String>("positional"), "positional");
            assert_eq!(result.get_value::<String>("optional"), "optional");
            assert_eq!(result.get_value::<String>("stuff"), "values");
            assert!(result.get_flag("flag"));
        }
        Err(e) => panic!("{}", e),
    }
}

#[test]
fn generate_help_message() {
    let parser: Parser = get_nested_parser();
    let help = parser.help();
    assert_eq!(help, OUTER_HELP);
}

#[test]
fn triggering_help_flag_outer_parser() {
    let args: &[String] = &[
        "positional".to_string(),
        "-o".to_string(),
        "optional".to_string(),
        "-h".to_string(),
        "compute".to_string(),
        "values".to_string(),
    ];
    let parser: Parser = get_nested_parser();
    match parser.parse(Vec::from(args)) {
        Ok(_) => panic!("Should not have parsed"),
        Err(msg) => {
            assert_eq!(msg, OUTER_HELP)
        }
    }
}

#[test]
fn triggering_help_flag_inner_parser() {
    let args: &[String] = &[
        "positional".to_string(),
        "-o".to_string(),
        "optional".to_string(),
        "-f".to_string(),
        "compute".to_string(),
        "--help".to_string(),
    ];
    let parser: Parser = get_nested_parser();
    match parser.parse(Vec::from(args)) {
        Ok(_) => panic!("Should not have parsed"),
        Err(msg) => {
            println!("{}", msg);
            assert_eq!(msg, INNER_HELP)
        }
    }
}

#[test]
fn defaults_are_stored_and_flags_default_to_false() {
    let parser = get_basic_cmd_parser();
    let result = parser.parse(tokens(&["p"])).unwrap();
    assert_eq!(result.get_value::<String>("default"), "test");
    assert_eq!(result.get_value::<String>("optional"), "default");
    assert!(!result.get_flag("flag"));
    assert_eq!(result.get_action(), "test");
}

#[test]
fn long_forms_are_matched() {
    let parser = get_basic_cmd_parser();
    let result = parser
        .parse(tokens(&["p", "--optional", "given", "--flag"]))
        .unwrap();
    assert_eq!(result.get_value::<String>("optional"), "given");
    assert!(result.get_flag("flag"));
}

#[test]
fn repeated_parses_agree() {
    let parser = get_nested_parser();
    let args = tokens(&["p", "-o", "x", "compute", "v"]);
    let first = parser.parse(args.clone()).unwrap();
    let second = parser.parse(args).unwrap();
    let mut k1 = first.keys();
    let mut k2 = second.keys();
    k1.sort();
    k2.sort();
    assert_eq!(k1, k2);
    for k in k1 {
        assert_eq!(
            first.get_optional_value::<String>(&k),
            second.get_optional_value::<String>(&k)
        );
        assert_eq!(
            first.get_optional_value::<bool>(&k),
            second.get_optional_value::<bool>(&k)
        );
    }
    assert_eq!(first.get_action(), second.get_action());
}

#[test]
fn missing_positional_names_it() {
    let parser = get_basic_cmd_parser();
    let err = parser.parse(tokens(&[])).unwrap_err();
    assert_eq!(
        err,
        format!(
            "Bad Cmd Arguments: missing required positional argument: positional \n\n {}",
            parser.help()
        )
    );
}

#[test]
fn missing_action_message() {
    let parser = get_nested_parser();
    let err = parser.parse(tokens(&["p"])).unwrap_err();
    assert_eq!(err, format!("You have to chose an action. \n\n {}", OUTER_HELP));
}

#[test]
fn unknown_action_message() {
    let parser = get_nested_parser();
    let err = parser.parse(tokens(&["p", "-f", "wrong-action"])).unwrap_err();
    assert_eq!(err, format!("Unknown action wrong-action \n\n {}", OUTER_HELP));
}

#[test]
fn leftover_tokens_are_refused() {
    let parser = get_basic_cmd_parser();
    let err = parser.parse(tokens(&["p", "extra", "more"])).unwrap_err();
    assert_eq!(
        err,
        format!(
            "Too many cmd arguments after: [\"extra\", \"more\"] \n\n {}",
            OUTER_HELP.replace(" compute", "").replace("compute               I am da computaaah\n", "")
        )
    );
}

#[test]
fn leftover_tokens_after_action_are_refused() {
    let parser = get_nested_parser();
    let err = parser
        .parse(tokens(&["p", "-o", "x", "compute", "v", "extra"]))
        .unwrap_err();
    assert_eq!(
        err,
        format!("Too many supplied arguments after: [\"extra\"]\n\n{}", OUTER_HELP)
    );
}

#[test]
fn optional_missing_value_message() {
    let parser = get_basic_cmd_parser();
    let err = parser.parse(tokens(&["p", "-o"])).unwrap_err();
    assert_eq!(
        err,
        format!("Bad Cmd Arguments: unexpected eol after optional \n\n {}", parser.help())
    );
}

#[test]
fn help_before_first_positional() {
    let parser = get_nested_parser();
    assert_eq!(parser.parse(tokens(&["--help"])).unwrap_err(), OUTER_HELP);
}

#[test]
fn integer_arguments_are_converted() {
    let parser = Parser::new("calc", "adds")
        .add_parsed_default("base".to_string(), "10".to_string(), Conversion::Integer)
        .add_parsed_positional("a", Conversion::Integer, "first")
        .add_parsed_optional("b", "bee", 'b', Some("-3"), Conversion::Integer, "second");
    let result = parser.parse(tokens(&["5"])).unwrap();
    assert_eq!(*result.get_value::<i32>("base"), 10);
    assert_eq!(*result.get_value::<i32>("a"), 5);
    assert_eq!(*result.get_value::<i32>("b"), -3);
    let result = parser.parse(tokens(&["5", "--bee", "8"])).unwrap();
    assert_eq!(*result.get_value::<i32>("b"), 8);
    let err = parser.parse(tokens(&["five"])).unwrap_err();
    assert!(err.starts_with("Bad Cmd Arguments: cannot convert five for a \n\n calc - adds"));
}

#[test]
fn forms_need_no_dash() {
    // the second character alone decides a short-form match
    let parser = get_nested_parser();
    let err = parser.parse(tokens(&["p", "compute", "v"])).unwrap_err();
    assert_eq!(err, format!("You have to chose an action. \n\n {}", OUTER_HELP));
}

#[test]
fn help_without_arguments() {
    let parser = Parser::new("bare", "nothing");
    assert_eq!(parser.help(), "bare - nothing\n\nusage: bare\n\n");
    assert!(parser.parse(Vec::new()).is_ok());
}

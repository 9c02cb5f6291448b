use cmdline_parser::command_line_parsing_results::CmdParsingResults;
use cmdline_parser::default_argument::DefaultArgument;
use cmdline_parser::flag_argument::FlagArgument;
use cmdline_parser::optional_argument::OptionalArgument;
use cmdline_parser::positional_argument::PositionalArgument;
use cmdline_parser::value::Conversion;

#[test]
fn parse_default_argument() {
    let cmdline = ["does".to_string(), "not".to_string(), "matter".to_string()];
    let default = DefaultArgument::new("test".to_string(), "test".to_string(), Conversion::Text);
    let mut result: CmdParsingResults = CmdParsingResults::new();
    match default.parse(&mut result, &cmdline[..]) {
        Ok(remaining) => assert_eq!(cmdline, remaining),
        Err(msg) => panic!("{}", msg),
    }
}

#[test]
fn default_is_stored_converted() {
    let default = DefaultArgument::new("n".to_string(), "-12".to_string(), Conversion::Integer);
    let mut result: CmdParsingResults = CmdParsingResults::new();
    assert!(default.parse(&mut result, &[]).is_ok());
    assert_eq!(*result.get_value::<i32>("n"), -12);
}

#[test]
fn default_that_cannot_be_converted_fails() {
    let default = DefaultArgument::new("n".to_string(), "ten".to_string(), Conversion::Integer);
    let mut result: CmdParsingResults = CmdParsingResults::new();
    assert_eq!(
        default.parse(&mut result, &[]),
        Err("cannot convert ten for n".to_string())
    );
}

fn get_flag() -> FlagArgument {
    FlagArgument::new(
        "test".to_string(),
        "test".to_string(),
        't',
        "test flag".to_string(),
    )
}

#[test]
fn flag_argument_parse_optional_argument_long() -> Result<(), String> {
    let cmdline: &[String] = &["--test".to_string(), "chaff".to_string()];
    let mut result: CmdParsingResults = CmdParsingResults::new();
    let optional: FlagArgument = get_flag();
    let remaining = optional.parse(&mut result, cmdline)?;
    if remaining == ["chaff".to_string()] {
        if result.get_flag(optional.name()) {
            Ok(())
        } else {
            Err("did not extract value as value".to_string())
        }
    } else {
        Err("consumed too much".to_string())
    }
}

#[test]
fn flag_argument_parse_optional_argument_short() -> Result<(), String> {
    let cmdline: &[String] = &["-t".to_string(), "chaff".to_string()];
    let mut result: CmdParsingResults = CmdParsingResults::new();
    let optional: FlagArgument = get_flag();
    let remaining = optional.parse(&mut result, cmdline)?;
    if remaining == ["chaff".to_string()] {
        if result.get_flag(optional.name()) {
            Ok(())
        } else {
            Err("did not extract value as value".to_string())
        }
    } else {
        Err(format!(
            "wrong consumption of cmd line. It remains {:?}",
            remaining
        ))
    }
}

#[test]
fn flag_argument_proper_help_msg_line() {
    let optional: FlagArgument = get_flag();
    assert_eq!(optional.help(), "-t,--test             test flag")
}

#[test]
fn flag_match_is_exact() {
    let flag: FlagArgument = get_flag();
    for tok in ["-T", "--Test", "--tes", "--testx", "t", ""] {
        let cmdline: &[String] = &[tok.to_string()];
        let mut result: CmdParsingResults = CmdParsingResults::new();
        let remaining = flag.parse(&mut result, cmdline).unwrap();
        assert_eq!(remaining.len(), 1, "{} should not match", tok);
        assert!(!result.contains("test"));
    }
    assert_eq!(flag.short(), 't');
}

fn get_string_optional() -> OptionalArgument {
    OptionalArgument::new(
        "test".to_string(),
        "test".to_string(),
        't',
        None,
        Conversion::Text,
        "test optional".to_string(),
    )
}

fn get_i32_optional() -> OptionalArgument {
    OptionalArgument::new(
        "test".to_string(),
        "test".to_string(),
        't',
        None,
        Conversion::Integer,
        "test optional".to_string(),
    )
}

#[test]
fn optional_argument_parse_optional_argument_long() -> Result<(), String> {
    let cmdline: &[String] = &[
        "--test".to_string(),
        "value".to_string(),
        "chaff".to_string(),
    ];
    let mut result: CmdParsingResults = CmdParsingResults::new();
    let optional: OptionalArgument = get_string_optional();
    let remaining = optional.parse(&mut result, cmdline)?;
    if remaining == ["chaff".to_string()] {
        if result.get_value::<String>(&optional.name()) == "value" {
            Ok(())
        } else {
            Err("did not extract value as value".to_string())
        }
    } else {
        Err("consumed too much".to_string())
    }
}

#[test]
fn optional_argument_parse_optional_argument_short() -> Result<(), String> {
    let cmdline: &[String] = &["-t".to_string(), "value".to_string(), "chaff".to_string()];
    let mut result: CmdParsingResults = CmdParsingResults::new();
    let optional: OptionalArgument = get_string_optional();
    let remaining = optional.parse(&mut result, cmdline)?;
    if remaining == ["chaff".to_string()] {
        if result.get_value::<String>(&optional.name()) == "value" {
            Ok(())
        } else {
            Err("did not extract value as value".to_string())
        }
    } else {
        Err(format!(
            "wrong consumption of cmd line. It remains {:?}",
            remaining
        ))
    }
}

#[test]
fn parse_optional_argument_converted() -> Result<(), String> {
    let cmdline: &[String] = &["-t".to_string(), "42".to_string(), "chaff".to_string()];
    let mut result: CmdParsingResults = CmdParsingResults::new();
    let optional: OptionalArgument = get_i32_optional();
    let remaining = optional.parse(&mut result, cmdline)?;
    if remaining == ["chaff".to_string()] {
        if *result.get_value::<i32>(&optional.name()) == 42 {
            Ok(())
        } else {
            Err("did not extract 42 as value".to_string())
        }
    } else {
        Err(format!(
            "wrong consumption of cmd line. It remains {:?}",
            remaining
        ))
    }
}

#[test]
fn optional_argument_value_that_is_no_number_fails() {
    let cmdline: &[String] = &["-t".to_string(), "test".to_string(), "chaff".to_string()];
    let mut result: CmdParsingResults = CmdParsingResults::new();
    let optional: OptionalArgument = get_i32_optional();
    assert_eq!(
        optional.parse(&mut result, cmdline),
        Err("cannot convert test for test".to_string())
    );
}

#[test]
fn parse_optional_argument_missing() {
    let cmdline: &[String] = &["-t".to_string()];
    let mut result: CmdParsingResults = CmdParsingResults::new();
    let optional: OptionalArgument = get_string_optional();
    assert!(optional.parse(&mut result, cmdline).is_err());
    assert_eq!(
        optional.parse(&mut result, cmdline),
        Err("unexpected eol after test".to_string())
    );
}

#[test]
fn optional_argument_proper_help_msg_line() {
    let optional: OptionalArgument = get_string_optional();
    assert_eq!(optional.help(), "-t,--test             test optional")
}

#[test]
fn optional_argument_getters() {
    let optional = OptionalArgument::new(
        "n".to_string(),
        "number".to_string(),
        'n',
        Some("3".to_string()),
        Conversion::Integer,
        "a number".to_string(),
    );
    assert_eq!(optional.name(), "n");
    assert_eq!(optional.short(), 'n');
    assert_eq!(optional.default(), Some("3".to_string()));
    assert_eq!(optional.parser(), Conversion::Integer);
}

#[test]
fn parse_positional_string_argument() -> Result<(), String> {
    let cmd_line: &[String] = &["pos1".to_string(), "pos2".to_string()];
    let positional: PositionalArgument = PositionalArgument::new(
        "test".to_string(),
        Conversion::Text,
        "test value for unit testing".to_string(),
    );
    let mut result: CmdParsingResults = CmdParsingResults::new();
    let remaining = positional.parse(&mut result, cmd_line)?;
    if remaining == ["pos2".to_string()] {
        Ok(())
    } else {
        Err(format!("bad remaining args {:?}", remaining))
    }
}

#[test]
fn parse_missing_positional_argument() {
    let cmd_line: &[String] = &[];
    let positional: PositionalArgument = PositionalArgument::new(
        "test".to_string(),
        Conversion::Text,
        "test value for unit testing".to_string(),
    );
    let mut result: CmdParsingResults = CmdParsingResults::new();
    assert!(positional.parse(&mut result, cmd_line).is_err());
    assert_eq!(
        positional.parse(&mut result, cmd_line),
        Err("missing required positional argument: test".to_string())
    );
}

#[test]
fn parse_converted_positional_argument() -> Result<(), String> {
    let cmd_line: &[String] = &["42".to_string()];
    let positional: PositionalArgument = PositionalArgument::new(
        "test".to_string(),
        Conversion::Integer,
        "test value for unit testing".to_string(),
    );
    let mut result: CmdParsingResults = CmdParsingResults::new();
    let remaining = positional.parse(&mut result, cmd_line)?;
    if remaining.is_empty() {
        if *result.get_value::<i32>("test") == 42 {
            Ok(())
        } else {
            Err("bad result value".to_string())
        }
    } else {
        Err("did not fully consume the arguments".to_string())
    }
}

#[test]
fn positional_integer_edges() {
    let positional = PositionalArgument::new("n".to_string(), Conversion::Integer, "n".to_string());
    for (tok, expected) in [
        ("+7", Some(7)),
        ("-2147483648", Some(i32::MIN)),
        ("2147483647", Some(i32::MAX)),
        ("2147483648", None),
        ("-", None),
        ("", None),
        ("1x", None),
    ] {
        let mut result: CmdParsingResults = CmdParsingResults::new();
        let cmd_line: &[String] = &[tok.to_string()];
        let outcome = positional.parse(&mut result, cmd_line);
        match expected {
            Some(v) => {
                assert!(outcome.is_ok());
                assert_eq!(*result.get_value::<i32>("n"), v);
            }
            None => assert_eq!(outcome, Err(format!("cannot convert {} for n", tok))),
        }
    }
}

#[test]
fn positional_argument_proper_help_msg_line() {
    let positional: PositionalArgument = PositionalArgument::new(
        "test".to_string(),
        Conversion::Integer,
        "test value for unit testing".to_string(),
    );
    assert_eq!(
        positional.help().as_str(),
        "[test]                test value for unit testing"
    );
    assert_eq!(positional.name(), "test");
}

#[test]
fn help_line_of_long_label_is_not_padded() {
    let flag = FlagArgument::new(
        "x".to_string(),
        "a-very-long-flag-name-indeed".to_string(),
        'x',
        "doc".to_string(),
    );
    assert_eq!(flag.help(), "-x,--a-very-long-flag-name-indeeddoc");
}

use orgstats::command::{parse_command, parse_port, CliError, Command};

fn args(list: &[&str]) -> Vec<String> {
    list.iter().map(|s| s.to_string()).collect()
}

#[test]
fn missing_command() {
    assert!(matches!(
        parse_command(&args(&["prog"])),
        Err(CliError::MissingCommand)
    ));
    assert!(matches!(
        parse_command(&args(&[])),
        Err(CliError::MissingCommand)
    ));
}

#[test]
fn unknown_command() {
    assert!(matches!(
        parse_command(&args(&["prog", "frobnicate"])),
        Err(CliError::UnknownCommand)
    ));
}

#[test]
fn fetch_variants() {
    match parse_command(&args(&["prog", "fetch", "lichess-org"])).unwrap() {
        Command::Fetch { org, range } => {
            assert_eq!(org, "lichess-org");
            assert!(range.is_none());
        }
        _ => panic!("wrong command"),
    }
    match parse_command(&args(&["prog", "fetch", "lichess-org", "2024-01-01", "2024-02-01"]))
        .unwrap()
    {
        Command::Fetch { org, range } => {
            assert_eq!(org, "lichess-org");
            let (since, until) = range.unwrap();
            assert_eq!(since, "2024-01-01");
            assert_eq!(until, "2024-02-01");
        }
        _ => panic!("wrong command"),
    }
    assert!(matches!(
        parse_command(&args(&["prog", "fetch"])),
        Err(CliError::MissingArgument)
    ));
    assert!(matches!(
        parse_command(&args(&["prog", "fetch", "org", "2024-01-01"])),
        Err(CliError::MissingArgument)
    ));
}

#[test]
fn query_commands_need_all_arguments() {
    for cmd in ["results", "changelog", "summary"] {
        assert!(matches!(
            parse_command(&args(&["prog", cmd, "org", "2024-01-01"])),
            Err(CliError::MissingArgument)
        ));
    }
    match parse_command(&args(&["prog", "results", "org", "a", "b"])).unwrap() {
        Command::Results { org, since, until } => {
            assert_eq!(org, "org");
            assert_eq!(since, "a");
            assert_eq!(until, "b");
        }
        _ => panic!("wrong command"),
    }
    match parse_command(&args(&["prog", "changelog", "org", "a", "b"])).unwrap() {
        Command::Changelog { .. } => {}
        _ => panic!("wrong command"),
    }
    match parse_command(&args(&["prog", "summary", "org", "a", "b"])).unwrap() {
        Command::Summary { .. } => {}
        _ => panic!("wrong command"),
    }
}

#[test]
fn serve_port_defaults() {
    match parse_command(&args(&["prog", "serve"])).unwrap() {
        Command::Serve { port } => assert_eq!(port, 8080),
        _ => panic!("wrong command"),
    }
    match parse_command(&args(&["prog", "serve", "3000"])).unwrap() {
        Command::Serve { port } => assert_eq!(port, 3000),
        _ => panic!("wrong command"),
    }
    match parse_command(&args(&["prog", "serve", "junk"])).unwrap() {
        Command::Serve { port } => assert_eq!(port, 8080),
        _ => panic!("wrong command"),
    }
    match parse_command(&args(&["prog", "serve", "99999"])).unwrap() {
        Command::Serve { port } => assert_eq!(port, 8080),
        _ => panic!("wrong command"),
    }
}

#[test]
fn port_parsing_matches_std() {
    for s in ["0", "1", "80", "8080", "65535", "+123", "007"] {
        assert_eq!(parse_port(s), s.parse::<u16>().ok(), "case {s}");
    }
    for s in ["", "+", "-1", "65536", "123456789012345678901234567890", "1x", " 1", "1 "] {
        assert_eq!(parse_port(s), s.parse::<u16>().ok(), "case {s}");
    }
}

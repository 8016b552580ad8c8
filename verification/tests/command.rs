use memcrabd::protocol::number::NumberError;
use memcrabd::server::command::{parse_command_line, Command, CommandError};

fn keys_of(c: &Command) -> Vec<String> {
    match c {
        Command::Get { keys } => keys.clone(),
        _ => panic!("expected get"),
    }
}

#[test]
fn parses_set() {
    match parse_command_line("set foo 5 60 3").unwrap() {
        Command::SetItem { key, flags, ttl, bytes, noreply } => {
            assert_eq!(key, "foo");
            assert_eq!(flags, 5);
            assert_eq!(ttl, 60);
            assert_eq!(bytes, 3);
            assert!(!noreply);
        }
        other => panic!("unexpected {other:?}"),
    }
}

#[test]
fn parses_set_noreply_and_odd_spacing() {
    match parse_command_line("  set\tk\u{3000}0 0   10 noreply ").unwrap() {
        Command::SetItem { key, flags, ttl, bytes, noreply } => {
            assert_eq!(key, "k");
            assert_eq!((flags, ttl, bytes), (0, 0, 10));
            assert!(noreply);
        }
        other => panic!("unexpected {other:?}"),
    }
}

#[test]
fn set_number_errors_in_field_order() {
    assert_eq!(
        parse_command_line("set k x 0 1").unwrap_err(),
        CommandError::Number(NumberError::InvalidDigit)
    );
    assert_eq!(
        parse_command_line("set k 4294967296 x 1").unwrap_err(),
        CommandError::Number(NumberError::Overflow)
    );
    assert_eq!(
        parse_command_line("set k 1 2 -3").unwrap_err(),
        CommandError::Number(NumberError::InvalidDigit)
    );
    assert_eq!(
        parse_command_line("set k + 2 3").unwrap_err(),
        CommandError::Number(NumberError::InvalidDigit)
    );
}

#[test]
fn set_with_wrong_shape_is_unknown() {
    assert_eq!(parse_command_line("set k 1 2").unwrap_err(), CommandError::Unknown);
    assert_eq!(parse_command_line("set k 1 2 3 later").unwrap_err(), CommandError::Unknown);
}

#[test]
fn parses_get_keys_in_order() {
    let c = parse_command_line("get a bb ccc").unwrap();
    assert_eq!(keys_of(&c), vec!["a".to_string(), "bb".to_string(), "ccc".to_string()]);
    assert_eq!(parse_command_line("get").unwrap_err(), CommandError::Unknown);
}

#[test]
fn parses_delete_version_quit() {
    match parse_command_line("delete k noreply").unwrap() {
        Command::Delete { key, noreply } => {
            assert_eq!(key, "k");
            assert!(noreply);
        }
        other => panic!("unexpected {other:?}"),
    }
    match parse_command_line("delete k").unwrap() {
        Command::Delete { key, noreply } => {
            assert_eq!(key, "k");
            assert!(!noreply);
        }
        other => panic!("unexpected {other:?}"),
    }
    assert!(matches!(parse_command_line("version").unwrap(), Command::Version));
    assert!(matches!(parse_command_line("quit").unwrap(), Command::Quit));
    assert_eq!(parse_command_line("delete k maybe").unwrap_err(), CommandError::Unknown);
    assert_eq!(parse_command_line("VERSION").unwrap_err(), CommandError::Unknown);
    assert_eq!(parse_command_line("").unwrap_err(), CommandError::Unknown);
    assert_eq!(parse_command_line("quit now").unwrap_err(), CommandError::Unknown);
}

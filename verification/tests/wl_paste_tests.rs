use agent_box_common::wl_paste::{parse_args, usage};

#[test]
fn parses_list_types() {
    let args = parse_args(&vec!["--list-types".to_string()]).unwrap();
    assert!(args.list_types);
}

#[test]
fn parses_type_and_no_newline() {
    let args = parse_args(&vec!["--type".to_string(), "image/png".to_string(), "--no-newline".to_string()])
        .unwrap();
    assert_eq!(args.mime.as_deref(), Some("image/png"));
    assert!(args.no_newline);
}

// Further cases of this library.

#[test]
fn short_flags_help_and_errors() {
    let args = parse_args(&vec!["-l".to_string(), "-n".to_string(), "-t".to_string(), "a".to_string(), "-t".to_string(), "b".to_string()]).unwrap();
    assert!(args.list_types && args.no_newline);
    assert_eq!(args.mime.as_deref(), Some("b"));
    assert!(parse_args(&vec!["-h".to_string(), "--bogus".to_string()]).unwrap().help);
    assert_eq!(parse_args(&vec!["--type".to_string()]).unwrap_err(), "--type expects a value");
    assert_eq!(parse_args(&vec!["-x".to_string()]).unwrap_err(), "unsupported argument: -x");
    assert_eq!(usage(), "Usage: wl-paste [--list-types] [--type <mime>] [--no-newline]");
}

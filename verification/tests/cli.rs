use eggplan::cli::{
    expected_revision, is_value_option, parse_args, plan_id, read_u64, require_positions, required_option, usage,
    validate_command_options, CliFailure,
};

fn args(list: &[&str]) -> Vec<String> {
    list.iter().map(|s| s.to_string()).collect()
}

fn usage_error(command: &str, message: &str, json: bool) -> CliFailure {
    CliFailure { command: command.into(), code: "usage".into(), message: message.into(), json }
}

#[test]
fn arguments_split_into_command_positions_options_and_flags() {
    let p = parse_args(&args(&["--json", "item", "update", "ep_a", "--status", "blocked", "--blocker", "-x"])).unwrap();
    assert_eq!(p.command, "item");
    assert_eq!(p.positional, ["update", "ep_a"]);
    assert_eq!(p.options.get("--status").map(String::as_str), Some("blocked"));
    assert_eq!(p.options.get("--blocker").map(String::as_str), Some("-x"));
    assert!(p.json);
    assert!(!p.help);
    let help = parse_args(&args(&["-h"])).unwrap();
    assert_eq!(help.command, "help");
    assert!(help.help);
    let recover = parse_args(&args(&["check", "--recover-pending"])).unwrap();
    assert!(recover.recover_pending);
}

#[test]
fn usage_failures_name_the_command_read_so_far() {
    assert_eq!(parse_args(&[]).unwrap_err(), CliFailure { command: "help".into(), code: "usage".into(), message: usage(), json: false });
    assert_eq!(parse_args(&args(&["--json"])).unwrap_err(), CliFailure { command: "usage".into(), code: "usage".into(), message: usage(), json: true });
    assert_eq!(parse_args(&args(&["--input"])).unwrap_err(), usage_error("usage", "missing value for --input", false));
    assert_eq!(
        parse_args(&args(&["new", "--input", "a", "--json", "--input", "b"])).unwrap_err(),
        usage_error("new", "duplicate option --input", true)
    );
    assert_eq!(parse_args(&args(&["show", "--verbose"])).unwrap_err(), usage_error("show", "unknown option --verbose", false));
    assert!(usage().starts_with("eggplan [--state-root PATH] [--json] COMMAND\nCommands: init"));
    assert!(is_value_option("--next-action"));
    assert!(!is_value_option("--json"));
}

#[test]
fn commands_accept_only_their_options_and_flags() {
    let bad = parse_args(&args(&["show", "ep_a", "--status", "x", "--input", "y"])).unwrap();
    assert_eq!(
        validate_command_options(&bad).unwrap_err(),
        usage_error("show", "option --input is not valid for this command", false)
    );
    let ok = parse_args(&args(&["check", "--recover-pending", "--provider-policy", "p.json", "--state-root", "s"])).unwrap();
    assert!(validate_command_options(&ok).is_ok());
    let flag = parse_args(&args(&["show", "--recover-pending", "--help"])).unwrap();
    assert_eq!(
        validate_command_options(&flag).unwrap_err(),
        usage_error("show", "flag --help is not valid for this command", false)
    );
    let recover = parse_args(&args(&["status", "--recover-pending"])).unwrap();
    assert_eq!(
        validate_command_options(&recover).unwrap_err(),
        usage_error("status", "flag --recover-pending is not valid for this command", false)
    );
    let unknown = parse_args(&args(&["frobnicate", "--input", "x", "--help"])).unwrap();
    assert!(validate_command_options(&unknown).is_ok());
}

#[test]
fn revisions_positions_and_plan_ids_are_checked() {
    let p = parse_args(&args(&["activate", "ep_a", "--expected-revision", "+12"])).unwrap();
    assert_eq!(expected_revision(&p), Ok(12));
    let bad = parse_args(&args(&["activate", "ep_a", "--expected-revision", "-1"])).unwrap();
    assert_eq!(
        expected_revision(&bad).unwrap_err(),
        CliFailure {
            command: "activate".into(),
            code: "invalid_revision".into(),
            message: "expected revision must be a nonnegative integer".into(),
            json: false,
        }
    );
    let missing = parse_args(&args(&["activate", "ep_a"])).unwrap();
    assert_eq!(
        expected_revision(&missing).unwrap_err(),
        usage_error("activate", "required option --expected-revision is missing", false)
    );
    assert_eq!(required_option(&p, "--expected-revision"), Ok("+12"));
    assert!(require_positions(&p, 1, 1).is_ok());
    assert_eq!(require_positions(&p, 2, 3).unwrap_err().message, usage());
    assert_eq!(read_u64("18446744073709551615"), Some(u64::MAX));
    assert_eq!(read_u64("18446744073709551616"), None);
    assert_eq!(read_u64(""), None);
    assert_eq!(read_u64("+"), None);
    assert_eq!(read_u64("0"), Some(0));
    assert_eq!(read_u64("1 "), None);
    assert_eq!(plan_id("ep_ok", "show", true).unwrap().as_str(), "ep_ok");
    assert_eq!(
        plan_id("plan", "show", true).unwrap_err(),
        CliFailure {
            command: "show".into(),
            code: "invalid_id".into(),
            message: "identifier must start with ep_".into(),
            json: true,
        }
    );
}

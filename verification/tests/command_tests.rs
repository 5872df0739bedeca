use vmstart::command::{decode_command_output, parse_words, Action, CommandError};

fn args(v: &[&str]) -> Vec<String> {
    v.iter().map(|s| s.to_string()).collect()
}

#[test]
fn decode_valid_output() {
    assert_eq!(decode_command_output(b"Total running VMs: 0\n".to_vec()), "Total running VMs: 0\n");
    assert_eq!(decode_command_output(vec![]), "");
    assert_eq!(decode_command_output("h\u{e9}".as_bytes().to_vec()), "h\u{e9}");
}

#[test]
fn decode_invalid_output() {
    assert_eq!(decode_command_output(vec![0xff, 0xfe]), "Exec Error!");
}

#[test]
fn parse_words_each_action() {
    assert_eq!(parse_words(&args(&["p", "start", "a"]), "scan"), Ok(Action::Start("a".to_string())));
    assert_eq!(parse_words(&args(&["p", "stop", "a"]), "scan"), Ok(Action::Stop("a".to_string())));
    assert_eq!(parse_words(&args(&["p", "shutdown", "a"]), "scan"), Ok(Action::Shutdown("a".to_string())));
    assert_eq!(parse_words(&args(&["p", "restart", "a"]), "scan"), Ok(Action::Restart("a".to_string())));
    assert_eq!(parse_words(&args(&["p", "poweroff", "a"]), "scan"), Ok(Action::Poweroff("a".to_string())));
    assert_eq!(parse_words(&args(&["p", "reboot", "a"]), "scan"), Ok(Action::Reboot("a".to_string())));
    assert_eq!(parse_words(&args(&["p", "hangup", "a"]), "scan"), Ok(Action::HangUp("a".to_string())));
    assert_eq!(parse_words(&args(&["p", "list"]), "scan"), Ok(Action::List));
    assert_eq!(parse_words(&args(&["p", "scan"]), "scan"), Ok(Action::Scan));
    assert_eq!(parse_words(&args(&["p", "Scan"]), "Scan"), Ok(Action::Scan));
}

#[test]
fn parse_words_errors() {
    assert_eq!(parse_words(&args(&["p"]), "scan"), Err(CommandError::Usage));
    assert_eq!(parse_words(&args(&[]), "scan"), Err(CommandError::Usage));
    assert_eq!(parse_words(&args(&["p", "Start", "a"]), "scan"), Err(CommandError::Invalid("Start".to_string())));
    assert_eq!(parse_words(&args(&["p", "Scan"]), "scan"), Err(CommandError::Invalid("Scan".to_string())));
    assert_eq!(parse_words(&args(&["p", "scan"]), "Scan"), Err(CommandError::Invalid("scan".to_string())));
}

#[test]
fn parse_words_ignores_extra_arguments() {
    assert_eq!(parse_words(&args(&["p", "list", "x", "y"]), "scan"), Ok(Action::List));
    assert_eq!(parse_words(&args(&["p", "start", "a", "b"]), "scan"), Ok(Action::Start("a".to_string())));
}

#[test]
fn command_line_round_trip() {
    let actions = vec![
        Action::Start("m".to_string()),
        Action::Stop("m".to_string()),
        Action::Shutdown("m".to_string()),
        Action::Restart("m".to_string()),
        Action::Poweroff("m".to_string()),
        Action::Reboot("m".to_string()),
        Action::HangUp("m".to_string()),
        Action::List,
        Action::Scan,
    ];
    let words = ["start", "stop", "shutdown", "restart", "poweroff", "reboot", "hangup", "list", "scan"];
    for (a, w) in actions.into_iter().zip(words) {
        let line = if matches!(a, Action::List | Action::Scan) { args(&["vmstart", w]) } else { args(&["vmstart", w, "m"]) };
        assert_eq!(parse_words(&line, "scan"), Ok(a));
    }
}

use fmusim::cli::{parse_start_value, ShellArg};

#[test]
fn start_value_splits_at_the_first_equals_sign() {
    assert_eq!(
        parse_start_value("h=1.5"),
        Ok(("h".to_string(), "1.5".to_string()))
    );
    assert_eq!(
        parse_start_value("a=b=c"),
        Ok(("a".to_string(), "b=c".to_string()))
    );
    assert_eq!(parse_start_value("=x"), Ok((String::new(), "x".to_string())));
    assert_eq!(parse_start_value("x="), Ok(("x".to_string(), String::new())));
    assert_eq!(
        parse_start_value("größe=ä"),
        Ok(("größe".to_string(), "ä".to_string()))
    );
}

#[test]
fn start_value_without_equals_sign_is_refused() {
    assert_eq!(
        parse_start_value("h"),
        Err("Invalid format \"h\". Expected \"variable_name=value\".".to_string())
    );
    assert_eq!(
        parse_start_value(""),
        Err("Invalid format \"\". Expected \"variable_name=value\".".to_string())
    );
    assert_eq!(
        parse_start_value("a\"b"),
        Err("Invalid format \"a\\\"b\". Expected \"variable_name=value\".".to_string())
    );
}

#[test]
fn shell_args_compare_by_variant() {
    assert_eq!(ShellArg::Bash, ShellArg::Bash);
    assert_ne!(ShellArg::Zsh, ShellArg::PowerShell);
    let shells = [ShellArg::Bash, ShellArg::Zsh, ShellArg::Fish, ShellArg::PowerShell, ShellArg::Elvish];
    assert_eq!(shells.len(), 5);
}

use cmdmux::{parse_color, parse_incoming_command_line, Color, Command, CommandCtx, ConfigError};

fn cmd_with(color: &str, filter: Option<&str>) -> Command {
    Command {
        bin: String::from("tail"),
        args: vec![String::from("-f"), String::from("app.log")],
        out_color: String::from(color),
        filter: filter.map(String::from),
        follow: false,
    }
}

#[test]
fn every_palette_name_parses_to_its_sgr_code() {
    let cases = [
        ("default", 0u8),
        ("red", 31),
        ("green", 32),
        ("yellow", 33),
        ("blue", 34),
        ("purple", 35),
    ];
    for (name, code) in cases {
        let c = parse_color(name).unwrap();
        assert_eq!(c.sgr_code(), code);
    }
}

#[test]
fn unknown_color_names_are_rejected() {
    assert!(parse_color("orange").is_none());
    assert!(parse_color("").is_none());
    assert!(parse_color("Green").is_none());
    assert!(parse_color("greenish").is_none());
}

#[test]
fn invalid_color_fails_handle_creation() {
    let r = CommandCtx::build(cmd_with("orange", None));
    assert!(matches!(r, Err(ConfigError::InvalidColor)));
}

#[test]
fn invalid_filter_pattern_fails_handle_creation() {
    let r = CommandCtx::build(cmd_with("red", Some("(")));
    assert!(matches!(r, Err(ConfigError::InvalidFilter)));
}

#[test]
fn valid_specification_builds_a_handle() {
    let ctx = CommandCtx::build(cmd_with("yellow", Some("^ERR"))).unwrap();
    assert!(ctx.is_alive());
}

#[test]
fn color_is_checked_before_filter() {
    let r = CommandCtx::build(cmd_with("orange", Some("(")));
    assert!(matches!(r, Err(ConfigError::InvalidColor)));
}

#[test]
fn config_path_defaults_to_cmd_yml() {
    let args: Vec<String> = vec![String::from("prog")];
    let opts = parse_incoming_command_line(&args);
    assert_eq!(opts.config_filename.as_str(), "cmd.yml");
}

#[test]
fn config_flag_selects_the_path() {
    let args = vec![String::from("prog"), String::from("--config=my.yml")];
    let opts = parse_incoming_command_line(&args);
    assert_eq!(opts.config_filename.as_str(), "my.yml");
}

#[test]
fn unrecognized_arguments_are_skipped() {
    let args = vec![
        String::from("prog"),
        String::from("--verbose"),
        String::from("--config=a.yml"),
        String::from("extra"),
    ];
    let opts = parse_incoming_command_line(&args);
    assert_eq!(opts.config_filename.as_str(), "a.yml");
}

#[test]
fn last_config_flag_wins() {
    let args = vec![
        String::from("prog"),
        String::from("--config=first.yml"),
        String::from("--config=second.yml"),
    ];
    let opts = parse_incoming_command_line(&args);
    assert_eq!(opts.config_filename.as_str(), "second.yml");
}

#[test]
fn empty_config_value_is_taken_verbatim() {
    let args = vec![String::from("--config=")];
    let opts = parse_incoming_command_line(&args);
    assert_eq!(opts.config_filename.as_str(), "");
}

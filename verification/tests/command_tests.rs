use gc::app::commands::{
    get_shell_command, replace_command_detail, AppCommands, Subcommand, TargetOs,
};
use gc::app::config::{AppConfig, AppConfigAction, Command, CommandAction};

#[test]
fn replace_fills_parameters_in_order() {
    let a = "develop".to_string();
    let b = "main".to_string();
    let r = replace_command_detail("git diff --name-only $0 $1", vec![&a, &b]);
    assert_eq!(r, "git diff --name-only develop main");
}

#[test]
fn replace_every_occurrence() {
    let a = "x".to_string();
    let r = replace_command_detail("$0-$0-$0", vec![&a]);
    assert_eq!(r, "x-x-x");
}

#[test]
fn replace_without_params_is_unchanged() {
    let r = replace_command_detail("echo $0", vec![]);
    assert_eq!(r, "echo $0");
}

#[test]
fn replace_text_without_placeholder_is_unchanged() {
    let a = "x".to_string();
    let r = replace_command_detail("echo hello", vec![&a]);
    assert_eq!(r, "echo hello");
}

#[test]
fn replace_is_sequential_so_hash_one_takes_hash_ten() {
    let params: Vec<String> = (0..11).map(|i| format!("p{}", i)).collect();
    let refs: Vec<&String> = params.iter().collect();
    // "$10" is consumed by the replacement of "$1" before index 10 comes up
    let r = replace_command_detail("$10 $1 $0", refs);
    assert_eq!(r, "p10 p1 p0");
    let mut params: Vec<String> = (0..11).map(|i| format!("v{}", i)).collect();
    params[1] = "ONE".to_string();
    let refs: Vec<&String> = params.iter().collect();
    let r = replace_command_detail("$10", refs);
    assert_eq!(r, "ONE0");
}

#[test]
fn replace_parameter_holding_a_placeholder_is_replaced_again() {
    let a = "$1".to_string();
    let b = "B".to_string();
    let r = replace_command_detail("$0", vec![&a, &b]);
    assert_eq!(r, "B");
}

#[test]
fn shell_per_system() {
    assert_eq!(get_shell_command(TargetOs::Linux), "sh");
    assert_eq!(get_shell_command(TargetOs::MacOs), "sh");
    assert_eq!(get_shell_command(TargetOs::Windows), "cmd");
}

#[test]
fn subcommand_names() {
    assert_eq!(AppCommands::subcommand("add"), Some(Subcommand::Add));
    assert_eq!(AppCommands::subcommand("delete"), Some(Subcommand::Delete));
    assert_eq!(AppCommands::subcommand("run"), Some(Subcommand::Run));
    assert_eq!(AppCommands::subcommand("list"), Some(Subcommand::List));
    assert_eq!(AppCommands::subcommand("ad"), None);
    assert_eq!(AppCommands::subcommand(""), None);
    assert_eq!(AppCommands::subcommand("List"), None);
}

#[test]
fn add_command_strips_quotes() {
    let mut config = AppConfig::new();
    AppCommands::add_command(
        &mut config,
        "git-diff".to_string(),
        "'\"git diff $0 $1\"'",
        Some("[".to_string()),
        None,
    );
    let c = config.get_command("git-diff");
    assert_eq!(c.detail, "git diff $0 $1");
    assert_eq!(c.prefix.as_deref(), Some("["));
    assert_eq!(c.suffix, None);
}

#[test]
fn add_command_strips_single_quotes_before_double() {
    let mut config = AppConfig::new();
    // the double quotes come first, so the single quotes inside them stay
    AppCommands::add_command(&mut config, "c".to_string(), "\"'x'\"", None, None);
    assert_eq!(config.get_command("c").detail, "'x'");
    AppCommands::add_command(&mut config, "d".to_string(), "''''", None, None);
    assert_eq!(config.get_command("d").detail, "");
}

#[test]
fn plan_run_fills_and_defaults() {
    let mut config = AppConfig::new();
    config.add_command(<Command as CommandAction>::new(
        "greet".to_string(),
        "echo hello $0".to_string(),
        Some("> ".to_string()),
        None,
    ));
    let who = "world".to_string();
    let plan = AppCommands::plan_run(&config, "greet", vec![&who]);
    assert_eq!(plan.command, "echo hello world");
    assert_eq!(plan.prefix, "> ");
    assert_eq!(plan.suffix, "");
}

#[test]
fn output_step_decorates_lines() {
    let (line, more) = AppCommands::output_step(&Ok("out".to_string()), "[", "]");
    assert_eq!(line, "[out]");
    assert!(more);
    let (line, more) = AppCommands::output_step(&Err("bad".to_string()), "[", "]");
    assert_eq!(line, "bad");
    assert!(!more);
}

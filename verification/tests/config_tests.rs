use gc::app::config::{AppConfig, AppConfigAction, Command, CommandAction, CommandType, ConfigInit};

fn cmd(name: &str, detail: &str) -> Command {
    <Command as CommandAction>::new(name.to_string(), detail.to_string(), None, None)
}

#[test]
fn gc_new_table() {
    let config = AppConfig::new();
    assert!(config.list_commands().is_empty());
}

#[test]
fn new_config_has_app_fields() {
    let config = AppConfig::new();
    assert_eq!(config.app(), "App");
    assert_eq!(config.version(), "Version");
    assert_eq!(config.source(), "https://github.com/Anyone-Developers/xxx");
    assert_eq!(config.list_commands().len(), 0);
}

#[test]
fn command_new_is_string_type() {
    let c = <Command as CommandAction>::new(
        "git-diff".to_string(),
        "git diff $0 $1".to_string(),
        Some("> ".to_string()),
        None,
    );
    assert_eq!(c.command_type, CommandType::String);
    assert_eq!(c.name, "git-diff");
    assert_eq!(c.detail, "git diff $0 $1");
    assert_eq!(c.prefix, Some("> ".to_string()));
    assert_eq!(c.suffix, None);
}

#[test]
fn get_after_add() {
    let mut config = AppConfig::new();
    config.add_command(cmd("ls", "ls -la"));
    let got = config.get_command("ls");
    assert_eq!(got.name, "ls");
    assert_eq!(got.detail, "ls -la");
}

#[test]
fn add_overwrites_same_name() {
    let mut config = AppConfig::new();
    config.add_command(cmd("ls", "ls -la"));
    config.add_command(cmd("ls", "ls -1"));
    assert_eq!(config.list_commands().len(), 1);
    assert_eq!(config.get_command("ls").detail, "ls -1");
}

#[test]
fn add_keeps_other_commands() {
    let mut config = AppConfig::new();
    config.add_command(cmd("a", "echo a"));
    config.add_command(cmd("b", "echo b"));
    assert_eq!(config.get_command("a").detail, "echo a");
    assert_eq!(config.get_command("b").detail, "echo b");
}

#[test]
fn delete_removes_command() {
    let mut config = AppConfig::new();
    config.add_command(cmd("a", "echo a"));
    config.add_command(cmd("b", "echo b"));
    config.delete_command("a");
    let listed = config.list_commands();
    assert_eq!(listed.len(), 1);
    assert_eq!(listed[0].name, "b");
}

#[test]
fn delete_missing_is_no_change() {
    let mut config = AppConfig::new();
    config.add_command(cmd("a", "echo a"));
    config.delete_command("zzz");
    config.delete_command("zzz");
    assert_eq!(config.list_commands().len(), 1);
}

#[test]
fn delete_undoes_add() {
    let mut config = AppConfig::new();
    config.add_command(cmd("a", "echo a"));
    config.add_command(cmd("b", "echo b"));
    config.delete_command("b");
    let listed = config.list_commands();
    assert_eq!(listed.len(), 1);
    assert_eq!(listed[0].name, "a");
    assert_eq!(listed[0].detail, "echo a");
}

#[test]
fn list_holds_every_command_once() {
    let mut config = AppConfig::new();
    for n in ["x", "y", "z", "y"] {
        config.add_command(cmd(n, n));
    }
    let mut names: Vec<String> = config.list_commands().into_iter().map(|c| c.name).collect();
    names.sort();
    assert_eq!(names, vec!["x".to_string(), "y".to_string(), "z".to_string()]);
}

#[test]
fn entries_restore_the_configuration() {
    let mut config = AppConfig::new();
    config.add_command(cmd("a", "echo a"));
    config.add_command(cmd("b", "echo b"));
    let entries = config.entries();
    let restored = AppConfig::from_parts(
        config.app().clone(),
        config.version().clone(),
        config.source().clone(),
        entries,
    );
    assert_eq!(restored.app(), "App");
    assert_eq!(restored.list_commands().len(), 2);
    assert_eq!(restored.get_command("a").detail, "echo a");
    assert_eq!(restored.get_command("b").detail, "echo b");
}

#[test]
fn from_parts_later_entry_wins() {
    let entries = vec![
        ("k".to_string(), cmd("first", "1")),
        ("k".to_string(), cmd("second", "2")),
        ("other".to_string(), cmd("other", "3")),
    ];
    let config = AppConfig::from_parts("A".to_string(), "V".to_string(), "S".to_string(), entries);
    assert_eq!(config.list_commands().len(), 2);
    assert_eq!(config.get_command("k").name, "second");
    assert_eq!(config.version(), "V");
}

#[test]
fn init_config_action_follows_file() {
    assert_eq!(AppConfig::init_config_action(true), ConfigInit::Resume);
    assert_eq!(AppConfig::init_config_action(false), ConfigInit::Save);
}

#[test]
fn duplicate_keeps_fields() {
    let c = <Command as CommandAction>::new(
        "n".to_string(),
        "d".to_string(),
        Some("p".to_string()),
        Some("s".to_string()),
    );
    let d = c.duplicate();
    assert_eq!(d.name, "n");
    assert_eq!(d.detail, "d");
    assert_eq!(d.prefix.as_deref(), Some("p"));
    assert_eq!(d.suffix.as_deref(), Some("s"));
    assert_eq!(CommandType::Shell.name(), "Shell");
    assert_eq!(CommandType::String.name(), "String");
}

#[test]
fn duplicate_config_keeps_everything() {
    let mut config = AppConfig::new();
    config.add_command(cmd("a", "echo a"));
    let copy = config.duplicate();
    assert_eq!(copy.app(), "App");
    assert_eq!(copy.list_commands().len(), 1);
    assert_eq!(copy.get_command("a").detail, "echo a");
}

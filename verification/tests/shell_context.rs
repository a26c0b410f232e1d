use minishell::{cd_target, cd_target_with_home, render_prompt, HistoryEntry, ShellName, Tokenizer};

#[test]
fn generate_shellname() {
    let sh = ShellName::new("home");
    assert_eq!("home".to_string(), sh.current_dir);
}

#[test]
fn test_prompt_is_rendered_exactly() {
    let prompt = render_prompt("user", "dir");
    assert_eq!("\u{1b}[38;5;1muser\u{1b}[38;5;6m:dir\u{a7} \u{1b}[39m".to_string(), prompt);
}

#[test]
fn test_prompt_tracks_current_dir() {
    let mut sh = ShellName::new("start");
    let name = sh.name.clone();
    sh.set_current_dir("/surely/not/under/home");
    assert_eq!("/surely/not/under/home".to_string(), sh.current_dir);
    assert_eq!(render_prompt(&name, "/surely/not/under/home"), sh.shell_name);
}

#[test]
fn test_home_prefix_is_abbreviated() {
    assert_eq!(
        "~/work".to_string(),
        ShellName::abbreviate_home("/home/someone/work", "/home/someone")
    );
    assert_eq!("/elsewhere".to_string(), ShellName::abbreviate_home("/elsewhere", "/home/someone"));
}

#[test]
fn test_cd_target_resolution() {
    assert_eq!("x".to_string(), cd_target_with_home(Some("x".to_string()), "/home/u".to_string()));
    assert_eq!(
        "/home/u".to_string(),
        cd_target_with_home(Some("~".to_string()), "/home/u".to_string())
    );
    assert_eq!("/home/u".to_string(), cd_target_with_home(None, "/home/u".to_string()));
}

#[test]
fn test_cd_target_from_stream() {
    let mut line = Tokenizer::new("cd /tmp");
    assert_eq!(Some("/tmp".to_string()), cd_target(&mut line));
}

#[test]
fn test_history_entry_keeps_line() {
    let entry = HistoryEntry::new("ls -a");
    assert_eq!("ls -a".to_string(), entry.line);
}

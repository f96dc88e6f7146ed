use iamtxt::botdir::BotDirs;

#[test]
fn files_are_laid_out_in_their_dirs() {
    let dirs = BotDirs::from_dirs("/home/u/.config/iamtxt".to_string(), "/home/u/.local/state/iamtxt".to_string());
    assert_eq!(dirs.config_path(), "/home/u/.config/iamtxt/config.toml");
    assert_eq!(dirs.status_path(), "/home/u/.local/state/iamtxt/iamtxtool_status.json");
    assert_eq!(dirs.dirs(), vec!["/home/u/.config/iamtxt", "/home/u/.local/state/iamtxt"]);
}

#[test]
fn trailing_separator_is_not_doubled() {
    let dirs = BotDirs::from_dirs("/cfg/".to_string(), "/state/".to_string());
    assert_eq!(dirs.config_path(), "/cfg/config.toml");
    assert_eq!(dirs.status_path(), "/state/iamtxtool_status.json");
}

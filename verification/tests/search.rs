use gbcalc::search::{
    config_dir, contains_str, env_color_mode, history_file_text, theme_dirs, theme_file_path,
    theme_name_of, theme_ref, user_theme_path, ThemeRef, THEME_ENV_MAX,
};
use gbcalc::style::ColorMode;

#[test]
fn environment_colour_modes() {
    assert_eq!(env_color_mode(true, Some("truecolor"), Some("xterm")), ColorMode::NoColor);
    assert_eq!(env_color_mode(false, Some("truecolor"), None), ColorMode::TrueColor);
    assert_eq!(env_color_mode(false, Some("24bit"), Some("dumb")), ColorMode::TrueColor);
    assert_eq!(env_color_mode(false, Some("yes"), Some("xterm-256color")), ColorMode::C256);
    assert_eq!(env_color_mode(false, None, Some("xterm-direct")), ColorMode::TrueColor);
    assert_eq!(env_color_mode(false, None, Some("xterm")), ColorMode::C16);
    assert_eq!(env_color_mode(false, None, Some("dumb")), ColorMode::NoColor);
    assert_eq!(env_color_mode(false, None, Some("")), ColorMode::NoColor);
    assert_eq!(env_color_mode(false, None, None), ColorMode::NoColor);
}

#[test]
fn substring_search() {
    let v: Vec<char> = "xterm-256color".chars().collect();
    assert!(contains_str(&v, "256color"));
    assert!(contains_str(&v, ""));
    assert!(!contains_str(&v, "direct"));
    assert!(!contains_str(&[], "x"));
}

#[test]
fn search_path() {
    assert_eq!(
        theme_dirs(Some("a::b"), Some("/x"), Some("/h"), "/inst"),
        vec!["a", "b", "/x/gbcalc/themes", "themes", "/inst"]
    );
    // An empty XDG_CONFIG_HOME adds nothing, and HOME is not consulted.
    assert_eq!(theme_dirs(None, Some(""), Some("/h"), "/inst"), vec!["themes", "/inst"]);
    assert_eq!(
        theme_dirs(Some(""), None, Some("/h"), "/inst"),
        vec!["/h/.config/gbcalc/themes", "themes", "/inst"]
    );
    // A long path variable cannot push out the fallbacks.
    let many = (0..20).map(|i| format!("d{i}")).collect::<Vec<_>>().join(":");
    let dirs = theme_dirs(Some(&many), None, None, "/inst");
    assert_eq!(dirs.len(), THEME_ENV_MAX + 2);
    assert_eq!(dirs[THEME_ENV_MAX - 1], "d8");
    assert_eq!(&dirs[THEME_ENV_MAX..], &["themes".to_string(), "/inst".to_string()]);
}

#[test]
fn user_files() {
    assert_eq!(
        user_theme_path(Some("/x"), Some("/h")),
        Some("/x/gbcalc/theme.conf".to_string())
    );
    assert_eq!(
        user_theme_path(Some(""), Some("/h")),
        Some("/h/.config/gbcalc/theme.conf".to_string())
    );
    assert_eq!(user_theme_path(None, Some("")), None);
    assert_eq!(config_dir(Some("/x"), None), Some("/x/gbcalc".to_string()));
    assert_eq!(config_dir(None, Some("/h")), Some("/h/.config/gbcalc".to_string()));
    assert_eq!(config_dir(None, None), None);
}

#[test]
fn theme_names() {
    assert_eq!(theme_ref("themes/dark.conf"), ThemeRef::Path);
    assert_eq!(theme_ref("dark.conf"), ThemeRef::Path);
    assert_eq!(theme_ref("dracula"), ThemeRef::Search);
    assert_eq!(theme_ref(&"x".repeat(129)), ThemeRef::TooLong);
    assert_eq!(theme_ref(&"x".repeat(128)), ThemeRef::Search);
    assert_eq!(theme_file_path("/d", "nord"), "/d/nord.conf");
    assert_eq!(theme_name_of("nord.conf"), Some("nord".to_string()));
    assert_eq!(theme_name_of(".conf"), Some(String::new()));
    assert_eq!(theme_name_of("nord.txt"), None);
}

#[test]
fn history_file_lines() {
    assert_eq!(history_file_text(&vec![]), "");
    assert_eq!(
        history_file_text(&vec!["1 + 1 = 2".to_string(), "5 * 5 = 25".to_string()]),
        "1 + 1 = 2\n5 * 5 = 25\n"
    );
}

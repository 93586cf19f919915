use indexa::config::{
    parse_color, parse_match_path_opt, ColumnKind, DatabaseConfig, FlagConfig, IndexKind, Opt, UIConfig,
};
use indexa::database::StatusKind;
use indexa::query::{CaseSensitivity, MatchPathMode};
use indexa::tui::style::Color;

#[test]
fn color() {
    assert_eq!(parse_color("blue"), Some(Color::Blue));
    assert_eq!(parse_color("\t Red \r\n"), Some(Color::Red));
    assert_eq!(parse_color("66, 135, 245"), Some(Color::Rgb(66, 135, 245)));
    assert_eq!(parse_color("#E43"), Some(Color::Rgb(238, 68, 51)));
    assert_eq!(parse_color("#fcba03"), Some(Color::Rgb(252, 186, 3)));
}

#[test]
fn invalid_colors() {
    assert_eq!(parse_color("bleu"), None);
    assert_eq!(parse_color("#12"), None);
    assert_eq!(parse_color("#12345g"), None);
    assert_eq!(parse_color("1, 2"), None);
    assert_eq!(parse_color("1, 2, 256"), None);
    assert_eq!(parse_color("1, 2, 3, 4"), None);
    assert_eq!(parse_color("1, -2, 3"), None);
    assert_eq!(parse_color(""), None);
}

#[test]
fn color_forms_agree() {
    assert_eq!(parse_color("#ff0000"), parse_color("255,0,0"));
    assert_eq!(parse_color("#abc"), parse_color("#aabbcc"));
    assert_eq!(parse_color("+1, 02, 3"), Some(Color::Rgb(1, 2, 3)));
    assert_eq!(parse_color("LightCyan"), Some(Color::LightCyan));
    assert_eq!(parse_color("reset"), Some(Color::Reset));
}

#[test]
fn hex_pairs_take_a_plus_sign() {
    assert_eq!(parse_color("#+a+b+c"), Some(Color::Rgb(10, 11, 12)));
    assert_eq!(parse_color("#ff+f0a"), Some(Color::Rgb(255, 15, 10)));
    assert_eq!(parse_color("#++0000"), None);
    assert_eq!(parse_color("#+00"), None);
    assert_eq!(parse_color("#-10000"), None);
}

#[test]
fn match_path_option() {
    assert_eq!(parse_match_path_opt("always"), Ok(MatchPathMode::Always));
    assert_eq!(parse_match_path_opt("YES"), Ok(MatchPathMode::Always));
    assert_eq!(parse_match_path_opt("never"), Ok(MatchPathMode::Never));
    assert_eq!(parse_match_path_opt("No"), Ok(MatchPathMode::Never));
    assert_eq!(parse_match_path_opt("auto"), Ok(MatchPathMode::Auto));
    assert_eq!(
        parse_match_path_opt("sometimes"),
        Err("Invalid value 'sometimes'. Valid values are 'always', 'never', or 'auto'.".to_string())
    );
}

fn opt() -> Opt {
    Opt {
        query: None,
        case_sensitive: false,
        ignore_case: false,
        match_path: None,
        regex: false,
        update: false,
        threads: None,
        config: None,
    }
}

#[test]
fn default_flags() {
    let f = FlagConfig::with_cpus(8);
    assert_eq!(f.threads, 7);
    assert_eq!(FlagConfig::with_cpus(1).threads, 1);
    assert_eq!(FlagConfig::with_cpus(2).threads, 1);
    assert_eq!(f.match_path_mode(), MatchPathMode::Never);
    assert_eq!(f.case_sensitivity(), CaseSensitivity::Smart);
    assert!(FlagConfig::new().threads >= 1);
}

#[test]
fn merging_options() {
    let mut f = FlagConfig::with_cpus(4);
    let mut o = opt();
    o.query = Some("foo".to_string());
    o.ignore_case = true;
    o.regex = true;
    o.threads = Some(9);
    o.match_path = Some(None);
    f.merge_opt_with_cpus(&o, 4);
    assert_eq!(f.query.as_deref(), Some("foo"));
    assert_eq!(f.case_sensitivity(), CaseSensitivity::Insensitive);
    assert!(f.regex);
    assert_eq!(f.threads, 3);
    assert_eq!(f.match_path_mode(), MatchPathMode::Always);

    let mut f = FlagConfig::with_cpus(4);
    let mut o = opt();
    o.case_sensitive = true;
    o.match_path = Some(Some(MatchPathMode::Auto));
    f.merge_opt_with_cpus(&o, 4);
    assert_eq!(f.case_sensitivity(), CaseSensitivity::Sensitive);
    assert_eq!(f.match_path_mode(), MatchPathMode::Auto);
}

#[test]
fn default_ui_config() {
    let ui = UIConfig::new();
    assert_eq!(ui.sort_by, StatusKind::Basename);
    assert_eq!(ui.columns.len(), 4);
    assert_eq!(ui.columns[3].status, StatusKind::Path);
    assert_eq!(ui.datetime_format, "%Y-%m-%d %R");
}

#[test]
fn column_and_index_kinds() {
    assert_eq!(ColumnKind::FullPath.to_string(), "Path");
    assert_eq!(ColumnKind::Basename.to_string(), "Basename");
    assert_eq!(ColumnKind::Accessed.status_kind(), StatusKind::Accessed);
    assert_eq!(IndexKind::Mode.status_kind(), StatusKind::Mode);
}

#[test]
fn database_defaults() {
    let c = DatabaseConfig::with_defaults(Some("/home/u/.local/share".to_string()), "/", true, '/');
    assert_eq!(c.location.as_deref(), Some("/home/u/.local/share/indexa/database.db"));
    assert_eq!(c.dirs, vec!["/".to_string()]);
    let c = DatabaseConfig::with_defaults(Some("/data/".to_string()), "/", false, '/');
    assert_eq!(c.location.as_deref(), Some("/data/indexa/database.db"));
    assert!(c.dirs.is_empty());
    assert!(DatabaseConfig::with_defaults(None, "/", true, '/').location.is_none());
}

#[test]
fn colors_are_trimmed_of_unicode_white_space() {
    assert_eq!(parse_color("\u{3000}red\u{2028}"), Some(Color::Red));
    assert_eq!(parse_color("\u{85} 1 ,\u{a0}2, 3\u{200a}"), Some(Color::Rgb(1, 2, 3)));
    assert_eq!(parse_color("\u{200b}red"), None);
}

use vidnux::theme::{
    command_answer, decode_theme, detect_step, encode_theme, is_dark_name, monitor_to_stop,
    parse_color_scheme,
    resolve_theme, theme_from_gnome_scheme, theme_from_gtk_env, theme_from_gtk_name, Detection,
    Lookup, Mode, Theme,
};

#[test]
fn portal_replies_are_read_from_either_method() {
    // ReadOne
    assert_eq!(parse_color_scheme("(<uint32 1>,)"), Some(Theme::Dark));
    assert_eq!(parse_color_scheme("(<uint32 2>,)"), Some(Theme::Light));
    // The older plural Read wraps the variant one level deeper.
    assert_eq!(parse_color_scheme("(<<uint32 2>>,)"), Some(Theme::Light));
    // 0 means "no preference", which is not an answer.
    assert_eq!(parse_color_scheme("(<uint32 0>,)"), None);
    // Anything unexpected leaves the caller to fall through to the next
    // source rather than guessing.
    assert_eq!(parse_color_scheme("Error: no such interface"), None);
    assert_eq!(parse_color_scheme(""), None);
}

#[test]
fn gtk_theme_names_give_away_dark_variants() {
    assert!(is_dark_name("'adw-gtk3-dark'"));
    assert!(is_dark_name("Adwaita:dark"));
    assert!(is_dark_name("Breeze-Dark"));
    assert!(!is_dark_name("'Adwaita'"));
    assert!(!is_dark_name("adw-gtk3"));
}

#[test]
fn the_theme_button_cycles_system_light_dark() {
    assert_eq!(Mode::default(), Mode::Auto);
    assert_eq!(Mode::Auto.next(), Mode::Light);
    assert_eq!(Mode::Light.next(), Mode::Dark);
    assert_eq!(Mode::Dark.next(), Mode::Auto);
    assert_eq!(Mode::Auto.next().next().next(), Mode::Auto);
    assert_eq!(Mode::Auto.label(), "System");
}

#[test]
fn when_nothing_answers_the_app_stays_light() {
    assert_eq!(resolve_theme(Mode::Auto, None, None), Theme::Light);
    assert_eq!(resolve_theme(Mode::Auto, None, Some(Theme::Dark)), Theme::Dark);
    assert_eq!(resolve_theme(Mode::Auto, Some(Theme::Light), Some(Theme::Dark)), Theme::Light);
    assert_eq!(resolve_theme(Mode::Dark, Some(Theme::Light), None), Theme::Dark);
    assert_eq!(resolve_theme(Mode::Light, Some(Theme::Dark), None), Theme::Light);
}

#[test]
fn detection_walks_portal_gnome_then_gtk() {
    assert_eq!(
        detect_step(Lookup::Portal, Some("(<uint32 1>,)".to_string())),
        Detection::Answer(Some(Theme::Dark))
    );
    assert_eq!(
        detect_step(Lookup::Portal, Some("(<uint32 0>,)".to_string())),
        Detection::Ask(Lookup::GnomeScheme)
    );
    assert_eq!(detect_step(Lookup::Portal, None), Detection::Ask(Lookup::GnomeScheme));
    assert_eq!(
        detect_step(Lookup::GnomeScheme, Some("'prefer-light'".to_string())),
        Detection::Answer(Some(Theme::Light))
    );
    assert_eq!(
        detect_step(Lookup::GnomeScheme, Some("'default'".to_string())),
        Detection::Ask(Lookup::GnomeThemeName)
    );
    assert_eq!(detect_step(Lookup::GnomeScheme, None), Detection::Ask(Lookup::GtkEnv));
    assert_eq!(
        detect_step(Lookup::GnomeThemeName, Some("'Adwaita'".to_string())),
        Detection::Answer(Some(Theme::Light))
    );
    assert_eq!(detect_step(Lookup::GnomeThemeName, None), Detection::Ask(Lookup::GtkEnv));
    assert_eq!(
        detect_step(Lookup::GtkEnv, Some("Adwaita:dark".to_string())),
        Detection::Answer(Some(Theme::Dark))
    );
    assert_eq!(detect_step(Lookup::GtkEnv, Some("Adwaita".to_string())), Detection::Answer(None));
    assert_eq!(detect_step(Lookup::GtkEnv, None), Detection::Answer(None));
}

#[test]
fn single_answers() {
    assert_eq!(theme_from_gnome_scheme("'prefer-dark'"), Some(Theme::Dark));
    assert_eq!(theme_from_gnome_scheme("'default'"), None);
    assert_eq!(theme_from_gtk_name("Yaru-dark"), Theme::Dark);
    assert_eq!(theme_from_gtk_name("Yaru"), Theme::Light);
    assert_eq!(theme_from_gtk_env("Yaru"), None);
    assert_eq!(command_answer("  'default'\n"), Some("'default'".to_string()));
    assert_eq!(command_answer(" \n"), None);
}

#[test]
fn the_stored_answer_reads_back() {
    for t in [None, Some(Theme::Light), Some(Theme::Dark)] {
        assert_eq!(decode_theme(encode_theme(t)), t);
    }
    assert_eq!(encode_theme(Some(Theme::Dark)), 2);
    assert_eq!(decode_theme(7), None);
}

#[test]
fn only_a_recorded_monitor_is_taken_down() {
    assert_eq!(monitor_to_stop(0), None);
    assert_eq!(monitor_to_stop(4321), Some(4321));
}

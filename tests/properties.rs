use userstyles::decimal::decimal;
use userstyles::metadata::{FetchError, SettingInfo, StyleInfo, StyleOption};
use userstyles::{
    find_settings_val, get_style_body, get_style_settings, get_style_uri, load_config,
    metadata_uri, parse_config, save_style_settings, settings_from_info, styles_needing_settings,
    update_style_settings,
    ConfigError, Setting, Style,
};

fn setting(key: &str, val: &str, comment: &str) -> Setting {
    Setting::new(String::from(key), String::from(val), String::from(comment))
}

fn option(key: Option<&str>, value: &str, is_default: bool) -> StyleOption {
    StyleOption {
        install_key: key.map(String::from),
        value: Some(String::from(value)),
        is_default,
    }
}

fn remote(key: &str, kind: &str, options: Vec<StyleOption>) -> SettingInfo {
    SettingInfo {
        install_key: Some(String::from(key)),
        setting_type: Some(String::from(kind)),
        options,
    }
}

fn info(settings: Vec<SettingInfo>) -> StyleInfo {
    StyleInfo { not_found: false, error: false, settings }
}

#[test]
fn missing_id_names_the_section_after_good_ones() {
    let e = parse_config("[first]\nid = 1\n[second]\nkey = 'v'\n").unwrap_err();
    assert!(matches!(e, ConfigError::MissingId(ref n) if n == "second"));
    assert_eq!(e.description(), "Missing 'id' field in style second.");
}

#[test]
fn first_failing_section_decides_the_error() {
    let e = parse_config("[a]\nid = 'x'\n[b]\nk = 3\n").unwrap_err();
    assert_eq!(e.description(), "ID in style 'a' is not an integer.");
}

#[test]
fn negative_id_is_rejected_on_load() {
    let e = load_config(b"[s]\nid = -1\n").unwrap_err();
    assert!(matches!(e, ConfigError::NegativeId(ref n) if n == "s"));
    assert_eq!(e.description(), "ID in style 's' is negative.");
    let e = parse_config("[ok]\nid = 3\n[bad]\nid = -5\nk = 'v'\n").unwrap_err();
    assert_eq!(e.description(), "ID in style 'bad' is negative.");
}

#[test]
fn unset_id_is_written_but_not_read_back() {
    let text = save_style_settings(&[Style::new(String::from("s"))]);
    assert_eq!(text, "[s]\nid = -1\n");
    assert!(matches!(parse_config(&text), Err(ConfigError::NegativeId(_))));
}

#[test]
fn non_string_setting_names_key_and_section() {
    let e = parse_config("[s]\nid = 4\nflag = true\n").unwrap_err();
    assert_eq!(e.description(), "Setting 'flag' in style 's' is not a string.");
}

#[test]
fn id_as_float_is_not_an_integer() {
    let e = parse_config("[s]\nid = 4.5\n").unwrap_err();
    assert_eq!(e.description(), "ID in style 's' is not an integer.");
}

#[test]
fn empty_document_has_no_styles() {
    assert!(parse_config("").unwrap().is_empty());
}

#[test]
fn sections_and_keys_keep_document_order() {
    let styles =
        parse_config("[zeta]\nid = 2\nb = 'x'\na = 'y'\n[alpha]\nid = 1\n").unwrap();
    assert_eq!(styles.len(), 2);
    assert_eq!(styles[0].name, "zeta");
    assert_eq!(styles[1].name, "alpha");
    assert_eq!(styles[0].settings[0].key, "b");
    assert_eq!(styles[0].settings[1].key, "a");
    assert_eq!(styles[0].settings[1].val, "y");
    assert_eq!(styles[0].settings[0].comment, "");
}

#[test]
fn written_document_reads_back() {
    let styles = vec![
        Style {
            id: 146771,
            name: String::from("my-style"),
            settings: vec![setting("ik-ACCENTCOLOR", "#f006a2", " # color: '#0F9D58'")],
        },
        Style { id: 0, name: String::from("other"), settings: vec![] },
    ];
    let text = save_style_settings(&styles);
    assert_eq!(
        text,
        "[my-style]\nid = 146771\nik-ACCENTCOLOR = \"#f006a2\" # color: '#0F9D58'\n[other]\nid = 0\n"
    );
    let back = load_config(text.as_bytes()).unwrap();
    assert_eq!(back.len(), 2);
    assert_eq!(back[0].name, "my-style");
    assert_eq!(back[0].id, 146771);
    assert_eq!(back[0].settings.len(), 1);
    assert_eq!(back[0].settings[0].key, "ik-ACCENTCOLOR");
    assert_eq!(back[0].settings[0].val, "#f006a2");
    assert_eq!(back[1].name, "other");
    assert_eq!(back[1].id, 0);
    assert!(back[1].settings.is_empty());
}

#[test]
fn single_setting_with_unset_id_is_written_exactly() {
    let styles = vec![Style {
        id: -1,
        name: String::from("name"),
        settings: vec![setting("key", "val", "")],
    }];
    assert_eq!(save_style_settings(&styles), "[name]\nid = -1\nkey = \"val\"\n");
}

#[test]
fn empty_style_list_writes_nothing() {
    assert_eq!(save_style_settings(&[]), "");
}

#[test]
fn only_styles_without_settings_need_them() {
    let mut style = Style::new(String::from("s"));
    assert!(style.needs_settings());
    style.settings.push(setting("ik-a", "b", ""));
    assert!(!style.needs_settings());
}

#[test]
fn only_styles_without_settings_are_looked_up() {
    let styles = vec![
        Style::new(String::from("a")),
        Style { id: 2, name: String::from("b"), settings: vec![setting("ik-x", "y", "")] },
        Style::new(String::from("c")),
    ];
    assert_eq!(styles_needing_settings(&styles), vec![0, 2]);
    assert!(styles_needing_settings(&[]).is_empty());
}

#[test]
fn flagged_default_becomes_the_value() {
    let i = info(vec![remote(
        "size",
        "dropdown",
        vec![option(Some("small"), "S", false), option(Some("large"), "L", true)],
    )]);
    let r = settings_from_info(5, &i, &[]).unwrap();
    assert_eq!(r[0].key, "ik-size");
    assert_eq!(r[0].val, "ik-large");
    assert_eq!(r[0].comment, " # dropdown: ik-small ik-large");
}

#[test]
fn last_flagged_default_wins_and_none_flagged_is_empty() {
    let i = info(vec![
        remote(
            "a",
            "dropdown",
            vec![option(Some("x"), "", true), option(Some("y"), "", true)],
        ),
        remote("b", "dropdown", vec![option(Some("z"), "", false)]),
    ]);
    let r = settings_from_info(5, &i, &[]).unwrap();
    assert_eq!(r[0].val, "ik-y");
    assert_eq!(r[1].val, "");
}

#[test]
fn text_options_are_listed_by_value() {
    let i = info(vec![remote("title", "text", vec![option(Some("t"), "Hello", true)])]);
    let r = settings_from_info(5, &i, &[]).unwrap();
    assert_eq!(r[0].comment, " # text: 'Hello'");
    assert_eq!(r[0].val, "ik-t");
}

#[test]
fn stored_value_is_kept_and_gone_keys_dropped() {
    let i = info(vec![
        remote("a", "dropdown", vec![option(Some("one"), "", true)]),
        remote("b", "dropdown", vec![option(Some("two"), "", true)]),
    ]);
    let old = vec![setting("ik-b", "mine", ""), setting("ik-gone", "x", "")];
    let r = settings_from_info(5, &i, &old).unwrap();
    assert_eq!(r.len(), 2);
    assert_eq!(r[0].val, "ik-one");
    assert_eq!(r[1].key, "ik-b");
    assert_eq!(r[1].val, "mine");
}

#[test]
fn unknown_style_error_names_the_id() {
    let mut i = info(vec![]);
    i.error = true;
    let e = settings_from_info(146771, &i, &[]).unwrap_err();
    assert_eq!(e, FetchError::NotFound(146771));
    assert_eq!(e.description(), "Style '146771' does not exist.");
    let e = get_style_settings(-3, r#"{"error":"boom"}"#, &[]).unwrap_err();
    assert_eq!(e.description(), "Style '-3' does not exist.");
}

#[test]
fn missing_keys_are_reported() {
    let mut no_key = remote("a", "dropdown", vec![]);
    no_key.install_key = None;
    let e = settings_from_info(1, &info(vec![no_key]), &[]).unwrap_err();
    assert_eq!(e.description(), "Unable to parse install key.");
    let bad_option = remote("a", "dropdown", vec![option(None, "v", true)]);
    let e = settings_from_info(1, &info(vec![bad_option]), &[]).unwrap_err();
    assert_eq!(e, FetchError::MissingOptionKey);
    assert_eq!(e.description(), "Unable to parse default value");
}

#[test]
fn response_that_is_not_json_is_a_decode_error() {
    let e = get_style_settings(1, "<html>", &[]).unwrap_err();
    assert_eq!(e, FetchError::Decode);
    assert_eq!(e.description(), "Unable to decode the style metadata.");
}

#[test]
fn failed_refresh_leaves_style_unchanged() {
    let mut style = Style { id: 9, name: String::from("s"), settings: vec![setting("k", "v", "")] };
    assert!(update_style_settings(&mut style, "not json").is_err());
    assert_eq!(style.settings.len(), 1);
    assert_eq!(style.settings[0].val, "v");
}

#[test]
fn settings_lookup_takes_first_match() {
    let s = vec![setting("a", "1", ""), setting("b", "2", ""), setting("b", "3", "")];
    assert_eq!(find_settings_val(&s, "b"), Some(String::from("2")));
    assert_eq!(find_settings_val(&s, "c"), None);
}

#[test]
fn render_request_joins_pairs_without_trailing_separator() {
    let style = Style {
        id: 146771,
        name: String::new(),
        settings: vec![setting("ik-A", "#f006a2", " # c"), setting("ik-B", "x", "")],
    };
    assert_eq!(get_style_body(&style), "ik-A=#f006a2&ik-B=x");
    assert_eq!(
        get_style_uri("https://userstyles.org/styles/", &style),
        "https://userstyles.org/styles/146771.css?"
    );
    assert_eq!(get_style_body(&Style::new(String::new())), "");
}

#[test]
fn metadata_address_ends_in_the_id() {
    assert_eq!(
        metadata_uri("https://userstyles.org/api/v1/styles/", 37035),
        "https://userstyles.org/api/v1/styles/37035"
    );
}

#[test]
fn decimal_text_of_edge_values() {
    assert_eq!(decimal(0), "0");
    assert_eq!(decimal(-1), "-1");
    assert_eq!(decimal(1234567890), "1234567890");
    assert_eq!(decimal(i64::MAX), "9223372036854775807");
    assert_eq!(decimal(i64::MIN), "-9223372036854775808");
}

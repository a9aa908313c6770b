#![allow(non_snake_case)]

use userstyles::get_style_settings;

// Metadata responses of the site for the styles that these tests name.
const NOT_FOUND: &str = r##"{"not_found":true}"##;
const ALLO: &str = r##"{"id":146771,"style_settings":[{"install_key":"ACCENTCOLOR","setting_type":"color","style_setting_options":[{"install_key":"placeholder","value":"#0F9D58","default":true}]}]}"##;
const GITHUB_DARK: &str = r##"{"id":37035,"style_settings":[]}"##;
const DROPDOWN: &str = r##"{"id":107653,"style_settings":[{"install_key":"theme","setting_type":"dropdown","style_setting_options":[{"install_key":"tera","value":"Tera","default":true},{"install_key":"black","value":"Black","default":false}]}]}"##;

#[test]
fn get_style_settings_with_zero_id__is_not_found_error() {
    let result = get_style_settings(0, NOT_FOUND, &[]);

    if let Err(e) = result {
        assert_eq!(e.description(), "Style '0' does not exist.");
    } else {
        panic!("No error!");
    }
}

#[test]
fn get_style_settings_with_allo_id__is_single_color_setting() {
    let result = get_style_settings(146771, ALLO, &[]).unwrap();

    assert_eq!(result.len(), 1);
    assert_eq!(result[0].key, "ik-ACCENTCOLOR");
    assert_eq!(result[0].val, "ik-placeholder");
}

#[test]
fn get_style_settings_with_github_dark_id__is_not_an_error() {
    get_style_settings(37035, GITHUB_DARK, &[]).unwrap();
}

#[test]
fn get_style_settings_with_dropdown_setting__is_comment_with_options() {
    let result = get_style_settings(107653, DROPDOWN, &[]).unwrap();

    assert_eq!(result[0].comment, " # dropdown: ik-tera ik-black");
}

#[test]
fn get_style_settings_with_color_setting__is_comment_with_color() {
    let result = get_style_settings(146771, ALLO, &[]).unwrap();

    assert_eq!(result[0].comment, " # color: '#0F9D58'");
}

#![allow(non_snake_case)]

use userstyles::{save_style_settings, Setting, Style};

#[test]
fn with_no_settings_or_id__is_file_with_only_name() {
    let styles = vec![Style::new(String::from("style"))];

    let content = save_style_settings(&styles);

    assert_eq!(content, "[style]\nid = -1\n");
}

#[test]
fn with_id__is_file_with_id() {
    let styles = vec![Style {
        name: String::from("style"),
        id: 15,
        settings: Vec::new(),
    }];

    let content = save_style_settings(&styles);

    assert_eq!(content, "[style]\nid = 15\n");
}

#[test]
fn with_setting__is_file_with_setting() {
    let styles = vec![Style {
        name: String::from("style"),
        id: -1,
        settings: vec![Setting::new(
            String::from("key"),
            String::from("val"),
            String::new(),
        )],
    }];

    let content = save_style_settings(&styles);

    assert_eq!(content, "[style]\nid = -1\nkey = \"val\"\n");
}

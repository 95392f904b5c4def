use tbunread::settings::{write_count, Emission, Settings, SettingsError, DEFAULT_INTERVAL};

fn settings(quiet: bool, output: Option<&str>) -> Settings {
    Settings { quiet, output: output.map(|p| p.to_string()), interval: DEFAULT_INTERVAL }
}

#[test]
fn default_interval_is_five_seconds() {
    assert_eq!(DEFAULT_INTERVAL, 5);
}

#[test]
fn quiet_without_output_is_refused() {
    assert_eq!(settings(true, None).validate(), Err(SettingsError::QuietWithoutOutput));
}

#[test]
fn other_settings_are_accepted() {
    assert_eq!(settings(false, None).validate(), Ok(()));
    assert_eq!(settings(false, Some("out")).validate(), Ok(()));
    assert_eq!(settings(true, Some("out")).validate(), Ok(()));
}

#[test]
fn value_is_printed_unless_quiet() {
    assert_eq!(
        write_count(&settings(false, None), "0 3 12"),
        Emission { print: Some("0 3 12".to_string()), write: None }
    );
    assert_eq!(
        write_count(&settings(true, Some("out")), "0 3 12"),
        Emission { print: None, write: Some(("out".to_string(), "0 3 12".to_string())) }
    );
}

#[test]
fn value_goes_to_both_where_both_are_asked_for() {
    assert_eq!(
        write_count(&settings(false, Some("/run/unread")), "7"),
        Emission {
            print: Some("7".to_string()),
            write: Some(("/run/unread".to_string(), "7".to_string())),
        }
    );
}

#[test]
fn empty_line_is_a_value_too() {
    assert_eq!(
        write_count(&settings(false, Some("out")), ""),
        Emission { print: Some(String::new()), write: Some(("out".to_string(), String::new())) }
    );
}

#[test]
fn invalid_settings_send_nothing_anywhere() {
    assert_eq!(write_count(&settings(true, None), "7"), Emission { print: None, write: None });
}

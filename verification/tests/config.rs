use pigeons::config::{
    installing_user, installing_user_telemetry_choice, publish_telemetry_choice_to,
    report_service_telemetry, service_telemetry, Config, ConfigError, ConfigFile, InstallingUser,
    SYSTEM_CONFIG_DIR_MODE, SYSTEM_CONFIG_MODE,
};

fn setting(telemetry_enabled: Option<bool>) -> Config {
    Config { telemetry_enabled }
}

/// What a configuration file with this text holds.
fn parsed(text: &str) -> ConfigFile {
    let table: toml::Table = toml::from_str(text).unwrap();
    let value = table.get("telemetry_enabled").and_then(|v| v.as_bool());
    ConfigFile::Parsed(setting(value))
}

#[test]
fn empty_config() {
    let config = Config::load_from("config.toml", parsed("")).unwrap();
    assert_eq!(config.telemetry_enabled, None);
    assert_eq!(Config::default(), config);
}

#[test]
fn publishing_a_choice_writes_the_machine_wide_config() {
    for enabled in [true, false] {
        let bare = Config::load_from("config.toml", ConfigFile::Missing);

        let written = publish_telemetry_choice_to(Some(enabled), bare).unwrap();

        assert_eq!(written.telemetry_enabled, Some(enabled));
        assert_eq!(service_telemetry(Ok(written)), enabled);
    }
}

/// A machine-wide configuration that cannot be loaded is replaced.
#[test]
fn publishing_a_choice_replaces_a_broken_config() {
    let broken = Config::load_from("c", ConfigFile::Malformed("bad".to_string()));
    let written = publish_telemetry_choice_to(Some(true), broken).unwrap();
    assert_eq!(written, setting(Some(true)));
}

#[test]
fn publishing_nothing_keeps_the_existing_machine_wide_answer() {
    let load = || Config::load_from("config.toml", parsed("telemetry_enabled = true"));

    assert!(publish_telemetry_choice_to(None, load()).is_none());

    assert!(service_telemetry(load()));
}

#[test]
fn publishing_nothing_onto_a_bare_machine_leaves_the_service_opted_out() {
    let load = || Config::load_from("config.toml", ConfigFile::Missing);

    assert!(publish_telemetry_choice_to(None, load()).is_none());

    assert!(!service_telemetry(load()));
}

#[test]
fn the_machine_wide_modes_let_everyone_read() {
    assert_eq!(SYSTEM_CONFIG_MODE & 0o777, 0o644);
    assert_eq!(SYSTEM_CONFIG_DIR_MODE & 0o777, 0o755);
}

#[test]
fn config_path_in_a_home_matches_the_platform_layout() {
    for (os, expected) in [
        (
            "macos",
            "/home/pigeon/Library/Application Support/pigeons/config.toml",
        ),
        (
            "windows",
            "/home/pigeon/AppData/Roaming/pigeons/config.toml",
        ),
        ("linux", "/home/pigeon/.config/pigeons/config.toml"),
        ("freebsd", "/home/pigeon/.config/pigeons/config.toml"),
    ] {
        assert_eq!(
            format!("/home/pigeon/{}", Config::config_path_in(os)),
            expected
        );
    }
}

/// Not having written a config yet is the normal case, not an error.
#[test]
fn load_from_missing_file_yields_defaults() {
    let config = Config::load_from("config.toml", ConfigFile::Missing).unwrap();

    assert_eq!(config.telemetry_enabled, None);
}

#[test]
fn load_from_reads_settings_off_disk() {
    let config = Config::load_from("config.toml", parsed("telemetry_enabled = true")).unwrap();

    assert_eq!(
        config.telemetry_enabled,
        Some(true),
        "settings on disk must take precedence over the defaults"
    );
}

#[test]
fn configs_that_cannot_be_loaded_are_reported() {
    let unreadable = Config::load_from("/c", ConfigFile::Unreadable("denied".to_string()));
    assert_eq!(
        unreadable.unwrap_err().message(),
        "failed reading config at /c: denied"
    );
    let malformed = Config::load_from("/c", ConfigFile::Malformed("line 1".to_string()));
    assert_eq!(
        malformed.unwrap_err().message(),
        "failed parsing config at /c: line 1"
    );
}

#[test]
fn the_user_config_needs_a_place() {
    let none = Config::load_user("", None).unwrap_err();
    assert!(matches!(none, ConfigError::NoConfigDir));
    assert_eq!(none.message(), "can't figure out config dir on this system");
    assert_eq!(
        Config::load_user("/c", Some(ConfigFile::Parsed(setting(Some(false))))).unwrap(),
        setting(Some(false))
    );
    assert!(matches!(
        Config::load_user("/c", Some(ConfigFile::Unreadable("x".to_string()))),
        Err(ConfigError::Read { .. })
    ));
}

#[test]
fn the_user_setting_wins() {
    for system in [None, Some(true), Some(false)] {
        for user in [Some(true), Some(false)] {
            let loaded = Config::load(Ok(setting(user)), Some(Ok(setting(system)))).unwrap();
            assert_eq!(loaded.telemetry_enabled, user);
        }
        let loaded = Config::load(Ok(setting(None)), Some(Ok(setting(system)))).unwrap();
        assert_eq!(loaded.telemetry_enabled, system);
    }
}

#[test]
fn either_config_may_fail_to_load() {
    let error = || Err(ConfigError::NoConfigDir);
    assert!(Config::load(error(), None).is_err());
    assert!(Config::load(Ok(setting(Some(true))), Some(error())).is_err());
    assert_eq!(
        Config::load(Ok(setting(Some(true))), None).unwrap(),
        setting(Some(true))
    );
    assert_eq!(Config::load_or_default(error()), setting(None));
    assert_eq!(
        Config::load_or_default(Ok(setting(Some(true)))),
        setting(Some(true))
    );
}

#[test]
fn metrics_are_opt_in() {
    assert!(!setting(None).telemetry_enabled());
    assert!(!setting(Some(false)).telemetry_enabled());
    assert!(setting(Some(true)).telemetry_enabled());
}

#[test]
fn configs_have_their_places() {
    assert_eq!(Config::config_path(true).unwrap(), "pigeons/config.toml");
    assert!(matches!(
        Config::config_path(false),
        Err(ConfigError::NoConfigDir)
    ));
    assert_eq!(
        Config::system_config_path("linux").unwrap(),
        "/etc/pigeons/config.toml"
    );
    assert_eq!(
        Config::system_config_path("macos").unwrap(),
        "/etc/pigeons/config.toml"
    );
    assert_eq!(
        Config::system_config_path("windows").unwrap(),
        "C:\\ProgramData\\pigeons\\config.toml"
    );
    assert_eq!(
        Config::system_config_path("freebsd").unwrap_err().message(),
        "no machine-wide config location on freebsd"
    );
}

#[test]
fn the_installing_user_is_the_one_behind_sudo() {
    for unix in [true, false] {
        let user = installing_user(unix, Some("me".to_string()));
        assert!(matches!(&user, InstallingUser::Account(name) if name == "me"));
        assert_eq!(
            installing_user_telemetry_choice(&user, Some(Ok(setting(Some(false))))),
            Some(false)
        );
        assert_eq!(
            installing_user_telemetry_choice(&user, Some(Err(ConfigError::NoConfigDir))),
            None
        );
        assert_eq!(installing_user_telemetry_choice(&user, None), None);
    }
}

/// Elevation keeps the account where there is no sudo.
#[test]
fn the_installing_user_is_the_running_one_elsewhere() {
    let user = installing_user(false, None);
    assert!(matches!(user, InstallingUser::Current));
    assert_eq!(
        installing_user_telemetry_choice(&user, Some(Ok(setting(Some(true))))),
        Some(true)
    );
}

/// A root shell leaves nothing to trace an answer back to.
#[test]
fn a_root_shell_carries_nothing_over() {
    let user = installing_user(true, None);
    assert!(matches!(user, InstallingUser::Unknown));
    let choice = installing_user_telemetry_choice(&user, Some(Ok(setting(Some(true)))));
    assert_eq!(choice, None);
    let bare = || Config::load_from("config.toml", ConfigFile::Missing);
    assert!(publish_telemetry_choice_to(choice, bare()).is_none());
    assert!(!service_telemetry(bare()));
}

#[test]
fn the_setting_of_the_service_is_reported() {
    assert_eq!(
        report_service_telemetry(Ok(true), Some("/c".to_string())),
        vec![
            "Anonymous metrics: on for the service. Set telemetry_enabled = false in /c to turn them off."
        ]
    );
    assert_eq!(
        report_service_telemetry(Err("denied".to_string()), None),
        vec![
            "Could not record a telemetry setting for the service: denied",
            "Anonymous metrics: off for the service. Set telemetry_enabled = true in the machine-wide config to opt in."
        ]
    );
}

use secure_p2p_msg::config::{
    is_switched_on, load, AppConfig, EnvOverrides, NetworkSection, RootConfig, StorageSection,
};
use secure_p2p_msg::settings::{app_state_path, file_path, AccessibilitySettings, AppState};

fn no_env() -> EnvOverrides {
    EnvOverrides { data_dir: None, log_level: None, listen_addr: None, enable_mdns: None }
}

#[test]
fn loads_default_when_no_file() {
    let cfg = load(None, no_env(), "/home/user/.local/share/pigeon".to_string());
    // Accept either system data dir/pigeon or fallback .\pigeon
    let tail = cfg.data_dir.rsplit('/').next().unwrap_or("");
    assert_eq!(tail, "pigeon");
    assert_eq!(cfg.log_level, "info");
    assert_eq!(cfg.listen_addr, None);
    assert!(!cfg.enable_mdns);
}

#[test]
fn env_overrides_apply() {
    let temp = tempfile::tempdir().unwrap();
    let dir = temp.path().to_str().unwrap().to_string();
    let env = EnvOverrides {
        data_dir: Some(dir.clone()),
        log_level: Some("debug".to_string()),
        listen_addr: None,
        enable_mdns: None,
    };

    let cfg = load(None, env, "pigeon".to_string());
    assert_eq!(cfg.data_dir, dir);
    assert_eq!(cfg.log_level, "debug");
}

#[test]
fn file_sections_and_top_level_keys_merge() {
    let mut root = RootConfig::empty();
    root.storage = Some(StorageSection { data_dir: Some("/from/section".to_string()) });
    root.network = Some(NetworkSection {
        listen_addr: Some("/ip4/0.0.0.0/tcp/1".to_string()),
        enable_mdns: Some(true),
    });
    let cfg = root.into_app_config("/default".to_string());
    assert_eq!(cfg.data_dir, "/from/section");
    assert_eq!(cfg.log_level, "info");
    assert_eq!(cfg.listen_addr, Some("/ip4/0.0.0.0/tcp/1".to_string()));
    assert!(cfg.enable_mdns);

    let mut root = RootConfig::empty();
    root.data_dir = Some("/from/top".to_string());
    root.log_level = Some("warn".to_string());
    root.listen_addr = Some("/ip4/0.0.0.0/tcp/2".to_string());
    root.enable_mdns = Some(false);
    root.storage = Some(StorageSection { data_dir: Some("/from/section".to_string()) });
    root.network = Some(NetworkSection {
        listen_addr: Some("/ip4/0.0.0.0/tcp/1".to_string()),
        enable_mdns: Some(true),
    });
    let cfg = root.into_app_config("/default".to_string());
    assert_eq!(cfg.data_dir, "/from/top");
    assert_eq!(cfg.log_level, "warn");
    assert_eq!(cfg.listen_addr, Some("/ip4/0.0.0.0/tcp/2".to_string()));
    assert!(!cfg.enable_mdns);

    let cfg = RootConfig::empty().into_app_config("/default".to_string());
    assert_eq!(cfg.data_dir, "/default");
}

#[test]
fn environment_beats_file() {
    let mut root = RootConfig::empty();
    root.data_dir = Some("/from/file".to_string());
    root.enable_mdns = Some(false);
    let env = EnvOverrides {
        data_dir: None,
        log_level: None,
        listen_addr: Some("/ip4/1.1.1.1/tcp/9".to_string()),
        enable_mdns: Some("YES".to_string()),
    };
    let cfg = load(Some(root), env, "/default".to_string());
    assert_eq!(cfg.data_dir, "/from/file");
    assert_eq!(cfg.listen_addr, Some("/ip4/1.1.1.1/tcp/9".to_string()));
    assert!(cfg.enable_mdns);
}

#[test]
fn switches_are_one_true_or_yes() {
    for on in ["1", "true", "TRUE", "True", "yes", "Yes"] {
        assert!(is_switched_on(on));
    }
    for off in ["0", "false", "no", "", "on", "yess", " true"] {
        assert!(!is_switched_on(off));
    }
}

#[test]
fn defaults_and_paths() {
    let cfg = AppConfig::with_defaults("/d".to_string());
    assert_eq!(cfg.data_dir, "/d");
    assert_eq!(cfg.log_level, "info");
    assert_eq!(file_path("/d"), "/d/a11y.toml");
    assert_eq!(app_state_path("/d"), "/d/app_state.toml");
    assert_eq!(
        AccessibilitySettings::default(),
        AccessibilitySettings { reduce_motion: false, high_contrast: false, larger_text: false }
    );
    assert_eq!(AppState::default(), AppState { onboarded: false });
}

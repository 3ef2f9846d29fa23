use glorp::flaglist::{defaults, merge, parse, unix, windows, UserFlags};

fn user(flags: &[&str], disabled: &[&str]) -> UserFlags {
    UserFlags {
        flags: flags.iter().map(|s| s.to_string()).collect(),
        disabled_defaults: disabled.iter().map(|s| s.to_string()).collect(),
    }
}

#[test]
fn drops_disabled_defaults_and_appends_user_flags() {
    let out = merge(vec!["--a".into(), "--b".into()], &user(&["--z"], &["--a"]));
    assert!(!out.contains(&"--a".to_string()));
    assert!(out.contains(&"--b".to_string()));
    assert!(out.contains(&"--z".to_string()));
}

#[test]
fn malformed_json_yields_empty_user_flags() {
    let parsed = parse(serde_json::from_str::<serde_json::Value>("{ not json").map(|_| UserFlags::default()));
    assert!(parsed.flags.is_empty());
    assert!(parsed.disabled_defaults.is_empty());
}

#[test]
fn bundled_defaults_parse() {
    assert!(defaults().len() > 20, "expected the full default flag set");
}

#[test]
fn windows_filter_is_the_identity() {
    let input = vec![
        "--raise-timer-frequency".to_string(),
        "--disable-features=msWebOOUI,MediaRouter".to_string(),
    ];
    assert_eq!(windows::filter_for_platform(input.clone()), input);
}

#[test]
fn windows_defaults_pass_through_untouched() {
    let d = defaults();
    assert_eq!(windows::filter_for_platform(d.clone()), d);
}

#[test]
fn drops_windows_only_switches_on_linux() {
    let out = unix::filter_for_platform(vec!["--raise-timer-frequency".to_string(), "--enable-quic".to_string()]);
    assert_eq!(out, vec!["--enable-quic".to_string()]);
}

#[test]
fn strips_edge_only_features_but_keeps_the_rest() {
    let out = unix::filter_for_platform(vec!["--disable-features=msWebOOUI,MediaRouter".to_string()]);
    assert_eq!(out, vec!["--disable-features=MediaRouter".to_string()]);
}

#[test]
fn drops_a_feature_switch_that_becomes_empty() {
    let out = unix::filter_for_platform(vec!["--disable-features=msWebOOUI".to_string()]);
    assert!(out.is_empty());
}

#[test]
fn linux_keeps_the_performance_switches() {
    let out = unix::filter_for_platform(defaults());
    for expected in ["--enable-gpu-rasterization", "--enable-zero-copy", "--disable-gpu-watchdog"] {
        assert!(out.iter().any(|f| f == expected), "lost {expected}");
    }
    assert!(!out.iter().any(|f| f.starts_with("--enable-waitable-swap-chain")));
    assert!(!out.iter().any(|f| f.contains("msWebOOUI")));
}

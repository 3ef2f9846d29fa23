use glorp::blocklist::{defaults, glob_match, is_blocked, merge, parse, UserBlocklist};

fn user(blocked: &[&str], disabled: &[&str]) -> UserBlocklist {
    UserBlocklist {
        blocked: blocked.iter().map(|s| s.to_string()).collect(),
        disabled_defaults: disabled.iter().map(|s| s.to_string()).collect(),
    }
}

fn parse_text(contents: &str) -> UserBlocklist {
    // a text that is not JSON at all gives the same error to any target type
    parse(serde_json::from_str::<serde_json::Value>(contents).map(|_| UserBlocklist::default()))
}

#[test]
fn keeps_defaults_when_nothing_disabled() {
    let out = merge(vec!["a".into(), "b".into()], &user(&[], &[]));
    assert_eq!(out.len(), 2);
}

#[test]
fn drops_disabled_defaults() {
    let out = merge(vec!["a".into(), "b".into()], &user(&[], &["a"]));
    assert_eq!(out, vec!["b".to_string()]);
}

#[test]
fn appends_user_entries() {
    let out = merge(vec!["a".into()], &user(&["z"], &[]));
    assert!(out.contains(&"z".to_string()));
    assert!(out.contains(&"a".to_string()));
}

#[test]
fn malformed_json_yields_empty_user_list() {
    let parsed = parse_text("{ not json");
    assert!(parsed.blocked.is_empty());
    assert!(parsed.disabled_defaults.is_empty());
}

#[test]
fn every_bundled_default_is_valid_json() {
    let d = defaults();
    assert!(!d.is_empty(), "DEFAULT_BLOCKLIST failed to parse");
    assert!(d.iter().all(|p| p.contains("://")), "every entry is a URL pattern");
}

#[test]
fn subdomain_wildcard_matches_real_ad_url() {
    assert!(glob_match("*://*.doubleclick.net/*", "https://googleads.g.doubleclick.net/pagead/ads?x=1"));
}

#[test]
fn scheme_wildcard_matches_both_schemes() {
    assert!(glob_match("*://*.youtube.com/*", "http://www.youtube.com/x"));
    assert!(glob_match("*://*.youtube.com/*", "https://www.youtube.com/x"));
}

#[test]
fn trailing_star_matches_query_string() {
    assert!(glob_match("*://krunker.io/service-worker.js*", "https://krunker.io/service-worker.js?v=3"));
}

#[test]
fn does_not_match_unrelated_host() {
    assert!(!glob_match("*://*.doubleclick.net/*", "https://krunker.io/js/game.js"));
}

// a bad matcher that blocks the game itself is worse than no blocklist
#[test]
fn core_game_assets_are_never_blocked() {
    let d = defaults();
    for url in [
        "https://krunker.io/",
        "https://krunker.io/js/game.js",
        "https://assets.krunker.io/models/weapon_0.obj",
        "wss://lobby-fra.krunker.io/socket",
    ] {
        assert!(!is_blocked(&d, url), "blocklist wrongly blocked {url}");
    }
}

#[test]
fn known_trackers_are_blocked() {
    let d = defaults();
    for url in [
        "https://googleads.g.doubleclick.net/pagead/ads?x=1",
        "https://platform.twitter.com/widgets/widget_iframe.html",
        "https://www.google-analytics.com/analytics.js",
        "https://krunker.io/service-worker.js",
    ] {
        assert!(is_blocked(&d, url), "blocklist missed {url}");
    }
}

// don't fail on malformed user file
#[test]
fn malformed_user_file_still_yields_the_defaults() {
    let out = merge(defaults(), &parse_text("{ not json"));
    assert_eq!(out.len(), defaults().len());
}

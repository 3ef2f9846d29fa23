use glorp::blocklist::{self, active_patterns, glob_match, is_blocked, UserBlocklist};
use glorp::bridge::{
    dispatch_script, document_start_script, js_string, parse_args_script, parse_query, rpc_state, settings_entry, Query,
    WEBVIEW_SHIM,
};
use glorp::flaglist::{self, unix, windows, UserFlags};
use glorp::handlers::{key_action, mime_for, swap_key, KeyAction};
use glorp::ping::lobby_host;
use glorp::settings::{setting_value, SettingValue};
use glorp::swapper::{relative_url_path, swap_filter_patterns, PathPart};
use glorp::switches::{launch_args, merged_switch_value, switch_for_flag, Switch};
use glorp::urls::new_lobby_url;
use glorp::userscripts::{is_js_extension, parse};
use glorp::window_state::{initial_bounds, initial_show_state, is_frameless, uses_saved_position, Position, ShowState, WindowState};

fn strings(items: &[&str]) -> Vec<String> {
    items.iter().map(|s| s.to_string()).collect()
}

// ------------------------------------------------------------------ glob

#[test]
fn literal_pattern_matches_only_itself() {
    assert!(glob_match("https://krunker.io/", "https://krunker.io/"));
    assert!(!glob_match("https://krunker.io/", "https://krunker.io/x"));
    assert!(!glob_match("https://krunker.io/x", "https://krunker.io/"));
}

#[test]
fn lone_star_matches_every_text() {
    assert!(glob_match("*", ""));
    assert!(glob_match("*", "anything at all"));
    assert!(glob_match("**", "abc"));
}

#[test]
fn empty_pattern_matches_only_empty_text() {
    assert!(glob_match("", ""));
    assert!(!glob_match("", "a"));
}

#[test]
fn star_needs_backtracking() {
    assert!(glob_match("*ab", "aab"));
    assert!(glob_match("a*b*c", "axxbyybc"));
    assert!(!glob_match("a*b*c", "axxbyyb"));
}

#[test]
fn a_star_in_the_text_is_an_ordinary_character() {
    assert!(glob_match("*", "*x"));
    assert!(glob_match("**", "*x"));
    assert!(glob_match("a*", "a*"));
    assert!(!glob_match("*b", "*x"));
}

#[test]
fn nothing_is_blocked_by_no_patterns() {
    assert!(!is_blocked(&[], "https://googleads.g.doubleclick.net/"));
}

#[test]
fn blocking_turned_off_checks_against_nothing() {
    assert!(active_patterns(false, &UserBlocklist::default()).is_empty());
    assert_eq!(active_patterns(true, &UserBlocklist::default()), blocklist::defaults());
}

#[test]
fn merge_with_no_user_changes_is_the_defaults() {
    let d = blocklist::defaults();
    assert_eq!(blocklist::merge(d.clone(), &UserBlocklist::default()), d);
}

#[test]
fn merge_keeps_order_of_defaults_then_user_entries() {
    let user = UserBlocklist { blocked: strings(&["u1", "u2"]), disabled_defaults: strings(&["b"]) };
    assert_eq!(blocklist::merge(strings(&["a", "b", "c"]), &user), strings(&["a", "c", "u1", "u2"]));
}

// ------------------------------------------------------------------ flags

#[test]
fn cleaning_up_twice_is_cleaning_up_once() {
    let once = unix::filter_for_platform(flaglist::defaults());
    assert_eq!(unix::filter_for_platform(once.clone()), once);
}

#[test]
fn enable_features_are_stripped_too() {
    let out = unix::filter_for_platform(strings(&["--enable-features=msPdfOOUI,Foo,slow-dc-timer-interrupts-win,Bar"]));
    assert_eq!(out, strings(&["--enable-features=Foo,Bar"]));
}

#[test]
fn other_switches_with_a_value_are_left_alone() {
    let out = unix::filter_for_platform(strings(&["--autoplay-policy=msWebOOUI", "--foo=", "--raise-timer-frequency=1"]));
    assert_eq!(out, strings(&["--autoplay-policy=msWebOOUI"]));
}

#[test]
fn windows_join_ends_each_switch_with_a_space() {
    assert_eq!(windows::join(strings(&["--a", "--b=1"])), "--a --b=1 ");
    assert_eq!(windows::join(Vec::new()), "");
}

#[test]
fn launch_flags_add_the_frame_rate_switch_when_uncapped() {
    let user = UserFlags::default();
    let capped = unix::launch_flags(&user, false);
    let uncapped = unix::launch_flags(&user, true);
    assert_eq!(uncapped.len(), capped.len() + 1);
    assert_eq!(uncapped.last().map(|s| s.as_str()), Some("--disable-frame-rate-limit"));
    assert_eq!(capped, unix::filter_for_platform(flaglist::defaults()));
}

// ------------------------------------------------------------------ user scripts

#[test]
fn preparing_twice_is_preparing_once() {
    for src in ["console.log(1)", "// ==UserScript==\n// ==/UserScript==\nx()", "(f)()", "  'use strict';\n(function(){})()\n"] {
        let once = parse(src.to_string());
        assert_eq!(parse(once.clone()), once);
    }
}

#[test]
fn whitespace_before_the_final_semicolon_is_still_an_iife() {
    for src in ["(f)() ;", "(f)()\n;\n", "(function(){})( ) \t"] {
        assert_eq!(parse(src.to_string()), src);
    }
}

#[test]
fn use_strict_iife_is_left_alone() {
    let src = "\"use strict\";\n(function () { go(); })( );\n".to_string();
    assert_eq!(parse(src.clone()), src);
}

#[test]
fn metadata_after_leading_whitespace_still_counts() {
    let src = "\n  // ==UserScript==\n// ==/UserScript==\ngo()".to_string();
    let out = parse(src.clone());
    assert_eq!(out, format!("(function() {{\ndocument.addEventListener('DOMContentLoaded', function() {{\n{}\n}});\n}})();", src));
}

#[test]
fn unclosed_metadata_is_not_deferred() {
    let src = "// ==UserScript==\ngo()".to_string();
    assert_eq!(parse(src.clone()), format!("(function() {{\n{}\n}})();", src));
}

#[test]
fn a_call_with_arguments_is_wrapped() {
    for src in ["(function(x){ go(x); })(1);", "(f)();\ngo()", "(f)()();x", "'use strict';;(f)()"] {
        assert_eq!(parse(src.to_string()), format!("(function() {{\n{}\n}})();", src));
    }
}

#[test]
fn use_strict_without_semicolon_or_with_single_quotes_is_an_iife() {
    for src in ["'use strict'(f)()", "'use strict' (f)()", "'use strict'\n(f)()", " \"use strict';(f)( )"] {
        assert_eq!(parse(src.to_string()), src);
    }
}

#[test]
fn the_first_closing_line_ends_the_metadata_block() {
    let src = "// ==UserScript==\n// ==/UserScript==\n// @run-at document-start\n// ==/UserScript==\ngo()".to_string();
    assert!(parse(src).contains("DOMContentLoaded"));
}

#[test]
fn metadata_must_open_the_script() {
    let src = "go();\n// ==UserScript==\n// ==/UserScript==\n".to_string();
    assert_eq!(parse(src.clone()), format!("(function() {{\n{}\n}})();", src));
}

#[test]
fn js_extension_in_any_case() {
    assert!(is_js_extension("js"));
    assert!(is_js_extension("JS"));
    assert!(is_js_extension("jS"));
    assert!(!is_js_extension("jsx"));
    assert!(!is_js_extension("txt"));
}

// ------------------------------------------------------------------ urls

#[test]
fn lobby_id_is_trimmed() {
    assert_eq!(new_lobby_url("https://krunker.io/?game= FRA:x1 \n"), "https://krunker.io/?exclude=FRA:x1");
    assert_eq!(new_lobby_url("https://krunker.io/?game=   "), "https://krunker.io/");
}

#[test]
fn first_game_parameter_wins() {
    assert_eq!(new_lobby_url("?game=A&game=B"), "https://krunker.io/?exclude=A&game=B");
}

// ------------------------------------------------------------------ swapper

fn normal(s: &str) -> PathPart {
    PathPart::Normal(s.as_bytes().to_vec())
}

#[test]
fn paths_outside_the_folder_have_no_key() {
    let root = vec![PathPart::RootDir, normal("swap")];
    assert_eq!(relative_url_path(&root, &vec![PathPart::RootDir, normal("other"), normal("a.js")]), None);
    assert_eq!(relative_url_path(&root, &root), None);
    assert_eq!(relative_url_path(&root, &vec![PathPart::RootDir]), None);
}

#[test]
fn odd_components_have_no_key() {
    let root = vec![PathPart::RootDir, normal("swap")];
    let up = vec![PathPart::RootDir, normal("swap"), PathPart::ParentDir, normal("a.js")];
    assert_eq!(relative_url_path(&root, &up), None);
    let bad = vec![PathPart::RootDir, normal("swap"), PathPart::Normal(vec![0x66, 0xff, 0x6f])];
    assert_eq!(relative_url_path(&root, &bad), None);
    let text = vec![PathPart::RootDir, normal("swap"), normal("é"), normal("b.png")];
    assert_eq!(relative_url_path(&root, &text).as_deref(), Some("é/b.png"));
}

#[test]
fn swap_filters_cover_the_domain_and_its_subdomains() {
    let (main, sub) = swap_filter_patterns("img/x.png");
    assert_eq!(main, "*://krunker.io/img/x.png*");
    assert_eq!(sub, "*://*.krunker.io/img/x.png*");
}

// ------------------------------------------------------------------ handlers

#[test]
fn swap_key_is_the_path_without_query() {
    assert_eq!(swap_key("https://krunker.io/img/x.png?v=2"), Some("img/x.png"));
    assert_eq!(swap_key("https://assets.krunker.io/models/a.obj"), Some("models/a.obj"));
    assert_eq!(swap_key("https://example.com/a"), None);
    assert_eq!(swap_key("https://krunker.io/a/krunker.io/b"), Some("a/"));
}

#[test]
fn mime_types_by_extension() {
    assert_eq!(mime_for("js/game.js"), "text/javascript");
    assert_eq!(mime_for("a.mjs"), "text/javascript");
    assert_eq!(mime_for("a.css"), "text/css");
    assert_eq!(mime_for("a.htm"), "text/html");
    assert_eq!(mime_for("a.json"), "application/json");
    assert_eq!(mime_for("a.jpeg"), "image/jpeg");
    assert_eq!(mime_for("a.b.svg"), "image/svg+xml");
    assert_eq!(mime_for("a.wasm"), "application/wasm");
    assert_eq!(mime_for("a.ogg"), "audio/ogg");
    assert_eq!(mime_for("js"), "text/javascript");
    assert_eq!(mime_for("a.obj"), "application/octet-stream");
    assert_eq!(mime_for("noext"), "application/octet-stream");
}

#[test]
fn function_keys_map_to_actions() {
    assert_eq!(key_action(0x73), KeyAction::NewLobby);
    assert_eq!(key_action(0x75), KeyAction::NewLobby);
    assert_eq!(key_action(0x74), KeyAction::Reload);
    assert_eq!(key_action(0x7A), KeyAction::ToggleFullscreen);
    assert_eq!(key_action(0x7B), KeyAction::DevTools);
    assert_eq!(key_action(0x41), KeyAction::Unhandled);
}

#[test]
fn lobby_host_without_port() {
    assert_eq!(lobby_host("wss://lobby-fra.krunker.io:443/socket?x"), Some("lobby-fra.krunker.io"));
    assert_eq!(lobby_host("wss://lobby-fra.krunker.io/socket"), Some("lobby-fra.krunker.io"));
    assert_eq!(lobby_host("wss://chat.krunker.io/socket"), None);
    assert_eq!(lobby_host("lobby-without-scheme"), None);
}

// ------------------------------------------------------------------ bridge

#[test]
fn js_string_escapes_like_json() {
    assert_eq!(js_string("a\"b\\c\nd\u{1}é"), "\"a\\\"b\\\\c\\nd\\u0001é\"");
    assert_eq!(js_string(""), "\"\"");
}

#[test]
fn page_scripts_are_built_around_their_payload() {
    assert_eq!(dispatch_script("{\"pingInfo\":5}"), "window.__glorpDispatch && window.__glorpDispatch({\"pingInfo\":5});");
    assert_eq!(
        parse_args_script("a \"b\""),
        "window.glorp && window.glorp.parseArgs && window.glorp.parseArgs(\"a \\\"b\\\"\");"
    );
    assert_eq!(rpc_state("FFA", "Sandstorm"), "FFA on Sandstorm");
}

#[test]
fn document_start_script_puts_each_user_script_on_its_own_line() {
    let out = document_start_script("B", &strings(&["s1", "s2"]));
    assert_eq!(out, format!("{}B\ns1\ns2", WEBVIEW_SHIM));
    assert_eq!(document_start_script("", &Vec::new()), WEBVIEW_SHIM);
}

#[test]
fn queries_are_read_by_their_pieces() {
    match parse_query("set-config, fov ,  90") {
        Query::SetConfig(k, v) => assert_eq!((k.as_str(), v.as_str()), ("fov", "90")),
        _ => panic!("expected set-config"),
    }
    assert!(matches!(parse_query("get-info"), Query::GetInfo));
    assert!(matches!(parse_query(" close "), Query::Close));
    assert!(matches!(parse_query("open, swapper"), Query::Open(t) if t == "swapper"));
    assert!(matches!(parse_query("rpc-update, FFA, Burg"), Query::RpcUpdate(m, p) if m == "FFA" && p == "Burg"));
    assert!(matches!(parse_query("throttle, game"), Query::Throttle(s) if s == "throttle"));
    assert!(matches!(parse_query("throttle, menu"), Query::Throttle(s) if s == "inMenuThrottle"));
    assert!(matches!(parse_query("clear-cache"), Query::ClearCache));
    assert!(matches!(parse_query("ping"), Query::Ping));
    assert!(matches!(parse_query("drag, 1"), Query::Ignored));
    assert!(matches!(parse_query("close, now"), Query::Ignored));
    assert!(matches!(parse_query("set-config,fov,90"), Query::Ignored));
    assert!(matches!(parse_query(""), Query::Ignored));
}

#[test]
fn open_targets_name_settings_entries() {
    assert_eq!(settings_entry("blocklist"), Some("user_blocklist.json"));
    assert_eq!(settings_entry("swapper"), Some("swapper"));
    assert_eq!(settings_entry("userscripts"), Some("scripts"));
    assert_eq!(settings_entry("elsewhere"), None);
}

#[test]
fn setting_values_read_as_bool_or_integer() {
    assert_eq!(setting_value("true"), SettingValue::Bool(true));
    assert_eq!(setting_value("false"), SettingValue::Bool(false));
    assert_eq!(setting_value("True"), SettingValue::Other);
    assert_eq!(setting_value("42"), SettingValue::Int(42));
    assert_eq!(setting_value("+7"), SettingValue::Int(7));
    assert_eq!(setting_value("-15"), SettingValue::Int(-15));
    assert_eq!(setting_value("9223372036854775807"), SettingValue::Int(i64::MAX));
    assert_eq!(setting_value("-9223372036854775808"), SettingValue::Int(i64::MIN));
    assert_eq!(setting_value("9223372036854775808"), SettingValue::Other);
    assert_eq!(setting_value("99999999999999999999999"), SettingValue::Other);
    assert_eq!(setting_value("-"), SettingValue::Other);
    assert_eq!(setting_value(""), SettingValue::Other);
    assert_eq!(setting_value("1.5"), SettingValue::Other);
    assert_eq!(setting_value("12a"), SettingValue::Other);
}

// ------------------------------------------------------------------ switches

#[test]
fn flags_become_switches() {
    assert!(matches!(switch_for_flag("--disable-features=A,B"), Switch::List(k, v) if k == "disable-features" && v == "A,B"));
    assert!(matches!(switch_for_flag("--autoplay-policy=x=y"), Switch::Valued(k, v) if k == "autoplay-policy" && v == "x=y"));
    assert!(matches!(switch_for_flag("----enable-quic"), Switch::Plain(k) if k == "enable-quic"));
    assert!(matches!(switch_for_flag("---x"), Switch::Plain(k) if k == "-x"));
}

#[test]
fn list_switch_values_merge_without_repeats() {
    assert_eq!(merged_switch_value("A,B", "B,C,,A,D"), "A,B,C,D");
    assert_eq!(merged_switch_value("", "C,C"), "C");
    assert_eq!(merged_switch_value(",A,", ""), "A");
    let once = merged_switch_value("A", "B,C");
    assert_eq!(merged_switch_value(&once, "B,C"), once);
}

#[test]
fn launch_args_leave_out_switches() {
    assert_eq!(launch_args(strings(&["--flag", "krunker://x", "-v", "--"])), strings(&["krunker://x", "-v"]));
}

// ------------------------------------------------------------------ window

#[test]
fn window_bounds_from_saved_state() {
    let p = Position { left: 10, top: 20, right: 110, bottom: 70 };
    assert_eq!(p.width(), 100);
    assert_eq!(p.height(), 50);
    let b = initial_bounds(Some(WindowState { fullscreen: false, position: p }));
    assert_eq!((b.x, b.y, b.width, b.height), (10, 20, 100, 50));
    let empty = initial_bounds(Some(WindowState::default()));
    assert_eq!((empty.x, empty.y, empty.width, empty.height), (0, 0, 1600, 900));
    let none = initial_bounds(None);
    assert_eq!((none.width, none.height), (1600, 900));
}

#[test]
fn start_modes() {
    assert_eq!(initial_show_state("Maximized"), ShowState::Maximized);
    assert_eq!(initial_show_state("Borderless Fullscreen"), ShowState::Fullscreen);
    assert_eq!(initial_show_state("Remember Previous"), ShowState::Normal);
    assert!(is_frameless("Borderless Fullscreen"));
    assert!(!is_frameless("Maximized"));
    assert!(uses_saved_position("Remember Previous"));
    assert!(uses_saved_position("Custom"));
    assert!(!uses_saved_position("Maximized"));
}

// ------------------------------------------------------------------ json

#[test]
fn failed_parse_gives_no_strings() {
    let err = serde_json::from_str::<Vec<String>>("[1,").unwrap_err();
    assert!(glorp::json::strings_or_empty(Err(err)).is_empty());
    assert_eq!(glorp::json::strings_or_empty(Ok(strings(&["a", "b"]))), strings(&["a", "b"]));
}

#[test]
fn parsed_user_lists_are_kept_as_read() {
    let user = UserFlags { flags: strings(&["--x"]), disabled_defaults: Vec::new() };
    let kept = flaglist::parse(Ok(user));
    assert_eq!(kept.flags, strings(&["--x"]));
    let blocked = blocklist::parse(Ok(UserBlocklist { blocked: strings(&["*://a/*"]), disabled_defaults: strings(&["b"]) }));
    assert_eq!(blocked.blocked, strings(&["*://a/*"]));
    assert_eq!(blocked.disabled_defaults, strings(&["b"]));
}

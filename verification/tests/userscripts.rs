use glorp::userscripts::parse;

#[test]
fn wraps_bare_script_in_iife() {
    let out = parse("console.log(1)".to_string());
    assert!(out.starts_with("(function()"));
    assert!(out.trim_end().ends_with("})();"));
}

#[test]
fn leaves_existing_iife_alone() {
    let src = "(function(){ console.log(1) })();".to_string();
    assert_eq!(parse(src.clone()), src);
}

#[test]
fn defers_script_without_run_at_document_start() {
    let src = "// ==UserScript==\n// @name t\n// ==/UserScript==\nconsole.log(1)".to_string();
    assert!(parse(src).contains("DOMContentLoaded"));
}

#[test]
fn respects_run_at_document_start() {
    let src = "// ==UserScript==\n// @run-at document-start\n// ==/UserScript==\nconsole.log(1)".to_string();
    assert!(!parse(src).contains("DOMContentLoaded"));
}

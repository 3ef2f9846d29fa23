//! The page bridge: scripts injected into the page and the requests the page
//! sends back.

use vstd::prelude::*;
use crate::text::{
    views, str_views, split_seq, trim, split_str, trim_str, str_eq,
};
use crate::json::{json_quoted, str_to_json};

verus! {

// The frontend only ever uses postMessage / addEventListener /
// removeEventListener, so shimming those three onto cefQuery keeps the page
// bundle identical on both platforms.
/// The script that gives the page WebView2's messaging interface under CEF.
pub const WEBVIEW_SHIM: &'static str = r#"
window.__glorpErrors = [];
window.addEventListener("error", (e) => {
  window.__glorpErrors.push("ERR " + e.message + " @ " + (e.filename || "?") + ":" + e.lineno);
});
window.addEventListener("unhandledrejection", (e) => {
  window.__glorpErrors.push("REJECT " + String(e.reason && e.reason.stack ? e.reason.stack : e.reason));
});
(() => {
  if (window.chrome && window.chrome.webview) return;
  const listeners = new Set();
  window.chrome = window.chrome || {};
  window.chrome.webview = {
    postMessage(msg) {
      window.cefQuery({ request: String(msg), persistent: false, onSuccess() {}, onFailure() {} });
    },
    addEventListener(type, fn) { if (type === "message") listeners.add(fn); },
    removeEventListener(type, fn) { if (type === "message") listeners.delete(fn); },
  };
  // rust -> page, mirroring WebView2's event.data semantics
  window.__glorpDispatch = (data) => {
    for (const fn of listeners) {
      try { fn({ data }); } catch (e) { console.error(e); }
    }
  };
})();
"#;

/// `value` as a JavaScript string literal (JSON).
pub fn js_string(value: &str) -> (r: String)
    ensures
        r@ == json_quoted(value@),
{
    match str_to_json(value) {
        Ok(s) => s,
        Err(_) => String::from_str("\"\""),
    }
}

/// The script that hands `payload` (a JavaScript expression) to the page's
/// message listeners.
pub open spec fn dispatch_source(payload: Seq<char>) -> Seq<char> {
    "window.__glorpDispatch && window.__glorpDispatch("@ + payload + ");"@
}

/// The script that hands `payload` (a JavaScript expression) to the page's
/// message listeners.
pub fn dispatch_script(payload: &str) -> (r: String)
    ensures
        r@ == dispatch_source(payload@),
{
    let mut out = String::from_str("window.__glorpDispatch && window.__glorpDispatch(");
    out.append(payload);
    out.append(");");
    out
}

/// The script that hands a second launch's arguments to the running page.
pub open spec fn parse_args_source(args: Seq<char>) -> Seq<char> {
    "window.glorp && window.glorp.parseArgs && window.glorp.parseArgs("@ + json_quoted(args) + ");"@
}

/// The script that hands a second launch's arguments to the running page.
pub fn parse_args_script(args: &str) -> (r: String)
    ensures
        r@ == parse_args_source(args@),
{
    let quoted = js_string(args);
    let mut out = String::from_str("window.glorp && window.glorp.parseArgs && window.glorp.parseArgs(");
    out.append(quoted.as_str());
    out.append(");");
    out
}

/// Each script preceded by a line break, in order.
pub open spec fn newline_each(scripts: Seq<Seq<char>>) -> Seq<char>
    decreases scripts.len(),
{
    if scripts.len() == 0 {
        Seq::empty()
    } else {
        newline_each(scripts.drop_last()) + seq!['\n'] + scripts.last()
    }
}

/// What runs at document start: the shim, the client bundle, then each user
/// script on a line of its own.
pub fn document_start_script(bundle: &str, scripts: &Vec<String>) -> (r: String)
    ensures
        r@ == WEBVIEW_SHIM@ + bundle@ + newline_each(views(scripts@)),
{
    let mut out = String::from_str(WEBVIEW_SHIM);
    out.append(bundle);
    let ghost head = WEBVIEW_SHIM@ + bundle@;
    let mut i: usize = 0;
    while i < scripts.len()
        invariant
            i <= scripts@.len(),
            out@ == head + newline_each(views(scripts@).take(i as int)),
        decreases scripts.len() - i,
    {
        out.append("\n");
        out.append(scripts[i].as_str());
        proof {
            reveal_strlit("\n");
            let sv = views(scripts@);
            assert(sv.take(i + 1).drop_last() =~= sv.take(i as int));
            assert(out@ =~= head + newline_each(sv.take(i + 1)));
        }
        i += 1;
    }
    proof {
        assert(views(scripts@).take(scripts@.len() as int) =~= views(scripts@));
    }
    out
}

/// The Discord activity line for a game mode on a map.
pub fn rpc_state(mode: &str, map: &str) -> (r: String)
    ensures
        r@ == mode@ + " on "@ + map@,
{
    let mut out = String::from_str(mode);
    out.append(" on ");
    out.append(map);
    out
}

/// A request that the page sends.
pub enum Query {
    /// Store a setting: its name and its text value.
    SetConfig(String, String),
    /// Send the client's settings and version to the page.
    GetInfo,
    /// Quit.
    Close,
    /// Open a file or folder of the settings directory.
    Open(String),
    /// Show a game mode and map in the Discord activity.
    RpcUpdate(String, String),
    /// Apply the CPU throttle that the named setting holds.
    Throttle(String),
    /// Clear the browser cache and reload.
    ClearCache,
    /// Measure the round trip to the current lobby.
    Ping,
    /// Anything else, and the requests that only the WebView2 build serves.
    Ignored,
}

/// A request from the page, as plain values.
pub enum QueryView {
    SetConfig(Seq<char>, Seq<char>),
    GetInfo,
    Close,
    Open(Seq<char>),
    RpcUpdate(Seq<char>, Seq<char>),
    Throttle(Seq<char>),
    ClearCache,
    Ping,
    Ignored,
}

impl View for Query {
    type V = QueryView;

    open spec fn view(&self) -> QueryView {
        match self {
            Query::SetConfig(a, b) => QueryView::SetConfig(a@, b@),
            Query::GetInfo => QueryView::GetInfo,
            Query::Close => QueryView::Close,
            Query::Open(a) => QueryView::Open(a@),
            Query::RpcUpdate(a, b) => QueryView::RpcUpdate(a@, b@),
            Query::Throttle(a) => QueryView::Throttle(a@),
            Query::ClearCache => QueryView::ClearCache,
            Query::Ping => QueryView::Ping,
            Query::Ignored => QueryView::Ignored,
        }
    }
}

/// Each piece trimmed.
pub open spec fn trim_each(xs: Seq<Seq<char>>) -> Seq<Seq<char>> {
    xs.map_values(|p: Seq<char>| trim(p))
}

/// The trimmed pieces of a request, split at `", "`.
pub open spec fn query_parts(request: Seq<char>) -> Seq<Seq<char>> {
    trim_each(split_seq(request, ", "@))
}

/// The request that the pieces name.
pub open spec fn query_of(parts: Seq<Seq<char>>) -> QueryView {
    let n = parts.len();
    if n == 3 && parts[0] == "set-config"@ {
        QueryView::SetConfig(parts[1], parts[2])
    } else if n == 1 && parts[0] == "get-info"@ {
        QueryView::GetInfo
    } else if n == 1 && parts[0] == "close"@ {
        QueryView::Close
    } else if n == 2 && parts[0] == "open"@ {
        QueryView::Open(parts[1])
    } else if n == 3 && parts[0] == "rpc-update"@ {
        QueryView::RpcUpdate(parts[1], parts[2])
    } else if n == 2 && parts[0] == "throttle"@ {
        QueryView::Throttle(if parts[1] == "game"@ { "throttle"@ } else { "inMenuThrottle"@ })
    } else if n == 1 && parts[0] == "clear-cache"@ {
        QueryView::ClearCache
    } else if n == 1 && parts[0] == "ping"@ {
        QueryView::Ping
    } else {
        QueryView::Ignored
    }
}

/// The request that the page sent.
pub fn parse_query(request: &str) -> (r: Query)
    ensures
        r@ == query_of(query_parts(request@)),
{
    proof {
        reveal_strlit(", ");
    }
    let pieces = split_str(request, ", ");
    let mut parts: Vec<&str> = Vec::new();
    let mut i: usize = 0;
    while i < pieces.len()
        invariant
            i <= pieces@.len(),
            str_views(parts@) == trim_each(str_views(pieces@).take(i as int)),
        decreases pieces.len() - i,
    {
        let t = trim_str(pieces[i]);
        proof {
            let pv = str_views(pieces@);
            assert(pv.take(i + 1) =~= pv.take(i as int).push(pv[i as int]));
            assert(pv[i as int] == pieces@[i as int]@);
            assert(t@ == trim(pv[i as int]));
            let lhs = str_views(parts@.push(t));
            let rhs = trim_each(pv.take(i + 1));
            assert(str_views(parts@).len() == parts@.len());
            assert(trim_each(pv.take(i as int)).len() == i);
            assert(parts@.len() == i);
            assert(pv.len() == pieces@.len());
            assert(lhs.len() == i + 1);
            assert(rhs.len() == i + 1);
            assert forall|k: int| 0 <= k < lhs.len() implies lhs[k] == rhs[k] by {
                if k < i {
                    assert(lhs[k] == str_views(parts@)[k]);
                    assert(str_views(parts@)[k] == trim_each(pv.take(i as int))[k]);
                    assert(pv.take(i as int)[k] == pv.take(i + 1)[k]);
                } else {
                    assert(lhs[k] == t@);
                }
            }
            assert(lhs =~= rhs);
        }
        parts.push(t);
        i += 1;
    }
    proof {
        assert(str_views(pieces@).take(pieces@.len() as int) =~= str_views(pieces@));
    }
    let ghost pv = str_views(parts@);
    assert(pv == query_parts(request@));
    let n = parts.len();
    if n == 0 {
        return Query::Ignored;
    }
    assert(pv[0] == parts@[0]@);
    let head = parts[0];
    if n == 3 && str_eq(head, "set-config") {
        assert(pv[1] == parts@[1]@ && pv[2] == parts@[2]@);
        Query::SetConfig(String::from_str(parts[1]), String::from_str(parts[2]))
    } else if n == 1 && str_eq(head, "get-info") {
        Query::GetInfo
    } else if n == 1 && str_eq(head, "close") {
        Query::Close
    } else if n == 2 && str_eq(head, "open") {
        assert(pv[1] == parts@[1]@);
        Query::Open(String::from_str(parts[1]))
    } else if n == 3 && str_eq(head, "rpc-update") {
        assert(pv[1] == parts@[1]@ && pv[2] == parts@[2]@);
        Query::RpcUpdate(String::from_str(parts[1]), String::from_str(parts[2]))
    } else if n == 2 && str_eq(head, "throttle") {
        assert(pv[1] == parts@[1]@);
        if str_eq(parts[1], "game") {
            Query::Throttle(String::from_str("throttle"))
        } else {
            Query::Throttle(String::from_str("inMenuThrottle"))
        }
    } else if n == 1 && str_eq(head, "clear-cache") {
        Query::ClearCache
    } else if n == 1 && str_eq(head, "ping") {
        Query::Ping
    } else {
        Query::Ignored
    }
}

/// The entry of the settings directory that an `open` request names.
pub open spec fn settings_entry_of(target: Seq<char>) -> Option<Seq<char>> {
    if target == "blocklist"@ {
        Some("user_blocklist.json"@)
    } else if target == "swapper"@ {
        Some("swapper"@)
    } else if target == "userscripts"@ {
        Some("scripts"@)
    } else {
        None
    }
}

/// The entry of the settings directory that an `open` request names.
pub fn settings_entry(target: &str) -> (r: Option<&'static str>)
    ensures
        match r {
            Some(e) => settings_entry_of(target@) == Some(e@),
            None => settings_entry_of(target@) is None,
        },
{
    if str_eq(target, "blocklist") {
        Some("user_blocklist.json")
    } else if str_eq(target, "swapper") {
        Some("swapper")
    } else if str_eq(target, "userscripts") {
        Some("scripts")
    } else {
        None
    }
}

} // verus!

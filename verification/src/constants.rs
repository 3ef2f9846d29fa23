//! The bundled default lists, as JSON arrays of strings.

use vstd::prelude::*;

verus! {

/// URL patterns that the client blocks unless the user disables them.
pub const DEFAULT_BLOCKLIST: &'static str = r#"[
    "*://*.doubleclick.net/*",
    "*://*.googlesyndication.com/*",
    "*://*.googleadservices.com/*",
    "*://*.googletagmanager.com/*",
    "*://*.googletagservices.com/*",
    "*://*.google-analytics.com/*",
    "*://*.adinplay.com/*",
    "*://*.amazon-adsystem.com/*",
    "*://*.adnxs.com/*",
    "*://*.pubmatic.com/*",
    "*://*.rubiconproject.com/*",
    "*://*.openx.net/*",
    "*://*.casalemedia.com/*",
    "*://*.criteo.com/*",
    "*://*.moatads.com/*",
    "*://*.scorecardresearch.com/*",
    "*://*.quantserve.com/*",
    "*://platform.twitter.com/*",
    "*://connect.facebook.net/*",
    "*://krunker.io/service-worker.js*"
]"#;

/// Browser switches that the client passes unless the user disables them.
pub const DEFAULT_FLAGS: &'static str = r#"[
    "--enable-gpu-rasterization",
    "--enable-zero-copy",
    "--disable-gpu-watchdog",
    "--ignore-gpu-blocklist",
    "--enable-oop-rasterization",
    "--enable-accelerated-2d-canvas",
    "--enable-webgl",
    "--enable-quic",
    "--enable-waitable-swap-chain",
    "--raise-timer-frequency",
    "--enable-highres-timer",
    "--disable-background-timer-throttling",
    "--disable-renderer-backgrounding",
    "--disable-backgrounding-occluded-windows",
    "--disable-hang-monitor",
    "--disable-breakpad",
    "--disable-component-update",
    "--disable-print-preview",
    "--disable-metrics",
    "--disable-metrics-repo",
    "--disable-logging",
    "--no-pings",
    "--autoplay-policy=no-user-gesture-required",
    "--disable-features=msWebOOUI,msPdfOOUI,msSmartScreenProtection,CalculateNativeWinOcclusion,slow-dc-timer-interrupts-win,MediaRouter",
    "--enable-features=SharedArrayBuffer"
]"#;

} // verus!

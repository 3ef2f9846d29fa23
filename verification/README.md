# glorp

A game client for Krunker built on a browser engine (WebView2 on Windows,
CEF on Linux). This crate holds its logic as a library verified with Verus:

- `blocklist`, `glob`: the request blocklist and the wildcard matcher it uses;
- `flaglist`, `switches`: the browser switches, their per-platform clean-up and
  how they become command-line switches;
- `userscripts`: preparing user scripts for the page;
- `urls`, `handlers`, `ping`, `bridge`, `settings`, `window_state`, `swapper`:
  the decisions of the browser handlers and of the page bridge;
- `text`, `lists`, `json`: string, list and JSON helpers with their lemmas.

`app/` is the program around it: files, settings, the browser and the network.

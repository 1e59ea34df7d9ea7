//! The fixed markup of the pages, cut where a value goes in.
use vstd::prelude::*;

verus! {

/// The start of every page, up to its title.
pub const PAGE_OPEN: &'static str = r#"<!doctype html>
<html lang="en"><head><meta charset="utf-8"><meta name="viewport" content="width=device-width,initial-scale=1"><title>"#;

/// The style of every page, from behind the title to the body.
pub const PAGE_STYLE: &'static str = r#"</title>
<style>
  :root { color-scheme: dark; }
  * { box-sizing: border-box; }
  html, body { height: 100%; margin: 0; }
  body {
    font: 13px/1.45 ui-sans-serif, -apple-system, "Segoe UI Variable", "Segoe UI", system-ui, sans-serif;
    -webkit-font-smoothing: antialiased;
    -moz-osx-font-smoothing: grayscale;
    font-variant-numeric: tabular-nums;
    background: #0a0a0c;
    color: #e4e5e9;
    min-height: 100vh;
  }

  .wrap {
    max-width: 820px;
    margin: 0 auto;
    padding: 24px 20px 140px;
    display: flex;
    flex-direction: column;
    gap: 14px;
  }

  h1 { margin: 0; font: 600 17px/1.2 inherit; letter-spacing: -0.02em; color: #f4f5f7; }
  h2 { margin: 0; font: 600 11px/1 inherit; letter-spacing: 0.08em; color: #7a7e87; text-transform: uppercase; }
  p  { margin: 4px 0 0; color: #8a8e97; font-size: 12.5px; }

  /* Header */
  .hero {
    display: grid;
    grid-template-columns: 1fr auto;
    align-items: center;
    gap: 16px;
    padding: 18px 20px;
    background: linear-gradient(180deg, #15161b 0%, #101116 100%);
    border-radius: 14px;
    box-shadow:
      0 0 0 1px rgba(255,255,255,0.05),
      0 1px 2px rgba(0,0,0,0.4),
      0 12px 32px rgba(0,0,0,0.35);
  }
  .hero .info .sub { color: #9095a0; font-size: 12px; margin-top: 3px; display: flex; gap: 8px; align-items: center; }
  .hero .info .sub b { color: #e4e5e9; font-weight: 600; }
  .hero .ver { font: 11px ui-monospace, "SF Mono", Consolas, monospace; color: #595d65; margin-left: 6px; }

  .status {
    display: inline-flex;
    align-items: center;
    gap: 6px;
    padding: 3px 9px;
    border-radius: 999px;
    font: 600 10.5px/1 inherit;
    letter-spacing: 0.04em;
    text-transform: uppercase;
  }
  .status.on  { background: rgba(239, 68, 68, 0.14); color: #fca5a5; box-shadow: inset 0 0 0 1px rgba(239,68,68,0.25); }
  .status.off { background: rgba(255,255,255,0.05); color: #7a7e87; box-shadow: inset 0 0 0 1px rgba(255,255,255,0.08); }
  .status .dot { width: 6px; height: 6px; border-radius: 50%; background: currentColor; }

  /* Toggle switches */
  .switch { position: relative; width: 40px; height: 24px; flex-shrink: 0; cursor: pointer; display: block; }
  .switch::before { content: ""; position: absolute; inset: -8px; }
  .switch input { position: absolute; opacity: 0; width: 0; height: 0; }
  .switch .track {
    position: absolute; inset: 0;
    background: #25272d;
    border-radius: 999px;
    box-shadow: inset 0 0 0 1px rgba(255,255,255,0.06);
    transition: background 180ms cubic-bezier(0.2, 0, 0, 1);
  }
  .switch .thumb {
    position: absolute; top: 2px; left: 2px;
    width: 20px; height: 20px;
    background: #f4f5f7;
    border-radius: 50%;
    box-shadow: 0 1px 2px rgba(0,0,0,0.4), 0 0 0 0.5px rgba(0,0,0,0.3);
    transition: translate 180ms cubic-bezier(0.2, 0, 0, 1);
  }
  .switch input:checked + .track { background: #ef4444; box-shadow: inset 0 0 0 1px rgba(255,255,255,0.1); }
  .switch input:checked + .track .thumb { translate: 16px 0; }

  .switch.sm { width: 30px; height: 18px; }
  .switch.sm .thumb { width: 14px; height: 14px; }
  .switch.sm input:checked + .track .thumb { translate: 12px 0; }

  /* Banners */
  .banner {
    padding: 11px 14px;
    border-radius: 10px;
    font-size: 12.5px;
    display: flex;
    align-items: center;
    justify-content: space-between;
    gap: 12px;
  }
  .banner.ok  { background: rgba(74,222,128,0.08); color: #8fd79e; box-shadow: inset 0 0 0 1px rgba(74,222,128,0.15); }
  .banner.err { background: rgba(239,68,68,0.1); color: #f4a5a5; box-shadow: inset 0 0 0 1px rgba(239,68,68,0.2); }
  .banner.info { background: rgba(99,179,237,0.08); color: #a5c9f5; box-shadow: inset 0 0 0 1px rgba(99,179,237,0.2); }

  /* Casino grid */
  .casinos {
    display: grid;
    grid-template-columns: 1fr;
    gap: 8px;
  }
  @media (min-width: 680px) {
    .casinos { grid-template-columns: 1fr 1fr; align-items: start; }
    .casinos > details[open] { grid-column: span 2; }
  }

  details.card {
    background: #121317;
    border-radius: 11px;
    overflow: hidden;
    box-shadow:
      0 0 0 1px rgba(255,255,255,0.04),
      0 1px 2px rgba(0,0,0,0.25);
    transition: box-shadow 180ms cubic-bezier(0.2, 0, 0, 1);
  }
  details.card[open] {
    box-shadow:
      0 0 0 1px rgba(255,255,255,0.08),
      0 8px 24px rgba(0,0,0,0.3);
  }
  details.card > summary {
    list-style: none;
    display: grid;
    grid-template-columns: 1fr auto 14px;
    align-items: center;
    gap: 10px;
    padding: 10px 14px;
    cursor: pointer;
    user-select: none;
    transition: background 120ms;
  }
  details.card > summary::-webkit-details-marker { display: none; }
  details.card > summary:hover { background: rgba(255,255,255,0.02); }
  details.card .title { min-width: 0; display: flex; align-items: baseline; gap: 8px; }
  details.card .cname { font-weight: 600; font-size: 13px; color: #e4e5e9; }
  details.card .domain { font: 11px ui-monospace, "SF Mono", Consolas, monospace; color: #595d65; }
  details.card .chev { color: #595d65; font-size: 10px; transition: transform 180ms; text-align: right; }
  details.card[open] .chev { transform: rotate(90deg); }

  /* State pill — tells you exactly what's blocked */
  .pill {
    display: inline-flex;
    align-items: center;
    gap: 5px;
    padding: 3px 8px;
    border-radius: 999px;
    font: 600 10.5px/1 inherit;
    letter-spacing: 0.02em;
    white-space: nowrap;
  }
  .pill .pdot { width: 5px; height: 5px; border-radius: 50%; background: currentColor; }
  .pill.none { background: rgba(255,255,255,0.04); color: #6e7280; box-shadow: inset 0 0 0 1px rgba(255,255,255,0.05); }
  .pill.some { background: rgba(245,158,11,0.1); color: #fbbf24; box-shadow: inset 0 0 0 1px rgba(245,158,11,0.2); }
  .pill.all  { background: rgba(239,68,68,0.12); color: #fca5a5; box-shadow: inset 0 0 0 1px rgba(239,68,68,0.25); }

  /* Expanded card body */
  .card-body {
    border-top: 1px solid rgba(255,255,255,0.05);
    background: #0f1014;
  }
  .blockall {
    display: flex;
    align-items: center;
    justify-content: space-between;
    gap: 12px;
    padding: 12px 14px;
    border-bottom: 1px solid rgba(255,255,255,0.04);
  }
  .blockall .lbl b { display: block; font-weight: 600; color: #e4e5e9; font-size: 12.5px; }
  .blockall .lbl span { color: #7a7e87; font-size: 11.5px; display: block; margin-top: 1px; }

  .games { display: flex; flex-direction: column; }
  .game {
    display: grid;
    grid-template-columns: 18px 1fr auto auto;
    align-items: center;
    gap: 10px;
    padding: 8px 14px;
    border-bottom: 1px solid rgba(255,255,255,0.03);
  }
  .game:last-child { border-bottom: none; }
  .game label { display: contents; cursor: pointer; }
  .game input[type=checkbox] { width: 16px; height: 16px; accent-color: #ef4444; margin: 0; cursor: pointer; }
  .game .name  { font-weight: 500; color: #e4e5e9; font-size: 12.5px; }
  .game .slug  { font: 11px ui-monospace, "SF Mono", Consolas, monospace; color: #595d65; }
  .game .rm {
    appearance: none; border: 0; background: transparent;
    color: #4a4e57; cursor: pointer;
    font: 500 16px/1 inherit; padding: 4px 8px; border-radius: 6px;
    transition: color 120ms, background 120ms;
  }
  .game .rm:hover { color: #f4a5a5; background: rgba(239,68,68,0.08); }
  .game.muted { opacity: 0.35; }
  .game.muted input[type=checkbox] { pointer-events: none; }
  .empty { padding: 18px 14px; text-align: center; color: #595d65; font-size: 12px; }

  /* Add-game form */
  .addbox {
    background: #121317;
    border-radius: 11px;
    padding: 14px;
    box-shadow: 0 0 0 1px rgba(255,255,255,0.04), 0 1px 2px rgba(0,0,0,0.25);
    display: flex;
    flex-direction: column;
    gap: 10px;
  }
  .addbox .row {
    display: grid;
    grid-template-columns: 180px 1fr 1.3fr auto;
    gap: 8px;
  }
  @media (max-width: 520px) {
    .addbox .row { grid-template-columns: 1fr 1fr; }
  }

  .input, .select {
    padding: 9px 12px;
    background: #0a0b0e;
    border: 0;
    border-radius: 8px;
    color: #ededef;
    font: 13px inherit;
    outline: none;
    min-width: 0;
    box-shadow: inset 0 0 0 1px rgba(255,255,255,0.06), inset 0 1px 2px rgba(0,0,0,0.4);
    transition: box-shadow 160ms;
  }
  .input::placeholder { color: #4a4e57; }
  .input:focus, .select:focus { box-shadow: inset 0 0 0 1px rgba(239,68,68,0.7), 0 0 0 3px rgba(239,68,68,0.14); }
  .select {
    appearance: none;
    cursor: pointer;
    padding-right: 30px;
    background-image: linear-gradient(45deg, transparent 50%, #8a8e97 50%), linear-gradient(135deg, #8a8e97 50%, transparent 50%);
    background-position: calc(100% - 14px) 50%, calc(100% - 10px) 50%;
    background-size: 4px 4px, 4px 4px;
    background-repeat: no-repeat;
    background-color: #0a0b0e;
  }

  /* Buttons */
  button, .btn {
    appearance: none; border: 0; cursor: pointer;
    padding: 9px 16px;
    background: #ef4444;
    color: #fff;
    border-radius: 8px;
    font: 600 12.5px/1 inherit;
    white-space: nowrap;
    box-shadow: 0 0 0 1px rgba(255,255,255,0.08), 0 1px 2px rgba(0,0,0,0.3), inset 0 1px 0 rgba(255,255,255,0.12);
    transition: scale 140ms, background 140ms, color 140ms, box-shadow 140ms;
  }
  button:hover { background: #f05a5a; }
  button:active { scale: 0.96; }
  button:focus-visible { outline: 2px solid rgba(239,68,68,0.5); outline-offset: 2px; }
  button.ghost {
    background: transparent; color: #9095a0;
    box-shadow: inset 0 0 0 1px rgba(255,255,255,0.08);
  }
  button.ghost:hover { color: #e4e5e9; background: rgba(255,255,255,0.03); box-shadow: inset 0 0 0 1px rgba(255,255,255,0.14); }
  button.warn {
    background: transparent; color: #fbbf24;
    box-shadow: inset 0 0 0 1px rgba(245,158,11,0.3);
  }
  button.warn:hover { background: rgba(245,158,11,0.1); color: #fcd34d; }

  /* Sticky action bar */
  .dock {
    position: fixed;
    left: 0; right: 0; bottom: 0;
    padding: 12px 20px calc(12px + env(safe-area-inset-bottom));
    background: linear-gradient(180deg, rgba(10,10,12,0) 0%, rgba(10,10,12,0.92) 35%);
    backdrop-filter: blur(12px);
    -webkit-backdrop-filter: blur(12px);
    z-index: 10;
    pointer-events: none;
  }
  .dock-inner {
    max-width: 820px;
    margin: 0 auto;
    background: #15161b;
    border-radius: 14px;
    padding: 10px 12px;
    display: grid;
    grid-template-columns: 1fr auto auto auto;
    gap: 8px;
    align-items: center;
    box-shadow:
      0 0 0 1px rgba(255,255,255,0.07),
      0 12px 28px rgba(0,0,0,0.5);
    pointer-events: auto;
  }
  .dock .hint { color: #6e7280; font-size: 11px; padding-left: 6px; line-height: 1.3; }

  .code {
    padding: 9px 12px;
    background: #0a0b0e;
    border: 0;
    border-radius: 8px;
    color: #ededef;
    font: 500 14px/1 ui-monospace, "SF Mono", Consolas, monospace;
    letter-spacing: 0.28em;
    text-align: center;
    outline: none;
    width: 110px;
    box-shadow: inset 0 0 0 1px rgba(255,255,255,0.06), inset 0 1px 2px rgba(0,0,0,0.4);
    transition: box-shadow 160ms;
  }
  .code::placeholder { color: #4a4e57; letter-spacing: 0.2em; font-weight: 400; }
  .code:focus { box-shadow: inset 0 0 0 1px rgba(239,68,68,0.7), 0 0 0 3px rgba(239,68,68,0.14); }

  /* Setup page */
  .setup {
    max-width: 420px;
    margin: 40px auto;
    padding: 24px;
    display: flex;
    flex-direction: column;
    gap: 16px;
    background: #121317;
    border-radius: 16px;
    box-shadow: 0 0 0 1px rgba(255,255,255,0.05), 0 16px 40px rgba(0,0,0,0.5);
  }
  .qr { background: #fff; padding: 14px; border-radius: 12px; align-self: center; box-shadow: 0 0 0 1px rgba(0,0,0,0.1), 0 8px 24px rgba(0,0,0,0.3); }
  .qr svg { display: block; width: 180px; height: 180px; }
  code.secret {
    display: inline-block;
    font: 11px ui-monospace, "SF Mono", Consolas, monospace;
    color: #b5b8bf;
    background: rgba(255,255,255,0.04);
    padding: 3px 7px;
    border-radius: 5px;
    word-break: break-all;
    user-select: all;
    box-shadow: inset 0 0 0 1px rgba(255,255,255,0.05);
  }
  .setup-actions { display: grid; grid-template-columns: 1fr auto; gap: 8px; }

  @media (prefers-reduced-motion: reduce) {
    *, *::before, *::after { transition-duration: 0.01ms !important; animation-duration: 0.01ms !important; }
  }
</style>
</head><body>
"#;

/// The end of every page.
pub const PAGE_CLOSE: &'static str = r#"
</body></html>"#;

/// The set-up page, up to the QR code.
pub const SETUP_OPEN: &'static str = r#"<div class="setup">
  <div>
    <h1>Set up 2FA</h1>
    <p>Scan the QR with your authenticator app, then enter the current code to finish setup. No code needed for this step — it's just provisioning.</p>
  </div>
  <div class="qr">"#;

/// Between the QR code and the secret.
pub const SETUP_SECRET: &'static str = r#"</div>
  <p>Or type the secret manually: <code class="secret">"#;

/// Between the secret and the error banner.
pub const SETUP_ERROR: &'static str = r#"</code></p>
  "#;

/// The set-up page from the error banner on.
pub const SETUP_FORM: &'static str = r#"
  <form method="POST" action="/setup/verify" class="setup-actions">
    <input class="code" type="text" name="code" inputmode="numeric" pattern="[0-9]{6}" maxlength="6" placeholder="000000" autofocus autocomplete="one-time-code" required>
    <button type="submit">Confirm</button>
  </form>
</div>"#;

/// What is shown while an update is installed.
pub const UPDATING_BODY: &'static str = r#"<div class="setup"><div><h1>Updating</h1><p>Downloading the new version. BetWall will restart in a moment.</p></div></div>"#;

/// What is shown when the program quits.
pub const QUITTING_BODY: &'static str = r#"<div class="setup"><div><h1>Shutting down</h1><p>Tray app is quitting. You can close this tab.</p></div></div>"#;

/// A game's row, up to its class.
pub const ROW_OPEN: &'static str = r#"<div class=""#;

/// Up to the name of the checkbox.
pub const ROW_NAME: &'static str = r#""><label><input type="checkbox" name="g_"#;

/// Up to the state of the checkbox.
pub const ROW_CHECKED: &'static str = r#"" "#;

/// Up to the label.
pub const ROW_LABEL: &'static str = r#"><span class="name">"#;

/// Up to the slug.
pub const ROW_SLUG: &'static str = r#"</span><span class="slug">"#;

/// Up to the identifier in the remove button.
pub const ROW_REMOVE: &'static str = r#"</span></label><button type="submit" name="remove_id" value=""#;

/// Up to the label in the button's title.
pub const ROW_TITLE: &'static str = r#"" formaction="/remove" class="rm" title="Remove "#;

/// Up to the label for screen readers.
pub const ROW_ARIA: &'static str = r#"" aria-label="Remove "#;

/// The end of a game's row.
pub const ROW_CLOSE: &'static str = r#"">×</button></div>"#;

/// A banner, up to its class.
pub const BANNER_OPEN: &'static str = r#"<div class="banner "#;

/// Up to the text of the banner.
pub const BANNER_TEXT: &'static str = r#"">"#;

/// The end of a banner.
pub const BANNER_CLOSE: &'static str = "</div>";

/// The update banner, up to the new version.
pub const UPDATE_OPEN: &'static str = r#"<div class="banner info"><span>Update available — <b>v"#;

/// Up to the running version.
pub const UPDATE_CURRENT: &'static str = "</b> (you have v";

/// The end of the update banner.
pub const UPDATE_CLOSE: &'static str = r#").</span><button type="submit" formaction="/update" class="warn">Install update</button></div>"#;

/// What a casino without games shows.
pub const NO_GAMES: &'static str = r#"<div class="empty">No games yet. Add one below.</div>"#;

/// A casino's card, up to whether it is open.
pub const CARD_OPEN: &'static str = r#"<details class="card" "#;

/// Up to the label.
pub const CARD_LABEL: &'static str = r#">
  <summary>
    <span class="title"><span class="cname">"#;

/// Up to the domain.
pub const CARD_DOMAIN: &'static str = r#"</span><span class="domain">"#;

/// Up to the class of the pill.
pub const CARD_PILL: &'static str = r#"</span></span>
    <span class="pill "#;

/// Up to the text of the pill.
pub const CARD_PILL_TEXT: &'static str = r#""><span class="pdot"></span>"#;

/// Up to the domain in the explanation.
pub const CARD_BLOCK_ALL: &'static str = r#"</span>
    <span class="chev">▸</span>
  </summary>
  <div class="card-body">
    <div class="blockall">
      <span class="lbl"><b>Block entire casino</b><span>All traffic on "#;

/// Up to the identifier in the name of the checkbox.
pub const CARD_NAME: &'static str = r#", regardless of game.</span></span>
      <label class="switch sm" title="Block entire casino">
        <input type="checkbox" name="c_"#;

/// Up to the state of the checkbox.
pub const CARD_CHECKED: &'static str = r#"_all" "#;

/// Up to the rows of the games.
pub const CARD_GAMES: &'static str = r#">
        <span class="track"><span class="thumb"></span></span>
      </label>
    </div>
    <div class="games">"#;

/// The end of a card.
pub const CARD_CLOSE: &'static str = r#"</div>
  </div>
</details>"#;

/// The card of the user's own games, up to the class of the pill.
pub const CUSTOM_OPEN: &'static str = r#"<details class="card" open>
  <summary>
    <span class="title"><span class="cname">Custom</span><span class="domain">user-added</span></span>
    <span class="pill "#;

/// Up to the rows of the user's own games.
pub const CUSTOM_GAMES: &'static str = r#"</span>
    <span class="chev">▸</span>
  </summary>
  <div class="card-body">
    <div class="games">"#;

/// The first choice of casino for a new game: none.
pub const CUSTOM_OPTION: &'static str = r#"<option value="">Custom (full URL)</option>"#;

/// A choice of casino, up to its identifier.
pub const OPTION_OPEN: &'static str = r#"<option value=""#;

/// Up to its label.
pub const OPTION_LABEL: &'static str = r#"">"#;

/// The end of a choice.
pub const OPTION_CLOSE: &'static str = "</option>";

/// The control panel, up to the version.
pub const PANEL_OPEN: &'static str = r#"<form method="POST" action="/save">
  <div class="wrap">
    <div class="hero">
      <div class="info">
        <h1>BetWall <span class="ver">v"#;

/// Up to the class of the status.
pub const PANEL_STATUS: &'static str = r#"</span></h1>
        <div class="sub">
          <span class="status "#;

/// Up to the text of the status.
pub const PANEL_STATUS_TEXT: &'static str = r#""><span class="dot"></span>"#;

/// Up to the line below the status.
pub const PANEL_SUB: &'static str = r#"</span>
          <span>"#;

/// Up to the state of the master switch.
pub const PANEL_SWITCH: &'static str = r#"</span>
        </div>
      </div>
      <label class="switch" title="Master toggle (turning off requires 2FA)">
        <input type="checkbox" name="enabled" "#;

/// Up to the update banner.
pub const PANEL_UPDATE: &'static str = r#">
        <span class="track"><span class="thumb"></span></span>
      </label>
    </div>

    "#;

/// Up to the banner.
pub const PANEL_BANNER: &'static str = r#"
    "#;

/// Up to the cards.
pub const PANEL_CASINOS: &'static str = r#"

    <h2>Casinos</h2>
    <div class="casinos">"#;

/// Up to the choices of casino for a new game.
pub const PANEL_ADD: &'static str = r#"</div>

    <h2>Add a game</h2>
    <div class="addbox">
      <div class="row">
        <select name="casino" class="select">"#;

/// The end of the control panel.
pub const PANEL_CLOSE: &'static str = r#"</select>
        <input class="input" type="text" name="label" placeholder="Game name (e.g. Dice)" autocomplete="off">
        <input class="input" type="text" name="url_pattern" placeholder="path or full URL" autocomplete="off">
        <button type="submit" class="ghost" formaction="/add">Add</button>
      </div>
    </div>
  </div>

  <div class="dock">
    <div class="dock-inner">
      <span class="hint">2FA only needed to pause, unblock, quit, or install updates.</span>
      <input class="code" type="text" name="code" inputmode="numeric" pattern="[0-9]{6}" maxlength="6" placeholder="2FA" autocomplete="one-time-code">
      <button type="submit">Save</button>
      <button type="submit" class="ghost" formaction="/quit">Quit</button>
    </div>
  </div>
</form>"#;

} // verus!

//! The fixed shell of the configuration page, into which the banners, the
//! destination cards and the source rows are set.
use vstd::prelude::*;
use crate::text::{append_str, string_from_chars};

verus! {

/// The page up to the hardware-error banner: head, styles and page header.
pub const PAGE_HEAD: &'static str = r#"<!DOCTYPE html>
<html lang="en">
<head>
<meta charset="utf-8">
<meta name="viewport" content="width=device-width, initial-scale=1">
<title>Skagit Flats</title>
<style>
  * { margin: 0; padding: 0; box-sizing: border-box; }
  body { font-family: system-ui, -apple-system, sans-serif; background: #f0f0f0; color: #222; }
  .page-header { background: #1a1a2e; color: #fff; padding: 0.75rem 1rem; }
  .page-header h1 { font-size: 1.1rem; font-weight: 600; letter-spacing: 0.06em; }
  main { padding: 0.75rem; max-width: 700px; margin: 0 auto; }
  section { margin-bottom: 1.25rem; }
  .section-title { font-size: 0.72rem; font-weight: 700; text-transform: uppercase; letter-spacing: 0.08em; color: #888; margin-bottom: 0.5rem; padding-left: 0.1rem; }
  .dest-cards { display: flex; flex-direction: column; gap: 0.6rem; }
  .dest-card { background: #fff; border-radius: 10px; padding: 0.9rem 1rem; box-shadow: 0 1px 3px rgba(0,0,0,.1); }
  .dest-card.loading { opacity: 0.5; pointer-events: none; }
  .card-header { display: flex; align-items: center; justify-content: space-between; margin-bottom: 0.15rem; }
  .dest-name { font-size: 1.05rem; font-weight: 600; }
  .badge { font-size: 0.75rem; font-weight: 700; padding: 0.2rem 0.6rem; border-radius: 20px; letter-spacing: 0.04em; white-space: nowrap; }
  .badge.go { background: #1e7e34; color: #fff; }
  .badge.nogo { background: #c0392b; color: #fff; }
  .badge.caution { background: #d68910; color: #fff; }
  .badge.unknown { background: #888; color: #fff; }
  .reasons { margin: 0.35rem 0 0.1rem 0; padding-left: 1.2rem; font-size: 0.875rem; color: #666; }
  .reasons li { margin-bottom: 0.1rem; }
  .criteria-summary { font-size: 0.78rem; color: #aaa; margin-top: 0.35rem; }
  .card-actions { margin-top: 0.65rem; display: flex; justify-content: flex-end; }
  .preview-wrap { background: #fff; border-radius: 10px; padding: 0.75rem; box-shadow: 0 1px 3px rgba(0,0,0,.1); }
  .preview-toolbar { display: flex; align-items: center; justify-content: space-between; margin-bottom: 0.5rem; }
  .preview-label { font-size: 0.78rem; color: #aaa; }
  .preview-toolbar-btns { display: flex; gap: 0.4rem; }
  .preview-wrap img { width: 100%; height: auto; image-rendering: pixelated; border-radius: 4px; border: 1px solid #e0e0e0; display: block; cursor: zoom-in; }
  .preview-overlay { display: none; position: fixed; inset: 0; background: rgba(0,0,0,.85); z-index: 200; align-items: center; justify-content: center; }
  .preview-overlay.open { display: flex; }
  .preview-overlay img { max-width: 96vw; max-height: 90vh; image-rendering: pixelated; border-radius: 4px; }
  .btn-close-overlay { position: fixed; top: 1rem; right: 1rem; background: rgba(255,255,255,.15); color: #fff; border: 1.5px solid rgba(255,255,255,.3); border-radius: 6px; font-size: 1.2rem; min-height: 44px; min-width: 44px; cursor: pointer; z-index: 201; line-height: 1; }
  .form-card { background: #fff; border-radius: 10px; padding: 1rem; box-shadow: 0 1px 3px rgba(0,0,0,.1); }
  .form-field { margin-bottom: 0.75rem; }
  .form-field label { display: flex; align-items: center; gap: 0.25rem; font-size: 0.8rem; font-weight: 600; color: #555; margin-bottom: 0.3rem; }
  .tip { display: inline-flex; align-items: center; justify-content: center; width: 15px; height: 15px; border-radius: 50%; background: #ccc; color: #fff; font-size: 0.6rem; font-weight: 700; cursor: default; position: relative; flex-shrink: 0; }
  .tip::after { content: attr(data-tip); position: absolute; bottom: calc(100% + 6px); left: 0; transform: none; background: #1a1a2e; color: #fff; padding: 0.5rem 0.65rem; border-radius: 6px; font-size: 0.72rem; font-weight: 400; white-space: pre-line; width: 230px; pointer-events: none; opacity: 0; transition: opacity .15s; z-index: 20; line-height: 1.45; box-shadow: 0 2px 8px rgba(0,0,0,.3); }
  .tip:hover::after, .tip:focus::after { opacity: 1; }
  .tip:focus { outline: 2px solid #3498db; }
  .thresholds-ref { margin-top: 0.25rem; margin-bottom: 0.75rem; }
  .thresholds-ref summary { font-size: 0.75rem; color: #888; cursor: pointer; padding: 0.35rem 0; min-height: 44px; display: flex; align-items: center; user-select: none; }
  .thresholds-ref summary:hover { color: #555; }
  .thresholds-ref table { width: 100%; border-collapse: collapse; font-size: 0.72rem; margin-top: 0.4rem; }
  .thresholds-ref th { background: #f4f4f4; font-weight: 600; color: #555; padding: 0.3rem 0.4rem; text-align: left; border-bottom: 1.5px solid #ddd; }
  .thresholds-ref td { padding: 0.3rem 0.4rem; border-bottom: 1px solid #eee; color: #444; }
  .thresholds-ref tr:last-child td { border-bottom: none; }
  .form-field input[type="text"],
  .form-field input[type="number"] { width: 100%; padding: 0.55rem 0.75rem; border: 1.5px solid #ddd; border-radius: 6px; font-size: 1rem; min-height: 44px; background: #fafafa; }
  .form-field input:focus { outline: 2px solid #3498db; border-color: transparent; background: #fff; }
  .form-grid { display: grid; grid-template-columns: 1fr 1fr; gap: 0.6rem; }
  .form-field-check { display: flex; align-items: center; gap: 0.5rem; min-height: 44px; margin-bottom: 0.75rem; }
  .form-field-check input { width: 20px; height: 20px; cursor: pointer; accent-color: #1e7e34; }
  .form-field-check label { font-size: 0.9rem; font-weight: 500; color: #333; margin: 0; cursor: pointer; }
  .source-rows { display: flex; flex-direction: column; gap: 0.5rem; }
  .source-row { background: #fff; border-radius: 8px; padding: 0.75rem 1rem; box-shadow: 0 1px 2px rgba(0,0,0,.08); display: flex; align-items: center; justify-content: space-between; gap: 0.75rem; }
  .src-info { display: flex; flex-direction: column; gap: 0.15rem; flex: 1; min-width: 0; }
  .src-name { font-size: 0.9rem; font-weight: 600; }
  .src-status.enabled { font-size: 0.75rem; color: #1e7e34; font-weight: 600; }
  .src-status.disabled { font-size: 0.75rem; color: #aaa; }
  .src-error { font-size: 0.75rem; color: #c0392b; overflow: hidden; text-overflow: ellipsis; white-space: nowrap; max-width: 100%; }
  button { min-height: 44px; min-width: 44px; padding: 0 1rem; border-radius: 6px; border: 1.5px solid transparent; cursor: pointer; font-size: 0.875rem; font-weight: 600; transition: opacity .15s; }
  button:active { opacity: 0.7; }
  .btn-delete { background: #fff0f0; color: #c0392b; border-color: #f5c6cb; }
  .btn-toggle { background: #eaf4fd; color: #2471a3; border-color: #b8d6ee; }
  .btn-refresh { background: #f4f4f4; color: #555; border-color: #ddd; font-size: 0.8rem; }
  .btn-submit { background: #1e7e34; color: #fff; border-color: #155724; width: 100%; font-size: 1rem; }
  #toast { position: fixed; bottom: 1.5rem; left: 50%; transform: translateX(-50%) translateY(6rem); background: #222; color: #fff; padding: 0.55rem 1.2rem; border-radius: 20px; font-size: 0.875rem; transition: transform .25s ease; pointer-events: none; white-space: nowrap; z-index: 100; box-shadow: 0 2px 8px rgba(0,0,0,.25); }
  #toast.show { transform: translateX(-50%) translateY(0); }
  #toast.error { background: #c0392b; }
  .hw-error-banner { background: #c0392b; color: #fff; padding: 0.75rem 1rem; display: flex; align-items: flex-start; gap: 0.6rem; }
  .hw-error-banner .hw-icon { font-size: 1.1rem; flex-shrink: 0; line-height: 1.4; }
  .hw-error-banner .hw-msg { font-size: 0.875rem; line-height: 1.4; }
  .hw-error-banner strong { display: block; font-size: 0.95rem; margin-bottom: 0.2rem; }
  .fixture-banner { background: #7b341e; color: #fefce8; padding: 0.45rem 1rem; font-size: 0.8rem; font-weight: 700; text-align: center; letter-spacing: 0.05em; }
  .gauge-results { margin-top: 0.75rem; display: flex; flex-direction: column; gap: 0.4rem; }
  .gauge-item { background: #f8f8f8; border-radius: 8px; padding: 0.65rem 0.9rem; display: flex; align-items: center; justify-content: space-between; gap: 0.75rem; border: 1.5px solid #e5e5e5; }
  .gauge-info { display: flex; flex-direction: column; gap: 0.1rem; flex: 1; min-width: 0; }
  .gauge-name { font-size: 0.88rem; font-weight: 600; white-space: nowrap; overflow: hidden; text-overflow: ellipsis; }
  .gauge-meta { font-size: 0.75rem; color: #999; }
  .gauge-id { font-family: monospace; font-size: 0.85rem; font-weight: 700; color: #2471a3; white-space: nowrap; }
  .btn-copy { background: #eaf4fd; color: #2471a3; border-color: #b8d6ee; font-size: 0.8rem; white-space: nowrap; }
  #gauge-search-status { font-size: 0.82rem; color: #888; margin-top: 0.5rem; min-height: 1.2em; }
  .config-hint { background: #fffbe6; border: 1.5px solid #f0d060; border-radius: 8px; padding: 0.7rem 0.9rem; font-size: 0.82rem; color: #555; margin-top: 0.75rem; display: none; }
  .config-hint code { background: #f4f0d8; border-radius: 3px; padding: 0.1rem 0.35rem; font-size: 0.85rem; }
  @media (min-width: 480px) {
    .form-grid { grid-template-columns: 1fr 1fr 1fr; }
  }
  .section-header { display: flex; align-items: center; justify-content: space-between; margin-bottom: 0.5rem; }
  .section-header .section-title { margin-bottom: 0; }
  .btn-add-dest { background: #1e7e34; color: #fff; border-color: #155724; min-height: 36px; font-size: 0.85rem; padding: 0 0.9rem; }
  .optional-label { font-size: 0.7rem; font-weight: 400; color: #aaa; margin-left: 0.3rem; }
  .modal-backdrop { display: none; position: fixed; inset: 0; background: rgba(0,0,0,.5); z-index: 200; align-items: flex-end; }
  .modal-backdrop.open { display: flex; }
  .modal-sheet { background: #fff; border-radius: 16px 16px 0 0; padding: 1.25rem 1rem 2rem; width: 100%; max-height: 90vh; overflow-y: auto; transform: translateY(100%); transition: transform .3s ease; }
  .modal-backdrop.open .modal-sheet { transform: translateY(0); }
  .modal-header { display: flex; align-items: center; justify-content: space-between; margin-bottom: 1rem; padding-bottom: 0.75rem; border-bottom: 1px solid #eee; }
  .modal-title { font-size: 1.05rem; font-weight: 700; }
  .btn-modal-close { background: #f0f0f0; color: #666; border-color: #ddd; min-height: 36px; min-width: 36px; padding: 0; border-radius: 50%; font-size: 1.2rem; line-height: 1; }
  @media (min-width: 480px) {
    .modal-backdrop { align-items: center; justify-content: center; }
    .modal-sheet { border-radius: 12px; max-width: 480px; width: 92%; margin: 0; }
  }
</style>
</head>
<body>
<header class="page-header"><h1>SKAGIT FLATS</h1></header>
"#;

/// Between the two banners.
pub const PAGE_AFTER_ERROR: &'static str = r#"
"#;

/// From the banners to the destination cards.
pub const PAGE_BEFORE_CARDS: &'static str = r#"
<main>

<section>
  <div class="section-header">
    <div class="section-title">Destinations</div>
    <button class="btn-add-dest" onclick="openDestModal()">+ Add</button>
  </div>
  <div class="dest-cards" id="dest-cards">
"#;

/// From the destination cards to the source rows.
pub const PAGE_BEFORE_SOURCES: &'static str = r#"
  </div>
</section>

<section>
  <div class="section-title">Live Preview</div>
  <div class="preview-wrap">
    <div class="preview-toolbar">
      <span class="preview-label" id="preview-label">refreshes every 60s</span>
      <div class="preview-toolbar-btns">
        <button class="btn-refresh" onclick="refreshPreview()">Refresh</button>
        <button class="btn-refresh" onclick="openPreviewFullscreen()" aria-label="Expand preview">&#x26F6;</button>
      </div>
    </div>
    <img id="preview" src="/preview" alt="Display preview" onclick="openPreviewFullscreen()">
  </div>
</section>

<div class="preview-overlay" id="preview-overlay" onclick="closePreviewFullscreen()">
  <button class="btn-close-overlay" onclick="closePreviewFullscreen()" aria-label="Close">&#x2715;</button>
  <img id="preview-full" src="" alt="Display preview fullscreen">
</div>

<section>
  <div class="section-title">Sources</div>
  <div class="source-rows" id="source-rows">
"#;

/// From the source rows to the end: the dialogs and the page script.
pub const PAGE_TAIL: &'static str = r#"
  </div>
</section>

<section>
  <div class="section-title">Gauge Finder</div>
  <div class="form-card">
    <p style="font-size:.83rem;color:#666;margin-bottom:.75rem">Find nearby USGS stream gauges to use as your river data source. Enter coordinates, select a gauge, then copy the site ID into your <code style="background:#f4f4f4;border-radius:3px;padding:.1rem .3rem">config.toml</code> under <code style="background:#f4f4f4;border-radius:3px;padding:.1rem .3rem">[sources.river] usgs_site_id</code>.</p>
    <div class="form-grid">
      <div class="form-field">
        <label for="gauge-lat">Latitude</label>
        <input type="number" id="gauge-lat" step="any" placeholder="e.g. 48.42">
      </div>
      <div class="form-field">
        <label for="gauge-lon">Longitude</label>
        <input type="number" id="gauge-lon" step="any" placeholder="e.g. -122.34">
      </div>
      <div class="form-field">
        <label for="gauge-radius">Radius (km)</label>
        <input type="number" id="gauge-radius" step="any" value="50" min="1" max="200">
      </div>
    </div>
    <button type="button" class="btn-submit" onclick="searchGauges()" id="gauge-search-btn">Find Gauges</button>
    <div id="gauge-search-status"></div>
    <div class="gauge-results" id="gauge-results"></div>
    <div class="config-hint" id="gauge-config-hint">
      Add this to your <strong>config.toml</strong> under <code>[sources.river]</code>:<br>
      <code id="gauge-config-snippet"></code>
    </div>
  </div>
</section>

</main>

<div class="modal-backdrop" id="dest-modal" onclick="handleModalBackdropClick(event)" role="dialog" aria-modal="true" aria-label="Add Destination">
  <div class="modal-sheet">
    <div class="modal-header">
      <span class="modal-title">Add Destination</span>
      <button class="btn-modal-close" onclick="closeDestModal()" aria-label="Close">&times;</button>
    </div>
    <form id="dest-form" onsubmit="return submitDestination(event)">
      <div class="form-field">
        <label for="dest-name">Name</label>
        <input type="text" id="dest-name" name="name" required placeholder="e.g. Skagit Loop" autocomplete="off">
      </div>
      <div class="form-field">
        <label for="min-temp">Min Temp (&deg;F)<span class="optional-label">optional</span><span class="tip" tabindex="0" data-tip="Minimum acceptable temperature.&#10;NO-GO if temp drops below this.&#10;&#10;Suggested starting values:&#10;Camping: 40°F&#10;Backpacking: 35°F&#10;Cycling: 45°F&#10;Paddling: 50°F">?</span></label>
        <input type="number" id="min-temp" step="any" placeholder="e.g. 40">
      </div>
      <div class="form-field">
        <label for="max-temp">Max Temp (&deg;F)<span class="optional-label">optional</span><span class="tip" tabindex="0" data-tip="Maximum acceptable temperature.&#10;NO-GO if temp rises above this.&#10;&#10;Suggested starting values:&#10;Camping: 90°F&#10;Backpacking: 85°F&#10;Cycling: 95°F&#10;Paddling: 90°F">?</span></label>
        <input type="number" id="max-temp" step="any" placeholder="e.g. 90">
      </div>
      <div class="form-field">
        <label for="max-precip">Max Precip (%)<span class="optional-label">optional</span><span class="tip" tabindex="0" data-tip="Maximum precipitation probability (0–100%).&#10;NO-GO if rain chance exceeds this.&#10;&#10;Suggested starting values:&#10;Camping: 60%&#10;Backpacking: 40%&#10;Cycling: 30%&#10;Paddling: 50%">?</span></label>
        <input type="number" id="max-precip" step="any" placeholder="e.g. 60">
      </div>
      <div class="form-field">
        <label for="max-river">Max River (ft)<span class="optional-label">optional</span><span class="tip" tabindex="0" data-tip="Maximum river gauge height in feet.&#10;NO-GO if water level exceeds this.&#10;Varies by gauge site.&#10;&#10;Suggested for Skagit Valley:&#10;Camping/paddling: 10–12 ft">?</span></label>
        <input type="number" id="max-river" step="any" placeholder="e.g. 12">
      </div>
      <div class="form-field">
        <label for="max-flow">Max Flow (cfs)<span class="optional-label">optional</span><span class="tip" tabindex="0" data-tip="Maximum streamflow in cubic feet per second.&#10;NO-GO if flow exceeds this.&#10;Varies by gauge site — check USGS&#10;historical data for safe thresholds.">?</span></label>
        <input type="number" id="max-flow" step="any" placeholder="e.g. 5000">
      </div>
      <details class="thresholds-ref">
        <summary>Suggested thresholds by activity type</summary>
        <table>
          <thead>
            <tr><th>Activity</th><th>Min Temp</th><th>Max Temp</th><th>Max Precip</th><th>Max River</th></tr>
          </thead>
          <tbody>
            <tr><td>Car camping</td><td>40&deg;F</td><td>90&deg;F</td><td>60%</td><td>12 ft</td></tr>
            <tr><td>Backpacking</td><td>35&deg;F</td><td>85&deg;F</td><td>40%</td><td>&mdash;</td></tr>
            <tr><td>Road cycling</td><td>45&deg;F</td><td>95&deg;F</td><td>30%</td><td>&mdash;</td></tr>
            <tr><td>Paddling</td><td>50&deg;F</td><td>90&deg;F</td><td>50%</td><td>10 ft</td></tr>
          </tbody>
        </table>
      </details>
      <div class="form-field-check">
        <input type="checkbox" id="road-req">
        <label for="road-req">Road open required<span class="tip" tabindex="0" data-tip="NO-GO if the destination&#39;s road is reported closed (e.g. seasonal gate or weather closure).">?</span></label>
      </div>
      <button type="submit" class="btn-submit">Save Destination</button>
    </form>
  </div>
</div>

<div id="toast"></div>

<script>
setInterval(function() { refreshPreview(); }, 60000);

function refreshPreview() {
  var img = document.getElementById('preview');
  var label = document.getElementById('preview-label');
  img.src = '/preview?' + Date.now();
  var t = new Date();
  label.textContent = 'refreshed ' + t.toLocaleTimeString([], {hour:'2-digit',minute:'2-digit'});
}

function openPreviewFullscreen() {
  var src = document.getElementById('preview').src;
  document.getElementById('preview-full').src = src;
  document.getElementById('preview-overlay').classList.add('open');
  document.addEventListener('keydown', _overlayKeyHandler);
}

function closePreviewFullscreen() {
  document.getElementById('preview-overlay').classList.remove('open');
  document.removeEventListener('keydown', _overlayKeyHandler);
}

function _overlayKeyHandler(e) {
  if (e.key === 'Escape') closePreviewFullscreen();
}

function showToast(msg, isError) {
  var el = document.getElementById('toast');
  el.textContent = msg;
  el.className = (isError ? 'error' : '') + ' show';
  clearTimeout(el._t);
  el._t = setTimeout(function() { el.className = isError ? 'error' : ''; }, 2500);
}

function refreshDestinations() {
  fetch('/destinations')
    .then(function(r) { return r.json(); })
    .then(function(data) {
      var container = document.getElementById('dest-cards');
      if (!container) return;
      var html = '';
      data.forEach(function(d) {
        var state = 'unknown', badge = 'UNKNOWN', cls = 'unknown';
        var dec = d.decision && d.decision.decision;
        if (dec === 'Go') {
          state = 'go'; badge = 'GO'; cls = 'go';
        } else if (dec === 'Caution') {
          state = 'caution'; badge = 'CAUTION'; cls = 'caution';
        } else if (dec === 'NoGo') {
          state = 'nogo'; badge = 'NO GO'; cls = 'nogo';
        }
        var msgs = [];
        if (d.decision && d.decision.warnings) msgs = d.decision.warnings;
        else if (d.decision && d.decision.reasons) msgs = d.decision.reasons;
        else if (d.decision && d.decision.missing) msgs = d.decision.missing;
        var reasonsHtml = msgs.length ? '<ul class="reasons">' + msgs.map(function(r) { return '<li>' + escHtml(r) + '</li>'; }).join('') + '</ul>' : '';
        var criteria = [];
        var c = d.criteria || {};
        if (c.min_temp_f != null) criteria.push('min ' + c.min_temp_f.toFixed(0) + '\u00b0F');
        if (c.max_temp_f != null) criteria.push('max ' + c.max_temp_f.toFixed(0) + '\u00b0F');
        if (c.max_precip_chance_pct != null) criteria.push('precip \u2264' + c.max_precip_chance_pct.toFixed(0) + '%');
        if (c.max_river_level_ft != null) criteria.push('river \u2264' + c.max_river_level_ft.toFixed(1) + 'ft');
        if (c.max_river_flow_cfs != null) criteria.push('flow \u2264' + c.max_river_flow_cfs.toFixed(0) + 'cfs');
        if (c.road_open_required) criteria.push('road open');
        var critHtml = criteria.length ? '<p class="criteria-summary">' + escHtml(criteria.join(' \u00b7 ')) + '</p>' : '';
        var nameId = encodeURIComponent(d.name);
        html += '<div class="dest-card" id="card-' + nameId + '">'
          + '<div class="card-header"><span class="dest-name">' + escHtml(d.name) + '</span>'
          + '<span class="badge ' + cls + '">' + badge + '</span></div>'
          + reasonsHtml + critHtml
          + '<div class="card-actions"><button class="btn-delete" onclick="deleteDestination(\'' + escJs(d.name) + '\')">Delete</button></div>'
          + '</div>';
      });
      container.innerHTML = html || '<p style="color:#aaa;font-size:.9rem;padding:.5rem .1rem">No destinations yet.</p>';
    });
}

function openDestModal() {
  var modal = document.getElementById('dest-modal');
  modal.classList.add('open');
  document.body.style.overflow = 'hidden';
  setTimeout(function() {
    var nameField = document.getElementById('dest-name');
    if (nameField) nameField.focus();
  }, 50);
}

function closeDestModal() {
  var modal = document.getElementById('dest-modal');
  modal.classList.remove('open');
  document.body.style.overflow = '';
}

function handleModalBackdropClick(e) {
  if (e.target === document.getElementById('dest-modal')) closeDestModal();
}

document.addEventListener('keydown', function(e) {
  if (e.key === 'Escape') closeDestModal();
});

function submitDestination(e) {
  e.preventDefault();
  var name = document.getElementById('dest-name').value.trim();
  if (!name) return false;
  var criteria = {};
  var f = function(id) { return document.getElementById(id).value; };
  if (f('min-temp') !== '') criteria.min_temp_f = parseFloat(f('min-temp'));
  if (f('max-temp') !== '') criteria.max_temp_f = parseFloat(f('max-temp'));
  if (f('max-precip') !== '') criteria.max_precip_chance_pct = parseFloat(f('max-precip'));
  if (f('max-river') !== '') criteria.max_river_level_ft = parseFloat(f('max-river'));
  if (f('max-flow') !== '') criteria.max_river_flow_cfs = parseFloat(f('max-flow'));
  criteria.road_open_required = document.getElementById('road-req').checked;
  var btn = e.target.querySelector('button[type="submit"]');
  btn.disabled = true; btn.textContent = 'Saving\u2026';
  fetch('/destinations', {
    method: 'POST',
    headers: {'Content-Type': 'application/json'},
    body: JSON.stringify({name: name, criteria: criteria})
  }).then(function(r) {
    btn.disabled = false; btn.textContent = 'Save Destination';
    if (r.ok) {
      showToast('\u201c' + name + '\u201d saved');
      e.target.reset();
      closeDestModal();
      refreshDestinations();
      refreshPreview();
    } else { r.text().then(function(t) { showToast('Error: ' + t, true); }); }
  }).catch(function() { btn.disabled = false; btn.textContent = 'Save Destination'; showToast('Network error', true); });
  return false;
}

function deleteDestination(name) {
  if (!confirm('Delete \u201c' + name + '\u201d?')) return;
  var card = document.getElementById('card-' + encodeURIComponent(name));
  if (card) card.classList.add('loading');
  fetch('/destinations/' + encodeURIComponent(name), {method: 'DELETE'})
    .then(function(r) {
      if (r.ok) {
        showToast('\u201c' + name + '\u201d deleted');
        if (card) card.remove();
        refreshPreview();
      } else {
        if (card) card.classList.remove('loading');
        r.text().then(function(t) { showToast('Error: ' + t, true); });
      }
    }).catch(function() { if (card) card.classList.remove('loading'); showToast('Network error', true); });
}

function toggleSource(name, action) {
  var row = document.getElementById('src-' + encodeURIComponent(name));
  var btn = row && row.querySelector('button');
  if (btn) btn.disabled = true;
  fetch('/sources/' + encodeURIComponent(name) + '/' + action, {method: 'POST'})
    .then(function(r) {
      if (r.ok) {
        var on = action === 'enable';
        showToast(name + (on ? ' enabled' : ' disabled'));
        if (row) {
          var st = row.querySelector('.src-status');
          if (st) { st.textContent = on ? 'Enabled' : 'Disabled'; st.className = 'src-status ' + (on ? 'enabled' : 'disabled'); }
          if (btn) { btn.disabled = false; btn.textContent = on ? 'Disable' : 'Enable'; btn.onclick = function() { toggleSource(name, on ? 'disable' : 'enable'); }; }
        }
      } else {
        if (btn) btn.disabled = false;
        r.text().then(function(t) { showToast('Error: ' + t, true); });
      }
    }).catch(function() { if (btn) btn.disabled = false; showToast('Network error', true); });
}

function escHtml(s) {
  return String(s).replace(/&/g,'&amp;').replace(/</g,'&lt;').replace(/>/g,'&gt;').replace(/"/g,'&quot;');
}
function escJs(s) {
  return String(s).replace(/\\/g,'\\\\').replace(/'/g,"\\'");
}

function searchGauges() {
  var lat = document.getElementById('gauge-lat').value.trim();
  var lon = document.getElementById('gauge-lon').value.trim();
  var radius = document.getElementById('gauge-radius').value.trim() || '50';
  if (!lat || !lon) { showToast('Enter latitude and longitude', true); return; }
  var btn = document.getElementById('gauge-search-btn');
  var status = document.getElementById('gauge-search-status');
  var results = document.getElementById('gauge-results');
  var hint = document.getElementById('gauge-config-hint');
  btn.disabled = true;
  btn.textContent = 'Searching\u2026';
  status.textContent = '';
  results.innerHTML = '';
  hint.style.display = 'none';
  var url = '/setup/gauges?lat=' + encodeURIComponent(lat) + '&lon=' + encodeURIComponent(lon) + '&radius_km=' + encodeURIComponent(radius);
  fetch(url)
    .then(function(r) { return r.json(); })
    .then(function(data) {
      btn.disabled = false;
      btn.textContent = 'Find Gauges';
      if (data.error) { status.textContent = 'Error: ' + data.error; return; }
      if (!data.length) { status.textContent = 'No stream gauges found within ' + radius + ' km.'; return; }
      status.textContent = data.length + ' gauge' + (data.length === 1 ? '' : 's') + ' found.';
      var html = '';
      data.forEach(function(g) {
        var dist = g.distance_km < 10 ? g.distance_km.toFixed(1) : Math.round(g.distance_km);
        html += '<div class="gauge-item">'
          + '<div class="gauge-info">'
          + '<span class="gauge-name">' + escHtml(g.site_name) + '</span>'
          + '<span class="gauge-meta">' + dist + ' km away \u00b7 ' + g.lat.toFixed(4) + ', ' + g.lon.toFixed(4) + '</span>'
          + '</div>'
          + '<span class="gauge-id">' + escHtml(g.site_id) + '</span>'
          + '<button class="btn-copy" onclick="selectGauge(\'' + escJs(g.site_id) + '\', \'' + escJs(g.site_name) + '\')">Select</button>'
          + '</div>';
      });
      results.innerHTML = html;
    })
    .catch(function(e) {
      btn.disabled = false;
      btn.textContent = 'Find Gauges';
      status.textContent = 'Network error: ' + e;
    });
}

function selectGauge(siteId, siteName) {
  var snippet = 'usgs_site_id = "' + siteId + '"';
  document.getElementById('gauge-config-snippet').textContent = snippet;
  var hint = document.getElementById('gauge-config-hint');
  hint.style.display = 'block';
  if (navigator.clipboard) {
    navigator.clipboard.writeText(snippet).then(function() {
      showToast('Copied: ' + snippet);
    }).catch(function() {
      showToast('Selected: ' + siteId + ' (' + siteName + ')');
    });
  } else {
    showToast('Selected: ' + siteId + ' (' + siteName + ')');
  }
}
</script>
</body>
</html>"#;

/// The configuration page with its dynamic parts filled in: the hardware
/// error banner, the fixture-data banner, the destination cards and the
/// source rows, in that order, within the fixed page shell.
pub open spec fn index_page(hw_error_banner: Seq<char>, fixture_banner: Seq<char>, dest_cards: Seq<char>, source_rows: Seq<char>) -> Seq<char> {
    PAGE_HEAD@ + hw_error_banner + PAGE_AFTER_ERROR@ + fixture_banner + PAGE_BEFORE_CARDS@ + dest_cards
        + PAGE_BEFORE_SOURCES@ + source_rows + PAGE_TAIL@
}

/// The configuration page with its dynamic parts filled in.
pub fn index_page_html(hw_error_banner: &str, fixture_banner: &str, dest_cards: &str, source_rows: &str) -> (r: String)
    ensures
        r@ == index_page(hw_error_banner@, fixture_banner@, dest_cards@, source_rows@),
{
    let mut v: Vec<char> = Vec::new();
    append_str(&mut v, PAGE_HEAD);
    append_str(&mut v, hw_error_banner);
    append_str(&mut v, PAGE_AFTER_ERROR);
    append_str(&mut v, fixture_banner);
    append_str(&mut v, PAGE_BEFORE_CARDS);
    append_str(&mut v, dest_cards);
    append_str(&mut v, PAGE_BEFORE_SOURCES);
    append_str(&mut v, source_rows);
    append_str(&mut v, PAGE_TAIL);
    assert(v@ =~= index_page(hw_error_banner@, fixture_banner@, dest_cards@, source_rows@));
    string_from_chars(v.as_slice())
}

} // verus!

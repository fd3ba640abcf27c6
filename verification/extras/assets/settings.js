var OFDM_MCS  = ['BpskC1_2_4x','BpskC1_2_2x','QpskC1_2_2x','QpskC1_2','QpskC3_4','QamC1_2','QamC3_4'];
var OFDM_OPT  = ['Option1','Option2','Option3','Option4'];
var QPSK_FCHIP = ['Fchip100','Fchip200','Fchip1000','Fchip2000'];
var QPSK_MODE  = ['RateMode0','RateMode1','RateMode2','RateMode3','RateMode4'];
var MODULE_NAMES = ['A', 'B'];
var currentModule = 0;
var currentBand = 'subghz';

function v(id) { return document.getElementById(id); }

// ── band toggle ──────────────────────────────────────────────────────────────
function setBand(band, userInitiated) {
  currentBand = band;
  document.querySelectorAll('.band-btn').forEach(function(b) {
    b.classList.toggle('active', b.dataset.band === band);
  });
  var fi = v('radio_freq_khz');
  if (band === 'subghz') {
    fi.min = 100000; fi.max = 1100000; fi.placeholder = 'e.g. 869535';
    if (userInitiated) fi.value = 869535;
  } else {
    fi.min = 2400000; fi.max = 2500000; fi.placeholder = 'e.g. 2450000';
    if (userInitiated) fi.value = 2450000;
  }
}

// ── modulation type ──────────────────────────────────────────────────────────
function updateMod() {
  var t = v('modulation_type').value;
  document.querySelectorAll('.mod-section').forEach(function(el) {
    el.classList.toggle('active', el.dataset.mod === t);
  });
}

// ── tx power label ───────────────────────────────────────────────────────────
function updateTxLabel(prefix) {
  var val = parseInt(v(prefix + '_tx_power_range').value);
  var label = v(prefix + '_tx_label');
  label.textContent = val + ' dBm';
  label.className = 'tx-label' + (val > 20 ? ' hot' : '');
}

// ── flash helpers ────────────────────────────────────────────────────────────
function showFlash(ok, msg) {
  var el = v('flash');
  el.className = 'flash show ' + (ok ? 'flash-ok' : 'flash-err');
  el.textContent = ok ? ('✓ ' + msg) : ('✗ ' + msg);
}
function showModalFlash(ok, msg) {
  var el = v('modal-flash');
  el.className = 'modal-flash show ' + (ok ? 'flash-ok' : 'flash-err');
  el.textContent = ok ? ('✓ ' + msg) : ('✗ ' + msg);
}

// ── module summary rows ──────────────────────────────────────────────────────
function fmtFreqHz(hz) {
  if (!hz) return null;
  var mhz = hz / 1e6;
  return (mhz % 1 === 0 ? mhz : mhz.toFixed(3)) + ' MHz';
}
function moduleSummary(radio) {
  if (!radio) return 'Not configured';
  var parts = [];
  if (radio.radio_config) {
    var f = fmtFreqHz(radio.radio_config.freq);
    if (f) parts.push(f);
    if (radio.radio_config.channel != null) parts.push('ch ' + radio.radio_config.channel);
    if (radio.radio_config.bandwidth_filter) parts.push(radio.radio_config.bandwidth_filter);
  }
  if (radio.modulation) {
    if (radio.modulation === 'Off') parts.push('Off');
    else if (radio.modulation === 'Fsk') parts.push('FSK');
    else if (radio.modulation.Ofdm) parts.push('OFDM mcs:' + radio.modulation.Ofdm.mcs);
    else if (radio.modulation.Qpsk) parts.push('QPSK');
  }
  return parts.join('  ·  ') || 'Configured';
}

var moduleData = [null, null];

// Default values shown when a module has no saved config yet.
var MODULE_DEFAULTS = [
  // Module 0 — Sub-GHz
  { radio_config: { freq: 869535000, channel_spacing: 200000, channel: 10, bandwidth_filter: 'Narrow' },
    modulation: { Ofdm: { mcs: 'BpskC1_2_4x', opt: 'Option1', pdt: 3, tx_power: 14 } } },
  // Module 1 — 2.4 GHz
  { radio_config: { freq: 2450000000, channel_spacing: 200000, channel: 0, bandwidth_filter: 'Narrow' },
    modulation: { Ofdm: { mcs: 'BpskC1_2_4x', opt: 'Option1', pdt: 3, tx_power: 14 } } }
];

function loadAllModules(cfg) {
  var configs = (cfg && cfg.radio && cfg.radio.module_configs) || [];
  moduleData = [null, null];
  configs.forEach(function(m, idx) { if (idx < 2) moduleData[idx] = m; });
  updateModuleRows();
}
function updateModuleRows() {
  for (var i = 0; i < 2; i++) {
    var sub = v('module-sub-' + i);
    if (!sub) continue;
    sub.textContent = moduleSummary(moduleData[i]);
    sub.className = 'module-sub' + (moduleData[i] ? ' ok' : '');
  }
}

// ── modal ────────────────────────────────────────────────────────────────────
function openModal(idx) {
  currentModule = idx;
  v('modal-title').textContent = 'RF215 Module ' + MODULE_NAMES[idx] + ' Configuration';
  v('modal-flash').className = 'modal-flash';
  populateModalFields(moduleData[idx] || MODULE_DEFAULTS[idx]);
  v('modal-backdrop').classList.add('open');
}
function closeModal() {
  v('modal-backdrop').classList.remove('open');
}

function populateModalFields(radio) {
  var rf = radio && radio.radio_config;
  var freq_hz = rf ? rf.freq : 0;
  var freq_khz = freq_hz ? Math.round(freq_hz / 1000) : '';

  // detect band from frequency
  var band = (freq_hz && freq_hz >= 2000000000) ? '2400' : 'subghz';
  setBand(band);

  v('radio_freq_khz').value            = freq_khz;
  v('radio_channel_spacing_khz').value = rf ? Math.round(rf.channel_spacing / 1000) : '';
  v('radio_channel').value             = rf ? rf.channel : 0;
  v('radio_bandwidth_filter').value    = (rf && rf.bandwidth_filter === 'Wide') ? 'wide' : 'narrow';

  var mod = radio && radio.modulation;
  if (!mod || mod === 'Off') {
    v('modulation_type').value = 'off';
  } else if (mod === 'Fsk') {
    v('modulation_type').value = 'fsk';
  } else if (mod.Ofdm) {
    v('modulation_type').value = 'ofdm';
    var o = mod.Ofdm;
    v('ofdm_mcs').value             = OFDM_MCS.indexOf(o.mcs);
    v('ofdm_opt').value             = OFDM_OPT.indexOf(o.opt);
    v('ofdm_pdt').value             = o.pdt;
    v('ofdm_tx_power_range').value  = o.tx_power;
    updateTxLabel('ofdm');
  } else if (mod.Qpsk) {
    v('modulation_type').value = 'qpsk';
    var q = mod.Qpsk;
    v('qpsk_fchip').value           = QPSK_FCHIP.indexOf(q.fchip);
    v('qpsk_mode').value            = QPSK_MODE.indexOf(q.mode);
    v('qpsk_tx_power_range').value  = q.tx_power;
    updateTxLabel('qpsk');
  }
  updateMod();
}

function buildModuleConfig() {
  var existing = moduleData[currentModule] || {};
  var freq_khz = parseInt(v('radio_freq_khz').value) || 0;
  var ch_khz   = parseInt(v('radio_channel_spacing_khz').value) || 0;
  var channel  = parseInt(v('radio_channel').value) || 0;
  var bw       = v('radio_bandwidth_filter').value === 'wide' ? 'Wide' : 'Narrow';

  var default_rc = (MODULE_DEFAULTS[currentModule] || {}).radio_config;
  var existing_rc = (existing && existing.radio_config) || default_rc;
  var radio_config = freq_khz > 0 ? {
    freq: freq_khz * 1000,
    channel_spacing: ch_khz * 1000,
    channel: channel,
    bandwidth_filter: bw
  } : existing_rc;

  var mod_type = v('modulation_type').value;
  var modulation = 'Off';
  if (mod_type === 'fsk') {
    modulation = 'Fsk';
  } else if (mod_type === 'ofdm') {
    modulation = { Ofdm: {
      mcs: OFDM_MCS[parseInt(v('ofdm_mcs').value)],
      opt: OFDM_OPT[parseInt(v('ofdm_opt').value)],
      pdt: parseInt(v('ofdm_pdt').value) || 0,
      tx_power: parseInt(v('ofdm_tx_power_range').value) || 0
    }};
  } else if (mod_type === 'qpsk') {
    modulation = { Qpsk: {
      fchip: QPSK_FCHIP[parseInt(v('qpsk_fchip').value)],
      mode:  QPSK_MODE[parseInt(v('qpsk_mode').value)],
      tx_power: parseInt(v('qpsk_tx_power_range').value) || 0
    }};
  }

  return {
    radio_config: radio_config,
    modulation: modulation
  };
}

function saveModule(e) {
  e.preventDefault();
  var cfg = buildModuleConfig();
  fetch('/api/settings/radio/' + currentModule, {
    method: 'PUT',
    headers: { 'Content-Type': 'application/json' },
    body: JSON.stringify(cfg)
  }).then(function(r) {
    if (r.ok) {
      moduleData[currentModule] = cfg;
      updateModuleRows();
      showModalFlash(true, 'Module ' + MODULE_NAMES[currentModule] + ' saved.');
    } else {
      showModalFlash(false, 'Save failed (HTTP ' + r.status + ').');
    }
  }).catch(function(err) { showModalFlash(false, 'Error: ' + err.message); });
}

// ── VPN + peer settings ──────────────────────────────────────────────────────
function loadSettings() {
  fetch('/api/settings')
    .then(function(r) { return r.ok ? r.json() : null; })
    .then(function(cfg) {
      if (!cfg) return;
      v('network').value = cfg.network || '';
      v('announce_freq_secs').value = cfg.announce_freq_secs || 1;
      v('peers').value = (cfg.peers || []).join('\n');
      loadAllModules(cfg);
    })
    .catch(function() {});
}

function saveSettings(e) {
  e.preventDefault();
  fetch('/api/settings')
    .then(function(r) { return r.ok ? r.json() : {}; })
    .then(function(existing) {
      return fetch('/api/settings', {
        method: 'PUT',
        headers: { 'Content-Type': 'application/json' },
        body: JSON.stringify({
          network: v('network').value.trim(),
          announce_freq_secs: parseInt(v('announce_freq_secs').value) || 1,
          peers: v('peers').value.split('\n').map(function(s){return s.trim();}).filter(Boolean),
          radio: { module_configs: [
            moduleData[0] || MODULE_DEFAULTS[0],
            moduleData[1] || MODULE_DEFAULTS[1]
          ]}
        })
      });
    })
    .then(function(r) {
      if (r.ok) showFlash(true, 'Settings saved.');
      else showFlash(false, 'Failed (HTTP ' + r.status + ').');
    })
    .catch(function(err) { showFlash(false, 'Error: ' + err.message); });
}

document.addEventListener('DOMContentLoaded', function() {
  loadSettings();
  v('settings-form').addEventListener('submit', saveSettings);
  v('module-form').addEventListener('submit', saveModule);
  setBand('subghz');
  updateTxLabel('ofdm');
  updateTxLabel('qpsk');
  updateMod();
  v('modal-backdrop').addEventListener('click', function(e) {
    if (e.target === this) closeModal();
  });
});

function fmtFreq(hz) {
  if (!hz) return '—';
  const mhz = hz / 1e6;
  return mhz % 1 === 0 ? mhz + ' MHz' : mhz.toFixed(3) + ' MHz';
}
function fmtMod(mod) {
  if (!mod) return '—';
  if (mod === 'Off' || mod === 'Fsk') return mod;
  if (mod.Ofdm) {
    const o = mod.Ofdm;
    return `OFDM  MCS:${o.mcs}  BW:${o.opt}  TX:${o.tx_power} dBm`;
  }
  if (mod.Qpsk) {
    const q = mod.Qpsk;
    return `QPSK  Fchip:${q.fchip}  Mode:${q.mode}  TX:${q.tx_power} dBm`;
  }
  return JSON.stringify(mod);
}
function fmtOneRadio(r, idx) {
  if (!r) return '';
  const names = ['A', 'B'];
  const label = names[idx] ?? idx;
  const rc = r.radio_config;
  const freq = rc ? fmtFreq(rc.freq) : '—';
  const ch   = rc ? (rc.channel ?? '—') : '—';
  const bw   = rc ? (rc.bandwidth_filter ?? '—') : '—';
  const mod  = fmtMod(r.modulation);
  const freqHz = rc ? rc.freq : 0;
  const band = freqHz >= 2_000_000_000 ? '2.4 GHz' : 'Sub-GHz';
  const bandColor = freqHz >= 2_000_000_000 ? '#7c85f5' : '#4ade80';
  return `<div class="bridge-row" style="align-items:center;padding:.75rem 0">
    <div style="flex:1;display:flex;flex-direction:column;gap:.4rem">
      <span class="bridge-port">Module ${label}</span>
      <span style="font-size:.82rem;color:#94a3b8">${freq}  ·  ch ${ch}  ·  ${bw}  ·  ${mod}</span>
    </div>
    <span style="font-size:1.15rem;font-weight:700;color:${bandColor};letter-spacing:.01em">${band}</span>
  </div>`;
}
function fmtRadio(modules) {
  if (!modules || modules.length === 0) return '<span style="color:#64748b">No modules configured</span>';
  return modules.map(fmtOneRadio).join('');
}

async function refresh() {
  try {
    const r = await fetch('/api/status');
    const d = await r.json();

    document.getElementById('vpn-hash').textContent = d.vpn_hash || '—';

    const sys = d.system || {};
    const cpu = sys.cpu_percent ?? 0;
    const ramUsed = sys.ram_used_mb ?? 0;
    const ramTotal = sys.ram_total_mb ?? 1;
    const ramPct = ramTotal > 0 ? Math.round(ramUsed / ramTotal * 100) : 0;

    document.getElementById('cpu-val').textContent  = cpu.toFixed(1) + ' %';
    document.getElementById('cpu-bar').style.width  = Math.min(cpu, 100) + '%';
    document.getElementById('ram-val').textContent  = ramUsed + ' / ' + ramTotal + ' MB';
    document.getElementById('ram-pct').textContent  = ramPct + '%';
    document.getElementById('ram-bar').style.width  = ramPct + '%';

    const bridges = d.atak_bridges || [];
    const tbody = document.getElementById('bridges');
    tbody.innerHTML = bridges.map(b =>
      `<div class="bridge-row">
        <span>
          <span class="bridge-port">UDP:${b.port}</span>
          <span class="hash" style="font-size:.72rem;margin-left:.6rem">${b.dest_hash || '…'}</span>
        </span>
        <span><span class="badge">RX ${b.rx_packets}</span> &nbsp; <span class="badge">TX ${b.tx_packets}</span></span>
      </div>`
    ).join('') || '<div class="bridge-row" style="color:#64748b">No bridges active</div>';

    document.getElementById('radio-info').innerHTML = fmtRadio(d.radio_modules);
  } catch(e) { /* ignore */ }
}
refresh();
setInterval(refresh, 2000);

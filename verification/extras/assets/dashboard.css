*{box-sizing:border-box;margin:0;padding:0}
body{font-family:system-ui,sans-serif;background:#0a0c14;color:#e2e8f0;min-height:100vh}
a{color:#6ee7f7;text-decoration:none}a:hover{text-decoration:underline}
header{background:#111320;border-bottom:1px solid #1e2235;padding:.85rem 2rem;display:flex;align-items:center;gap:2rem}
header h1{font-size:1.1rem;font-weight:700;color:#6ee7f7;letter-spacing:.04em}
header nav{flex:1}
header nav a{color:#64748b;font-size:.88rem;margin-right:1.4rem;transition:color .15s}
header nav a:hover,header nav a.active{color:#e2e8f0}
.serial-badge{font-size:.78rem;color:#64748b;background:#1a1d2e;border:1px solid #2d3147;border-radius:6px;padding:.2rem .7rem;white-space:nowrap}
main{max-width:900px;margin:2.5rem auto;padding:0 1.5rem}
.grid{display:grid;grid-template-columns:repeat(auto-fit,minmax(200px,1fr));gap:1rem;margin-bottom:1.5rem}
.card{background:#111320;border:1px solid #1e2235;border-radius:10px;padding:1.4rem 1.6rem}
.card-title{font-size:.7rem;font-weight:700;color:#6ee7f7;text-transform:uppercase;letter-spacing:.1em;margin-bottom:.75rem}
.stat{font-size:1.9rem;font-weight:700;color:#f1f5f9;font-variant-numeric:tabular-nums}
.stat-sub{font-size:.78rem;color:#64748b;margin-top:.3rem}
.hash{font-family:monospace;font-size:.82rem;color:#94a3b8;word-break:break-all;line-height:1.6}
.bar-bg{background:#1e2235;border-radius:4px;height:8px;margin-top:.7rem;overflow:hidden}
.bar-fill{height:100%;border-radius:4px;background:linear-gradient(90deg,#6ee7f7,#6366f1);transition:width .4s}
.bridge-row{display:flex;justify-content:space-between;align-items:center;padding:.55rem 0;border-bottom:1px solid #1e2235;font-size:.88rem}
.bridge-row:last-child{border-bottom:none}
.bridge-port{color:#6ee7f7;font-weight:600;font-family:monospace}
.badge{display:inline-block;padding:.18rem .55rem;border-radius:4px;font-size:.72rem;font-weight:700;background:#1e2235;color:#94a3b8}
.dot{display:inline-block;width:8px;height:8px;border-radius:50%;background:#22c55e;margin-right:.4rem;box-shadow:0 0 6px #22c55e}
.section-title{font-size:.95rem;font-weight:700;color:#94a3b8;margin-bottom:.9rem;text-transform:uppercase;letter-spacing:.06em}

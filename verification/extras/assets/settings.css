*{box-sizing:border-box;margin:0;padding:0}
body{font-family:system-ui,sans-serif;background:#0f1117;color:#e2e8f0;min-height:100vh}
a{color:#7c85f5;text-decoration:none}a:hover{text-decoration:underline}
header{background:#1a1d27;border-bottom:1px solid #2d3147;padding:.85rem 2rem;display:flex;align-items:center;gap:2rem}
header h1{font-size:1.1rem;font-weight:700;color:#7c85f5;letter-spacing:.02em}
header nav{flex:1}
header nav a{color:#94a3b8;font-size:.88rem;margin-right:1.2rem}
header nav a:hover{color:#e2e8f0}
.serial-badge{font-size:.78rem;color:#64748b;background:#111320;border:1px solid #2d3147;border-radius:6px;padding:.2rem .7rem;white-space:nowrap}
main{max-width:740px;margin:2rem auto;padding:0 1.25rem}
.card{background:#1a1d27;border:1px solid #2d3147;border-radius:8px;padding:1.5rem;margin-bottom:1.5rem}
.card-title{font-size:.78rem;font-weight:700;color:#7c85f5;text-transform:uppercase;letter-spacing:.08em;margin-bottom:1.1rem}
.field{margin-bottom:1rem}
.field label{display:block;font-size:.83rem;color:#94a3b8;margin-bottom:.3rem;font-weight:500}
.field input,.field textarea,.field select{width:100%;background:#0f1117;border:1px solid #2d3147;border-radius:4px;padding:.45rem .7rem;color:#e2e8f0;font-size:.9rem;font-family:inherit}
.field input:focus,.field textarea:focus,.field select:focus{outline:none;border-color:#7c85f5;box-shadow:0 0 0 2px #7c85f520}
.field textarea{resize:vertical;min-height:90px;line-height:1.5;font-family:monospace}
.field small{display:block;color:#64748b;font-size:.76rem;margin-top:.25rem}
.row{display:grid;grid-template-columns:1fr 1fr;gap:1rem}
.actions{display:flex;justify-content:flex-end;gap:.75rem;margin-top:.5rem}
.btn{padding:.45rem 1.2rem;border-radius:4px;border:none;cursor:pointer;font-size:.9rem;font-weight:600}
.btn-primary{background:#7c85f5;color:#fff}.btn-primary:hover{background:#6470f0}
.btn-sm{padding:.3rem .85rem;font-size:.82rem}
.btn-outline{background:transparent;border:1px solid #3d4262;color:#94a3b8}.btn-outline:hover{border-color:#7c85f5;color:#e2e8f0}
.flash{border-radius:6px;padding:.7rem 1rem;margin-bottom:1.5rem;font-size:.88rem;display:none}
.flash.show{display:block}
.flash-ok{background:#14532d;border:1px solid #16a34a;color:#86efac}
.flash-err{background:#450a0a;border:1px solid #dc2626;color:#fca5a5}
.flash-info{background:#1e2235;border:1px solid #3d4262;color:#94a3b8}
.hint{font-size:.78rem;color:#64748b;margin-top:-.5rem;margin-bottom:.75rem}
.mod-section{display:none}.mod-section.active{display:block}
.slider-row{display:flex;align-items:center;gap:.75rem}
.slider-row input[type=range]{flex:1;cursor:pointer}
.tx-label{font-size:.88rem;font-weight:700;color:#94a3b8;min-width:58px;text-align:right;transition:color .2s}
.tx-label.hot{color:#f97316}
select option{background:#1a1d27}
/* band toggle */
.band-toggle{display:flex;border:1px solid #2d3147;border-radius:6px;overflow:hidden;margin-bottom:1.1rem}
.band-btn{flex:1;padding:.38rem .6rem;background:#0f1117;color:#64748b;border:none;cursor:pointer;font-size:.84rem;font-weight:500;transition:background .15s,color .15s}
.band-btn.active{background:#7c85f5;color:#fff}
.band-btn:not(.active):hover{background:#1e2235;color:#e2e8f0}
/* module rows */
.module-row{display:flex;align-items:center;justify-content:space-between;padding:.75rem 0;border-bottom:1px solid #2d3147}
.module-row:last-child{border-bottom:none}
.module-label{font-weight:600;font-size:.95rem}
.module-sub{font-size:.78rem;color:#64748b;margin-top:.2rem}
.module-sub.ok{color:#4ade80}
/* modal */
.modal-backdrop{display:none;position:fixed;inset:0;background:#00000099;z-index:100;align-items:center;justify-content:center}
.modal-backdrop.open{display:flex}
.modal{background:#1a1d27;border:1px solid #2d3147;border-radius:10px;padding:1.75rem;width:100%;max-width:560px;max-height:90vh;overflow-y:auto;position:relative}
.modal-title{font-size:1rem;font-weight:700;color:#e2e8f0;margin-bottom:1.5rem}
.modal-close{position:absolute;top:1rem;right:1rem;background:none;border:none;color:#94a3b8;font-size:1.2rem;cursor:pointer;line-height:1}
.modal-close:hover{color:#e2e8f0}
.modal-flash{border-radius:4px;padding:.5rem .8rem;margin-bottom:1rem;font-size:.85rem;display:none}
.modal-flash.show{display:block}

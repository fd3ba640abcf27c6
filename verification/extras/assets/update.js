const UPDATE_API = 'http://' + location.hostname + ':8682';

async function loadVersions() {
    for (const target of ['commd', 'gateway']) {
        const el = document.getElementById(target + '_version');
        if (!el) continue;
        try {
            const r = await fetch(UPDATE_API + '/api/update/' + target + '/version');
            if (!r.ok) { el.textContent = 'unavailable (HTTP ' + r.status + ')'; continue; }
            const d = await r.json();
            const hashStr = d.hash ? ' (' + d.hash.slice(0,12) + '...)' : '';
            el.textContent = d.version ? d.version + hashStr : 'not installed';
        } catch(e) {
            el.textContent = 'unavailable';
        }
    }
}

async function doUpload(target) {
    const input = document.getElementById(target + '_file');
    const status = document.getElementById(target + '_status');
    if (!input.files.length) {
        showStatus(status, 'No file selected.', false);
        return;
    }
    const file = input.files[0];
    if (!file.name.endsWith('.zip')) {
        showStatus(status, 'Only .zip files are accepted.', false);
        return;
    }
    const btn = document.getElementById(target + '_btn');
    btn.disabled = true;
    showStatus(status, 'Uploading…', null);

    const form = new FormData();
    form.append('file', file);
    try {
        const r = await fetch(UPDATE_API + '/api/update/' + target + '/upload', {
            method: 'POST',
            body: form,
        });
        const d = await r.json();
        showStatus(status, d.detail || (r.ok ? 'Success' : 'Error'), r.ok);
        if (r.ok) { input.value = ''; loadVersions(); }
    } catch(e) {
        showStatus(status, 'Request failed: ' + e.message, false);
    } finally {
        btn.disabled = false;
    }
}

function showStatus(el, msg, ok) {
    el.textContent = msg;
    el.className = 'flash show ' + (ok === null ? 'flash-info' : (ok ? 'flash-ok' : 'flash-err'));
}

window.addEventListener('DOMContentLoaded', loadVersions);

document.querySelectorAll('[data-mavlink-action]').forEach(function(button) {
    button.addEventListener('click', function() {
        var card = button.closest('[data-mavlink-service]');
        var error = card.querySelector('.error-banner');
        var buttons = card.querySelectorAll('[data-mavlink-action]');
        buttons.forEach(function(b) { b.disabled = true; });
        error.hidden = true;
        fetch('/api/mavlink/' + card.dataset.mavlinkService + '/' + button.dataset.mavlinkAction, {
            method: 'POST'
        }).then(function(r) {
            if (r.ok) { location.reload(); return; }
            return r.text().then(function(t) { throw new Error(t || ('HTTP ' + r.status)); });
        }).catch(function(err) {
            error.textContent = 'Error: ' + (err.message || err);
            error.hidden = false;
        }).finally(function() {
            buttons.forEach(function(b) { b.disabled = false; });
        });
    });
});

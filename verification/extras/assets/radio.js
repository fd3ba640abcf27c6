function initRadioForm(index, defaults) {
    var fi=document.getElementById('freq-'+index),si=document.getElementById('spacing-'+index),ci=document.getElementById('channel-'+index);
    var bs=document.getElementById('band-sub-'+index),b2=document.getElementById('band-24-'+index);
    var ms=document.getElementById('ms'+index),mo=document.getElementById('mo'+index),mq=document.getElementById('mq'+index);
    var accel=document.getElementById('accel-'+index);
    var ant=document.getElementById('ant-'+index);
    var applyBtn=document.getElementById('apply-btn-'+index),resetBtn=document.getElementById('reset-btn-'+index);
    var testBtn=document.getElementById('test-btn-'+index);
    var status=document.getElementById('apply-status-'+index);
    var testModal=document.getElementById('radio-test-modal-'+index);
    var testForm=document.getElementById('radio-test-form-'+index);
    var testInput=document.getElementById('radio-test-message-'+index);
    var testStatus=document.getElementById('radio-test-status-'+index);
    var testSendBtn=document.getElementById('radio-test-send-'+index);
    var testCounter=document.getElementById('radio-test-count-'+index);
    var closeTestButtons=document.querySelectorAll('[data-close-radio-test="'+index+'"]');
    var bands={
        sub:{label:'sub-GHz',freqMin:389.5,freqMax:1020.0,channelMax:255},
        b24:{label:'2.4 GHz',freqMin:2400.0,freqMax:2483.5,channelMax:511}
    };
    function formatFixed(input, digits){
        var value=parseFloat(input.value);
        if(Number.isFinite(value)){input.value=value.toFixed(digits);}
    }
    function clampFreq(){
        var f=parseFloat(fi.value);
        if(!Number.isFinite(f)) return false;
        var corrected=f;
        if(f<bands.sub.freqMin) corrected=bands.sub.freqMin;
        else if(f>bands.b24.freqMax) corrected=bands.b24.freqMax;
        else if(f>bands.sub.freqMax && f<bands.b24.freqMin){
            corrected=(f-bands.sub.freqMax) <= (bands.b24.freqMin-f)
                ? bands.sub.freqMax
                : bands.b24.freqMin;
        }
        if(corrected!==f){
            fi.value=corrected.toFixed(3);
            return true;
        }
        return false;
    }
    function clampSpacing(){
        var s=parseFloat(si.value);
        if(!Number.isFinite(s)) return false;
        var corrected=Math.min(10000,Math.max(0.001,s));
        if(corrected!==s){
            si.value=corrected.toFixed(3);
            return true;
        }
        return false;
    }
    function bandForFreq(f){
        if(Number.isFinite(f)){
            if(f>=bands.sub.freqMin && f<=bands.sub.freqMax) return 'sub';
            if(f>=bands.b24.freqMin && f<=bands.b24.freqMax) return 'b24';
        }
        return f>=bands.b24.freqMin ? 'b24' : 'sub';
    }
    function validateFreq(){
        var f=parseFloat(fi.value);
        var valid=Number.isFinite(f) && (
            (f>=bands.sub.freqMin && f<=bands.sub.freqMax) ||
            (f>=bands.b24.freqMin && f<=bands.b24.freqMax)
        );
        fi.setCustomValidity(
            valid
                ? ''
                : 'Use 389.500-1020.000 MHz for sub-GHz or 2400.000-2483.500 MHz for 2.4 GHz.'
        );
        return valid;
    }
    function validateChannel(){
        var channel=parseInt(ci.value,10);
        var band=bands[bandForFreq(parseFloat(fi.value))];
        ci.max=String(band.channelMax);
        var valid=Number.isInteger(channel) && channel>=0 && channel<=band.channelMax;
        ci.setCustomValidity(valid ? '' : 'Use a channel between 0 and ' + band.channelMax + ' for ' + band.label + '.');
        return valid;
    }
    function validateSpacing(){
        var s=parseFloat(si.value);
        var valid=Number.isFinite(s) && s>=0.001 && s<=10000;
        si.setCustomValidity(valid ? '' : 'Use a spacing between 0.001 and 10000.000 kHz.');
        return valid;
    }
    function syncBand(){
        var band=bandForFreq(parseFloat(fi.value));
        bs.classList.toggle('active',band==='sub');
        b2.classList.toggle('active',band==='b24');
        validateChannel();
    }
    syncBand();
    validateFreq();
    validateChannel();
    validateSpacing();
    fi.addEventListener('input',function(){validateFreq();syncBand();});
    ci.addEventListener('input',validateChannel);
    si.addEventListener('input',validateSpacing);
    fi.addEventListener('blur',function(){clampFreq();validateFreq();formatFixed(fi,3);syncBand();});
    ci.addEventListener('blur',validateChannel);
    si.addEventListener('blur',function(){clampSpacing();validateSpacing();formatFixed(si,3);});
    bs.addEventListener('click',function(){fi.value='915.000';si.value='200.000';validateFreq();validateSpacing();syncBand();});
    b2.addEventListener('click',function(){fi.value='2450.000';si.value='5000.000';validateFreq();validateSpacing();syncBand();});
    function syncMod(){mo.style.display=ms.value==='OFDM'?'':'none';mq.style.display=ms.value==='QPSK'?'':'none';}
    syncMod();ms.addEventListener('change',syncMod);
    function syncTxValue(sl,sp){
        var v=parseInt(sl.value,10)||0;
        sp.textContent=v+' dBm';
        if(v>21){sl.style.accentColor='#f97316';sp.className='tx-value tx-high';}
        else{sl.style.accentColor='';sp.className='tx-value';}
    }
    var otx=document.getElementById('otx-mo'+index),otxv=document.getElementById('otxv-mo'+index);
    var qtx=document.getElementById('qtx-mq'+index),qtxv=document.getElementById('qtxv-mq'+index);
    if(otx){otx.addEventListener('input',function(){syncTxValue(otx,otxv);});syncTxValue(otx,otxv);}
    if(qtx){qtx.addEventListener('input',function(){syncTxValue(qtx,qtxv);});syncTxValue(qtx,qtxv);}
    function setTestStatus(text, className){
        if(!testStatus) return;
        testStatus.textContent=text;
        testStatus.className=className || '';
    }
    function updateTestCount(){
        if(!testInput || !testCounter) return;
        testCounter.textContent=String(testInput.value.length) + ' / 2047';
    }
    function openTestModal(){
        if(!testModal) return;
        testModal.hidden=false;
        document.body.classList.add('modal-open');
        setTestStatus('', '');
        updateTestCount();
        if(testInput) testInput.focus();
    }
    function closeTestModal(){
        if(!testModal) return;
        testModal.hidden=true;
        document.body.classList.remove('modal-open');
        setTestStatus('', '');
    }
    function sendTestMessage(){
        if(!testInput || !testSendBtn) return;
        var message=testInput.value || '';
        if(!message.trim()) {
            setTestStatus('Message is required.', 'flash-err');
            return;
        }
        if(message.length > 2047) {
            setTestStatus('Message exceeds 2047 characters.', 'flash-err');
            return;
        }
        testSendBtn.disabled=true;
        setTestStatus('Sending…', 'flash-ok');
        fetch('/api/radio/'+index+'/test', {
            method:'POST',
            headers:{'Content-Type':'application/json'},
            body:JSON.stringify({message:message})
        }).then(function(r){
            if(!r.ok){
                return r.text().then(function(t){ throw new Error(t || ('HTTP ' + r.status)); });
            }
            return r.json();
        }).then(function(resp){
            status.textContent=resp.status || '✓ Test frame sent';
            status.className='flash-ok';
            closeTestModal();
            testInput.value='';
            updateTestCount();
        }).catch(function(err){
            setTestStatus('Error: ' + (err.message || err), 'flash-err');
        }).finally(function(){
            testSendBtn.disabled=false;
        });
    }
    if(testBtn){testBtn.addEventListener('click',openTestModal);}
    if(testInput){testInput.addEventListener('input',updateTestCount); updateTestCount();}
    closeTestButtons.forEach(function(btn){ btn.addEventListener('click', closeTestModal); });
    if(testModal){
        testModal.addEventListener('click', function(ev){ if(ev.target===testModal) closeTestModal(); });
    }
    if(testForm){
        testForm.addEventListener('submit', function(ev){ ev.preventDefault(); sendTestMessage(); });
    }
    window.addEventListener('keydown', function(ev){ if(ev.key==='Escape' && testModal && !testModal.hidden) closeTestModal(); });
    // Apply button
    var MCS=['BpskC1_2_4x','BpskC1_2_2x','QpskC1_2_2x','QpskC1_2','QpskC3_4','QamC1_2','QamC3_4'];
    var BWOPT=['Option1','Option2','Option3','Option4'];
    var FCHIP=['Fchip100','Fchip200','Fchip1000','Fchip2000'];
    var MODE=['RateMode0','RateMode1','RateMode2','RateMode3','RateMode4'];
    function applyConfig(){
        var modVal=ms.value;
        var modulation;
        if(modVal==='OFDM'){
            modulation={Ofdm:{
                mcs:MCS[parseInt(document.getElementById('ofdm-mcs-mo'+index).value)||0],
                opt:BWOPT[parseInt(document.getElementById('ofdm-opt-mo'+index).value)||0],
                tx_power:parseInt(document.getElementById('otx-mo'+index).value)||10
            }};
        }else if(modVal==='QPSK'){
            modulation={Qpsk:{
                fchip:FCHIP[parseInt(document.getElementById('qpsk-fchip-mq'+index).value)||0],
                mode:MODE[parseInt(document.getElementById('qpsk-mode-mq'+index).value)||0],
                tx_power:parseInt(document.getElementById('qtx-mq'+index).value)||10
            }};
        }else if(modVal==='FSK'){
            modulation='Fsk';
        }else{
            modulation='Off';
        }
        var freqHz=Math.round((parseFloat(fi.value)||869.535)*1000000);
        var spacingHz=Math.round((parseFloat(si.value)||200)*1000);
        var payload={
            radio_config:{
                freq:freqHz,
                channel_spacing:spacingHz,
                channel:parseInt(ci.value)||0,
                bandwidth_filter:'Narrow'
            },
            modulation:modulation,
            accelerator:accel?accel.value:'Native',
            // Always sent so the 2.4 GHz choice survives a retune to sub-GHz;
            // the server only applies it when the module is on 2.4 GHz.
            antenna:ant?ant.value:'Internal'
        };
        validateFreq();
        validateChannel();
        validateSpacing();
        if(!fi.reportValidity() || !ci.reportValidity() || !si.reportValidity()){
            status.textContent='Fix invalid values.';
            status.className='flash-err';
            return;
        }
        formatFixed(fi,3);
        formatFixed(si,3);
        applyBtn.disabled=true;
        if(resetBtn){resetBtn.disabled=true;}
        applyBtn.textContent='Applying…';status.textContent='';
        fetch('/api/settings/radio/'+index,{
            method:'PUT',
            headers:{'Content-Type':'application/json'},
            body:JSON.stringify(payload)
        }).then(function(r){
            if(r.ok){status.textContent='✓ Applied';status.className='flash-ok';}
            else{r.text().then(function(t){status.textContent='Error: '+t;status.className='flash-err';});}
        }).catch(function(e){
            status.textContent='Error: '+e;status.className='flash-err';
        }).finally(function(){
            applyBtn.disabled=false;
            if(resetBtn){resetBtn.disabled=false;}
            applyBtn.textContent='Apply';
        });
    }
    applyBtn.addEventListener('click',applyConfig);
    if(resetBtn){
        resetBtn.addEventListener('click',function(){
            fi.value=defaults.freq;
            si.value=defaults.spacing;
            ci.value=defaults.channel;
            ms.value=defaults.modulation;
            if(accel){accel.value=defaults.accel;}
            if(ant){ant.value=defaults.antenna;}
            document.getElementById('ofdm-mcs-mo'+index).value=String(defaults.ofdm.mcs);
            document.getElementById('ofdm-opt-mo'+index).value=String(defaults.ofdm.opt);
            if(otx){otx.value=String(defaults.ofdm.tx);syncTxValue(otx,otxv);}
            document.getElementById('qpsk-fchip-mq'+index).value=String(defaults.qpsk.fchip);
            document.getElementById('qpsk-mode-mq'+index).value=String(defaults.qpsk.mode);
            if(qtx){qtx.value=String(defaults.qpsk.tx);syncTxValue(qtx,qtxv);}
            validateFreq();
            validateChannel();
            validateSpacing();
            syncBand();
            syncMod();
            status.textContent='Resetting to defaults…';
            status.className='flash-ok';
            applyConfig();
        });
    }
}

(function() {
    function shouldPauseLiveUpdates() {
        if (document.body.classList.contains('modal-open')) { return true; }
        var active = document.activeElement;
        if (active && (
            active.tagName === 'INPUT' ||
            active.tagName === 'TEXTAREA' ||
            active.tagName === 'SELECT' ||
            active.isContentEditable
        )) {
            return true;
        }
        var selection = window.getSelection ? window.getSelection() : null;
        return !!(selection && !selection.isCollapsed && String(selection).trim().length > 0);
    }
    function formatKBytes(bytes) {
        return (bytes / 1024).toFixed(1);
    }
    function formatRate(bytesPerSecond) {
        return (bytesPerSecond / 1024).toFixed(1);
    }
    function formatFrameTime(ts) {
        return new Date(ts * 1000).toLocaleTimeString([], {
            hour: '2-digit',
            minute: '2-digit',
            second: '2-digit'
        });
    }
    function rssiClass(frame) {
        if (frame.direction === 'tx') {
            return 'td-rssi';
        }
        var value = Number(frame.rssi);
        if (!Number.isFinite(value)) {
            return 'td-rssi';
        }
        if (value <= -100) {
            return 'td-rssi td-rssi-bad';
        }
        if (value <= -80) {
            return 'td-rssi td-rssi-warn';
        }
        return 'td-rssi td-rssi-good';
    }
    function connect() {
        var proto = location.protocol === 'https:' ? 'wss:' : 'ws:';
        var ws = new WebSocket(proto + '//' + location.host + '/api/ws/status');
        ws.onmessage = function(ev) {
            try {
                if (shouldPauseLiveUpdates()) { return; }
                var msg = JSON.parse(ev.data) || {};
                if (msg.type !== 'radio_frames') { return; }
                var d = msg.data || {};
                var i = Number(d.module) || 0;
                var tbody = document.getElementById('rx-frames-' + i);
                var stats = document.getElementById('rx-stats-summary-' + i);
                var rssi = document.getElementById('rx-stats-rssi-' + i);
                if (!tbody || !stats || !rssi) return;
                var list = d.frames || [];
                var totals = d.stats || {};
                var rxBps = Number(totals.rx_bps) || 0;
                var txBps = Number(totals.tx_bps) || 0;
                stats.textContent = 'RX: ' + formatRate(rxBps) + ' KB/s | TX: '
                    + formatRate(txBps) + ' KB/s | Total: '
                    + formatRate(rxBps + txBps) + ' KB/s';
                    rssi.textContent = totals.last_rssi !== null && totals.last_rssi !== undefined
                        ? 'Last RSSI: ' + totals.last_rssi + ' dBm'
                        : 'Last RSSI: —';
                if (list.length === 0) {
                    tbody.innerHTML = '<tr><td colspan="7" class="frames-empty">No frames observed</td></tr>';
                    return;
                }
                tbody.innerHTML = list.map(function(f) {
                    var t = formatFrameTime(f.ts);
                    var dir = f.direction === 'tx' ? '\u2191' : '\u2193';
                    var trxClass = f.direction === 'tx' ? 'td-trx td-trx-tx' : 'td-trx td-trx-rx';
                    return '<tr><td class="' + trxClass + '">' + dir + '</td>'
                         + '<td class="td-time">' + t + '</td>'
                            + '<td class="' + rssiClass(f) + '">' + f.rssi + ' dBm</td>'
                            + '<td class="td-len">' + f.len + ' B</td>'
                            + '<td class="td-hex td-preview">' + (f.hex || '—') + '</td>'
                            + '<td class="td-hex td-preview">' + (f.ascii || '—') + '</td>'
                            + '<td class="td-hex td-preview">' + (f.crc32 || '—') + '</td></tr>';
                }).join('');
            } catch(e) {}
        };
        ws.onclose = function() {
            setTimeout(connect, 3000);
        };
        ws.onerror = function() {
            ws.close();
        };
    }
    connect();
})();

[0, 1].forEach(function(index) {
    var defaults = document.getElementById('radio-defaults-' + index);
    if (defaults) { initRadioForm(index, JSON.parse(defaults.textContent)); }
});

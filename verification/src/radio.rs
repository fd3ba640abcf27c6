//! The two radio modules: how they are tuned, and what may be sent as a test.
use crate::text::{cat2, cat3, decimal, decimal_text, to_chars, trim, trimmed};
use vstd::prelude::*;

verus! {

// ── Settings of a module ─────────────────────────────────────────────────────

/// The baseband acceleration of a module.
#[derive(Debug, Clone, Copy, PartialEq, Eq, Structural)]
pub enum Accelerator {
    /// On the chip.
    Native,
    /// In the FPGA.
    Hardware,
}

/// The antenna of a module.
#[derive(Debug, Clone, Copy, PartialEq, Eq, Structural)]
pub enum Antenna {
    Internal,
    External,
}

/// The band of a module.
#[derive(Debug, Clone, Copy, PartialEq, Eq, Structural)]
pub enum RadioBand {
    /// Below one gigahertz.
    Band09,
    /// Around 2.4 gigahertz.
    Band24,
}

/// The bandwidth filter of a module.
#[derive(Debug, Clone, Copy, PartialEq, Eq, Structural)]
pub enum BandwidthFilter {
    Narrow,
    Wide,
}

/// How a module is tuned.
#[derive(Debug, Clone, Copy, PartialEq, Eq, Structural)]
pub struct RadioConfig {
    pub freq_hz: u64,
    pub channel_spacing_hz: u64,
    pub channel: u16,
    pub bandwidth_filter: BandwidthFilter,
}

/// OFDM: coding scheme, bandwidth option, preamble detection threshold and power
/// in dBm.
#[derive(Debug, Clone, Copy, PartialEq, Eq, Structural)]
pub struct OfdmModulation {
    pub mcs: u8,
    pub opt: u8,
    pub pdt: u8,
    pub tx_power: u8,
}

/// QPSK: chip rate, rate mode and power in dBm.
#[derive(Debug, Clone, Copy, PartialEq, Eq, Structural)]
pub struct QpskModulation {
    pub fchip: u8,
    pub mode: u8,
    pub tx_power: u8,
}

/// The modulation of a module.
#[derive(Debug, Clone, Copy, PartialEq, Eq, Structural)]
pub enum Modulation {
    Off,
    Ofdm(OfdmModulation),
    Qpsk(QpskModulation),
    Fsk,
}

/// The settings of a module.
#[derive(Debug, Clone, Copy, PartialEq, Eq, Structural)]
pub struct RadioModuleConfig {
    pub radio_config: RadioConfig,
    pub modulation: Modulation,
    pub accelerator: Accelerator,
    /// The antenna for the 2.4 GHz band: below one gigahertz there is nothing
    /// to switch.
    pub antenna: Antenna,
}

/// The settings of both modules.
#[derive(Debug, Clone, Copy, PartialEq, Eq)]
pub struct HardwareRadioConfig {
    pub module_configs: [RadioModuleConfig; 2],
}

/// The acceleration of a module that has none set.
pub fn default_accelerator() -> (out: Accelerator)
    ensures
        out == Accelerator::Native,
{
    Accelerator::Native
}

/// The antenna of a module that has none set.
pub fn default_antenna() -> (out: Antenna)
    ensures
        out == Antenna::Internal,
{
    Antenna::Internal
}

/// The lowest frequency of the 2.4 GHz transceiver.
pub const BAND_24_MIN_HZ: u64 = 2_400_000_000;

/// The band of a frequency.
pub open spec fn band_of(freq_hz: u64) -> RadioBand {
    if freq_hz >= BAND_24_MIN_HZ {
        RadioBand::Band24
    } else {
        RadioBand::Band09
    }
}

/// The band that a module is tuned to.
pub fn band_for_config(radio_config: &RadioConfig) -> (out: RadioBand)
    ensures
        out == band_of(radio_config.freq_hz),
{
    if radio_config.freq_hz >= BAND_24_MIN_HZ {
        RadioBand::Band24
    } else {
        RadioBand::Band09
    }
}

impl RadioModuleConfig {
    /// The band that the module is tuned to.
    pub fn band(&self) -> (out: RadioBand)
        ensures
            out == band_of(self.radio_config.freq_hz),
    {
        band_for_config(&self.radio_config)
    }
}

/// The settings of a module that has none, on a channel, with the usual
/// bandwidth filter and the usual OFDM.
pub open spec fn default_module(
    channel: u16,
    bandwidth_filter: BandwidthFilter,
    ofdm: OfdmModulation,
) -> RadioModuleConfig {
    RadioModuleConfig {
        radio_config: RadioConfig {
            freq_hz: 869_535_000,
            channel_spacing_hz: 200_000,
            channel,
            bandwidth_filter,
        },
        modulation: Modulation::Ofdm(ofdm),
        accelerator: Accelerator::Native,
        antenna: Antenna::Internal,
    }
}

impl HardwareRadioConfig {
    /// The settings of modules that have none: the same frequency, on the
    /// channels 3 and 11. `filter` and `ofdm` are what the transceivers usually
    /// have.
    pub fn with_defaults(filter: BandwidthFilter, ofdm: OfdmModulation) -> (out:
        HardwareRadioConfig)
        ensures
            out.module_configs@ == seq![
                default_module(3, filter, ofdm),
                default_module(11, filter, ofdm),
            ],
    {
        let out = HardwareRadioConfig {
            module_configs: [usual_module(3, filter, ofdm), usual_module(11, filter, ofdm)],
        };
        assert(out.module_configs@ =~= seq![
            default_module(3, filter, ofdm),
            default_module(11, filter, ofdm),
        ]);
        out
    }

    /// The settings of the module with an index.
    pub fn module(&self, index: usize) -> (out: Option<RadioModuleConfig>)
        ensures
            out == (if index < 2 {
                Some(self.module_configs@[index as int])
            } else {
                None
            }),
    {
        if index < 2 {
            Some(self.module_configs[index])
        } else {
            None
        }
    }
}

/// The settings of a module that has none.
fn usual_module(
    channel: u16,
    bandwidth_filter: BandwidthFilter,
    ofdm: OfdmModulation,
) -> (out: RadioModuleConfig)
    ensures
        out == default_module(channel, bandwidth_filter, ofdm),
{
    RadioModuleConfig {
        radio_config: RadioConfig {
            freq_hz: 869_535_000,
            channel_spacing_hz: 200_000,
            channel,
            bandwidth_filter,
        },
        modulation: Modulation::Ofdm(ofdm),
        accelerator: default_accelerator(),
        antenna: default_antenna(),
    }
}

/// The settings of a module of which parts were stored: each part that could be
/// read, and the usual value for each of the others.
pub fn module_or_usual(
    radio_config: Option<RadioConfig>,
    modulation: Option<Modulation>,
    accelerator: Option<Accelerator>,
    antenna: Option<Antenna>,
    usual: RadioModuleConfig,
) -> (out: RadioModuleConfig)
    ensures
        out.radio_config == (match radio_config {
            Some(part) => part,
            None => usual.radio_config,
        }),
        out.modulation == (match modulation {
            Some(part) => part,
            None => usual.modulation,
        }),
        out.accelerator == (match accelerator {
            Some(part) => part,
            None => usual.accelerator,
        }),
        out.antenna == (match antenna {
            Some(part) => part,
            None => usual.antenna,
        }),
{
    RadioModuleConfig {
        radio_config: radio_config.unwrap_or(usual.radio_config),
        modulation: modulation.unwrap_or(usual.modulation),
        accelerator: accelerator.unwrap_or(usual.accelerator),
        antenna: antenna.unwrap_or(usual.antenna),
    }
}

/// A step of setting up a module.
#[derive(Debug, Clone, Copy, PartialEq, Eq, Structural)]
pub enum RadioStep {
    SetRadioConfig(RadioConfig),
    SetModulation(Modulation),
    SetAccelerator(Accelerator),
    SetAntenna(Antenna),
}

/// The steps of setting up a module: the antenna is set only on the 2.4 GHz
/// band.
pub open spec fn setup_of(cfg: RadioModuleConfig) -> Seq<RadioStep> {
    seq![
        RadioStep::SetRadioConfig(cfg.radio_config),
        RadioStep::SetModulation(cfg.modulation),
        RadioStep::SetAccelerator(cfg.accelerator),
    ] + if band_of(cfg.radio_config.freq_hz) == RadioBand::Band24 {
        seq![RadioStep::SetAntenna(cfg.antenna)]
    } else {
        Seq::empty()
    }
}

/// The steps of setting up a module, in order.
pub fn setup_steps(cfg: &RadioModuleConfig) -> (out: Vec<RadioStep>)
    ensures
        out@ == setup_of(*cfg),
{
    let mut out: Vec<RadioStep> = Vec::new();
    out.push(RadioStep::SetRadioConfig(cfg.radio_config));
    out.push(RadioStep::SetModulation(cfg.modulation));
    out.push(RadioStep::SetAccelerator(cfg.accelerator));
    if cfg.band() == RadioBand::Band24 {
        out.push(RadioStep::SetAntenna(cfg.antenna));
    }
    assert(out@ =~= setup_of(*cfg));
    out
}

/// The answer to a request to tune a module: an HTTP status, and the steps that
/// are tried before it is given. What comes of a step changes neither the status
/// nor the steps after it.
#[derive(Debug)]
pub struct RadioPut {
    pub status: u16,
    pub steps: Vec<RadioStep>,
}

/// The status of a request to tune a module: it is granted once the settings are
/// saved.
pub open spec fn put_status(saved: bool) -> u16 {
    if saved {
        204
    } else {
        500
    }
}

/// The steps of a request to tune a module: none where the settings could not be
/// saved or there is no transceiver, and otherwise all of them.
pub open spec fn put_steps(cfg: RadioModuleConfig, saved: bool, has_radio: bool) -> Seq<RadioStep> {
    if saved && has_radio {
        setup_of(cfg)
    } else {
        Seq::empty()
    }
}

/// Answers a request to tune a module whose settings were `saved` or not.
pub fn put_radio(cfg: &RadioModuleConfig, saved: bool, has_radio: bool) -> (out: RadioPut)
    ensures
        out.status == put_status(saved),
        out.steps@ == put_steps(*cfg, saved, has_radio),
{
    if !saved {
        return RadioPut { status: 500, steps: Vec::new() };
    }
    let steps = if has_radio {
        setup_steps(cfg)
    } else {
        Vec::new()
    };
    RadioPut { status: 204, steps }
}

/// What comes next where a module is set up and the first step that fails ends
/// it.
#[derive(Debug)]
pub enum SetupMove {
    /// Do a step.
    Apply(RadioStep),
    /// All steps are done.
    Done,
    /// A step failed: which one, and why.
    Fail(String),
}

/// What a step is called where it fails.
pub open spec fn step_name(step: RadioStep) -> Seq<char> {
    match step {
        RadioStep::SetRadioConfig(_) => "set_radio_config"@,
        RadioStep::SetModulation(_) => "set_modulation"@,
        RadioStep::SetAccelerator(_) => "set_accelerator"@,
        RadioStep::SetAntenna(_) => "set_antenna"@,
    }
}

/// What comes next where a module is set up, after so many steps are done.
/// `failure` says why the step after them failed, if it was tried.
pub fn save_radio_module(cfg: &RadioModuleConfig, done: usize, failure: Option<String>) -> (out:
    SetupMove)
    ensures
        ({
            let steps = setup_of(*cfg);
            if done >= steps.len() {
                out is Done
            } else {
                match failure {
                    None => out == SetupMove::Apply(steps[done as int]),
                    Some(err) => out matches SetupMove::Fail(message) && message@ == step_name(
                        steps[done as int],
                    ) + ": "@ + err@,
                }
            }
        }),
{
    let steps = setup_steps(cfg);
    if done >= steps.len() {
        return SetupMove::Done;
    }
    match failure {
        None => SetupMove::Apply(steps[done]),
        Some(err) => {
            let name = match steps[done] {
                RadioStep::SetRadioConfig(_) => "set_radio_config",
                RadioStep::SetModulation(_) => "set_modulation",
                RadioStep::SetAccelerator(_) => "set_accelerator",
                RadioStep::SetAntenna(_) => "set_antenna",
            };
            SetupMove::Fail(cat3(name, ": ", err.as_str()))
        },
    }
}

/// What a module is called on the pages.
pub open spec fn label_of(index: usize) -> Seq<char> {
    if index == 0 {
        "Radio A"@
    } else if index == 1 {
        "Radio B"@
    } else {
        "Radio"@
    }
}

/// What a module is called on the pages.
pub fn radio_label(index: usize) -> (out: &'static str)
    ensures
        out@ == label_of(index),
{
    if index == 0 {
        "Radio A"
    } else if index == 1 {
        "Radio B"
    } else {
        "Radio"
    }
}

// ── Test frames ──────────────────────────────────────────────────────────────

/// The longest test message.
pub const MAX_TEST_LEN: usize = 2047;

/// The longest test frame, where a frame has room for `frame_size` bytes.
pub open spec fn longest_test(frame_size: usize) -> usize {
    if frame_size < MAX_TEST_LEN {
        frame_size
    } else {
        MAX_TEST_LEN
    }
}

/// Why a test frame is not sent, if it is not.
pub open spec fn test_frame_refusal(
    module: usize,
    len: nat,
    frame_size: usize,
    has_backend: bool,
) -> Option<Seq<char>> {
    if module > 1 {
        Some("radio module "@ + decimal(module as nat) + " not found"@)
    } else if len == 0 {
        Some("message is required"@)
    } else if len > longest_test(frame_size) {
        Some("message exceeds "@ + decimal(longest_test(frame_size) as nat) + " bytes"@)
    } else if !has_backend {
        Some("radio backend unavailable"@)
    } else {
        None
    }
}

/// Accepts a test frame that can be sent.
pub fn check_test_frame(
    module: usize,
    payload: &[u8],
    frame_size: usize,
    has_backend: bool,
) -> (out: Result<(), String>)
    ensures
        match test_frame_refusal(module, payload@.len(), frame_size, has_backend) {
            Some(reason) => out matches Err(err) && err@ == reason,
            None => out is Ok,
        },
{
    if module > 1 {
        let number = decimal_text(module as u64);
        return Err(cat3("radio module ", number.as_str(), " not found"));
    }
    if payload.len() == 0 {
        return Err("message is required".to_owned());
    }
    let max: usize = if frame_size < MAX_TEST_LEN {
        frame_size
    } else {
        MAX_TEST_LEN
    };
    if payload.len() > max {
        let number = decimal_text(max as u64);
        return Err(cat3("message exceeds ", number.as_str(), " bytes"));
    }
    if !has_backend {
        return Err("radio backend unavailable".to_owned());
    }
    Ok(())
}

/// A refusal of a request to a radio module: an HTTP status and a reason.
#[derive(Debug)]
pub struct RadioRefusal {
    pub status: u16,
    pub reason: String,
}

/// What a request to send a test message gives: the message without white space
/// around it, or a refusal.
pub open spec fn test_message_of(module: usize, message: Seq<char>) -> Result<
    Seq<char>,
    (u16, Seq<char>),
> {
    if module > 1 {
        Err((404, "radio module "@ + decimal(module as nat) + " not found"@))
    } else if trim(message).len() == 0 {
        Err((400, "message is required"@))
    } else if trim(message).len() > MAX_TEST_LEN {
        Err((400, "message exceeds 2047 characters"@))
    } else {
        Ok(trim(message))
    }
}

/// The message of a request to send a test message.
pub fn check_test_message(module: usize, message: &str) -> (out: Result<String, RadioRefusal>)
    ensures
        match (out, test_message_of(module, message@)) {
            (Ok(text), Ok(wanted)) => text@ == wanted,
            (Err(refusal), Err((status, reason))) => refusal.status == status
                && refusal.reason@ == reason,
            _ => false,
        },
{
    if module > 1 {
        let number = decimal_text(module as u64);
        return Err(
            RadioRefusal {
                status: 404,
                reason: cat3("radio module ", number.as_str(), " not found"),
            },
        );
    }
    let text = trimmed(message);
    if text.as_str().is_empty() {
        return Err(RadioRefusal { status: 400, reason: "message is required".to_owned() });
    }
    let cs = to_chars(text.as_str());
    if cs.len() > MAX_TEST_LEN {
        return Err(
            RadioRefusal { status: 400, reason: "message exceeds 2047 characters".to_owned() },
        );
    }
    Ok(text)
}

/// The answer to a test message that was sent.
pub fn test_sent_message(module: usize) -> (out: String)
    ensures
        out@ == "Sent test frame on "@ + (if module == 0 {
            "Radio A"@
        } else {
            "Radio B"@
        }),
{
    if module == 0 {
        cat2("Sent test frame on ", "Radio A")
    } else {
        cat2("Sent test frame on ", "Radio B")
    }
}

// ── Laws ─────────────────────────────────────────────────────────────────────

/// A request to tune a module is granted if and only if the settings were saved;
/// then a transceiver is tuned, set to its modulation and accelerated in this
/// order, and otherwise it is left alone. Its antenna is set last, and only at
/// 2.4 GHz.
pub proof fn saved_modules_are_granted(cfg: RadioModuleConfig, saved: bool, has_radio: bool)
    ensures
        put_status(saved) == 204 <==> saved,
        put_status(saved) == 500 <==> !saved,
        !saved || !has_radio ==> put_steps(cfg, saved, has_radio).len() == 0,
        saved && has_radio ==> {
            let steps = put_steps(cfg, saved, has_radio);
            &&& 3 <= steps.len() <= 4
            &&& steps[0] == RadioStep::SetRadioConfig(cfg.radio_config)
            &&& steps[1] == RadioStep::SetModulation(cfg.modulation)
            &&& steps[2] == RadioStep::SetAccelerator(cfg.accelerator)
            &&& steps.len() == 4 <==> cfg.radio_config.freq_hz >= BAND_24_MIN_HZ
            &&& steps.len() == 4 ==> steps[3] == RadioStep::SetAntenna(cfg.antenna)
        },
{
}

/// The antenna of a module is set if and only if it is tuned to 2.4 GHz.
pub proof fn only_band_24_sets_the_antenna(cfg: RadioModuleConfig)
    ensures
        (exists|i: int|
            0 <= i < setup_of(cfg).len() && (#[trigger] setup_of(cfg)[i]) is SetAntenna)
            <==> cfg.radio_config.freq_hz >= BAND_24_MIN_HZ,
{
    if band_of(cfg.radio_config.freq_hz) == RadioBand::Band24 {
        assert(setup_of(cfg)[3] is SetAntenna);
    }
}

/// The bands meet at 2.4 gigahertz.
pub proof fn bands_meet_at_their_border(freq_hz: u64)
    ensures
        band_of(freq_hz) == RadioBand::Band24 <==> freq_hz >= 2_400_000_000,
        band_of(freq_hz) == RadioBand::Band09 <==> freq_hz < 2_400_000_000,
{
}

/// A module begins on its own channel and otherwise as the other one does: in the
/// band below one gigahertz, with OFDM, on the chip and with the antenna inside.
pub proof fn modules_begin_on_their_channel(
    channel: u16,
    filter: BandwidthFilter,
    ofdm: OfdmModulation,
)
    ensures
        ({
            let module = default_module(channel, filter, ofdm);
            &&& module.radio_config.channel == channel
            &&& module.radio_config.freq_hz == 869_535_000
            &&& module.radio_config.channel_spacing_hz == 200_000
            &&& module.radio_config.bandwidth_filter == filter
            &&& band_of(module.radio_config.freq_hz) == RadioBand::Band09
            &&& module.modulation == Modulation::Ofdm(ofdm)
            &&& module.accelerator == Accelerator::Native
            &&& module.antenna == Antenna::Internal
        }),
{
}

/// A test frame is sent if and only if its module exists, it is not empty, it fits
/// in a frame and in 2047 bytes, and there is a radio.
pub proof fn fitting_test_frames_are_sent(
    module: usize,
    len: nat,
    frame_size: usize,
    has_backend: bool,
)
    ensures
        test_frame_refusal(module, len, frame_size, has_backend) is None <==> module < 2 && 0 < len
            <= 2047 && len <= frame_size && has_backend,
        module < 2 && len > 0 && len > 2047 && frame_size >= 2047 ==> test_frame_refusal(
            module,
            len,
            frame_size,
            has_backend,
        ) == Some("message exceeds "@ + decimal(2047) + " bytes"@),
        module < 2 && len > frame_size && 0 < frame_size <= 2047 ==> test_frame_refusal(
            module,
            len,
            frame_size,
            has_backend,
        ) == Some("message exceeds "@ + decimal(frame_size as nat) + " bytes"@),
{
}

/// A test message is sent without the space round it if and only if its module
/// exists and 1 to 2047 characters are left; no such module is told apart from a
/// wrong message.
pub proof fn fitting_test_messages_are_sent(module: usize, message: Seq<char>)
    ensures
        module < 2 && 0 < trim(message).len() <= 2047 ==> test_message_of(module, message) == Ok::<
            Seq<char>,
            (u16, Seq<char>),
        >(trim(message)),
        module >= 2 ==> (test_message_of(module, message) matches Err((status, _)) && status
            == 404),
        module < 2 && (trim(message).len() == 0 || trim(message).len() > 2047) ==> (
        test_message_of(module, message) matches Err((status, _)) && status == 400),
{
}

/// The steps of a setup, and the modules, have names of their own.
pub proof fn steps_and_modules_have_names_of_their_own(a: RadioStep, b: RadioStep)
    ensures
        step_name(a) == step_name(b) ==> (a is SetRadioConfig <==> b is SetRadioConfig) && (
        a is SetModulation <==> b is SetModulation) && (a is SetAccelerator
            <==> b is SetAccelerator) && (a is SetAntenna <==> b is SetAntenna),
        label_of(0) == "Radio A"@,
        label_of(1) == "Radio B"@,
        label_of(0) != label_of(1),
        forall|k: usize| k > 1 ==> #[trigger] label_of(k) != label_of(0) && label_of(k)
            != label_of(1),
{
    reveal_strlit("set_radio_config");
    reveal_strlit("set_modulation");
    reveal_strlit("set_accelerator");
    reveal_strlit("set_antenna");
    reveal_strlit("Radio A");
    reveal_strlit("Radio B");
    reveal_strlit("Radio");
    assert("set_radio_config"@.len() == 16);
    assert("set_modulation"@.len() == 14);
    assert("set_accelerator"@.len() == 15);
    assert("set_antenna"@.len() == 11);
    assert("Radio A"@[6] == 'A');
    assert("Radio B"@[6] == 'B');
    assert("Radio"@.len() == 5);
}

} // verus!

//! What the form of a radio module shows.
use crate::radio::{
    label_of, radio_label, Accelerator, Antenna, Modulation, OfdmModulation, QpskModulation,
    RadioModuleConfig,
};
use crate::text::{cat2, decimal, decimal_text};
use vstd::prelude::*;

verus! {

/// The name of a modulation.
pub open spec fn modulation_word(modulation: Modulation) -> Seq<char> {
    match modulation {
        Modulation::Off => "Off"@,
        Modulation::Ofdm(_) => "OFDM"@,
        Modulation::Qpsk(_) => "QPSK"@,
        Modulation::Fsk => "FSK"@,
    }
}

/// The name of an acceleration.
pub open spec fn accelerator_word(accelerator: Accelerator) -> Seq<char> {
    match accelerator {
        Accelerator::Native => "Native"@,
        Accelerator::Hardware => "Hardware"@,
    }
}

/// The name of an antenna.
pub open spec fn antenna_word(antenna: Antenna) -> Seq<char> {
    match antenna {
        Antenna::Internal => "Internal"@,
        Antenna::External => "External"@,
    }
}

/// The values that the form of a module shows.
#[derive(Debug)]
pub struct RadioForm {
    pub label: &'static str,
    pub channel: String,
    pub modulation: &'static str,
    pub accelerator: &'static str,
    pub antenna: &'static str,
    /// What the fields for OFDM show, whatever the modulation is.
    pub ofdm: OfdmModulation,
    /// What the fields for QPSK show, whatever the modulation is.
    pub qpsk: QpskModulation,
}

/// The values that the form of a module shows. The fields of a modulation that
/// the module does not use show `ofdm` or `qpsk`.
pub fn radio_form(
    index: usize,
    module: &RadioModuleConfig,
    ofdm: OfdmModulation,
    qpsk: QpskModulation,
) -> (out: RadioForm)
    ensures
        out.label@ == label_of(index),
        out.channel@ == decimal(module.radio_config.channel as nat),
        out.modulation@ == modulation_word(module.modulation),
        out.accelerator@ == accelerator_word(module.accelerator),
        out.antenna@ == antenna_word(module.antenna),
        out.ofdm == (match module.modulation {
            Modulation::Ofdm(own) => own,
            _ => ofdm,
        }),
        out.qpsk == (match module.modulation {
            Modulation::Qpsk(own) => own,
            _ => qpsk,
        }),
{
    RadioForm {
        label: radio_label(index),
        channel: decimal_text(module.radio_config.channel as u64),
        modulation: match module.modulation {
            Modulation::Off => "Off",
            Modulation::Ofdm(_) => "OFDM",
            Modulation::Qpsk(_) => "QPSK",
            Modulation::Fsk => "FSK",
        },
        accelerator: match module.accelerator {
            Accelerator::Native => "Native",
            Accelerator::Hardware => "Hardware",
        },
        antenna: match module.antenna {
            Antenna::Internal => "Internal",
            Antenna::External => "External",
        },
        ofdm: match module.modulation {
            Modulation::Ofdm(own) => own,
            _ => ofdm,
        },
        qpsk: match module.modulation {
            Modulation::Qpsk(own) => own,
            _ => qpsk,
        },
    }
}

/// The power above which a slider warns, in dBm.
pub const HIGH_POWER: u8 = 21;

/// How a slider for the power shows its value.
#[derive(Debug)]
pub struct PowerMark {
    pub style: &'static str,
    pub class: &'static str,
    pub text: String,
}

/// How a slider for the power shows its value.
pub fn power_mark(tx_power: u8) -> (out: PowerMark)
    ensures
        out.style@ == (if tx_power > HIGH_POWER {
            "accent-color:#f97316"@
        } else {
            ""@
        }),
        out.class@ == (if tx_power > HIGH_POWER {
            "tx-value tx-high"@
        } else {
            "tx-value"@
        }),
        out.text@ == decimal(tx_power as nat) + " dBm"@,
{
    let number = decimal_text(tx_power as u64);
    let text = cat2(number.as_str(), " dBm");
    if tx_power > HIGH_POWER {
        PowerMark { style: "accent-color:#f97316", class: "tx-value tx-high", text }
    } else {
        PowerMark { style: "", class: "tx-value", text }
    }
}

// ── Laws ─────────────────────────────────────────────────────────────────────

/// What a form shows tells the choices of a module apart.
pub proof fn shown_choices_differ(
    a: Modulation,
    b: Modulation,
    c: Accelerator,
    d: Accelerator,
    e: Antenna,
    f: Antenna,
)
    ensures
        modulation_word(a) == modulation_word(b) ==> (a is Off <==> b is Off) && (a is Ofdm
            <==> b is Ofdm) && (a is Qpsk <==> b is Qpsk) && (a is Fsk <==> b is Fsk),
        accelerator_word(c) == accelerator_word(d) <==> c == d,
        antenna_word(e) == antenna_word(f) <==> e == f,
{
    reveal_strlit("Off");
    reveal_strlit("OFDM");
    reveal_strlit("QPSK");
    reveal_strlit("FSK");
    reveal_strlit("Native");
    reveal_strlit("Hardware");
    reveal_strlit("Internal");
    reveal_strlit("External");
    assert("Off"@.len() == 3);
    assert("OFDM"@.len() == 4);
    assert("FSK"@[0] == 'F' && "Off"@[0] == 'O');
    assert("QPSK"@[0] == 'Q' && "OFDM"@[0] == 'O');
    assert("Native"@[0] == 'N' && "Hardware"@[0] == 'H');
    assert("Internal"@[0] == 'I' && "External"@[0] == 'E');
}

} // verus!

//! How packets pass between the mesh and the radio.
use crate::reticulum::InterfaceErrorKind;
use crate::text::{cat2, cat4, decimal, decimal_text};
use vstd::prelude::*;

verus! {

// ── Receiving ────────────────────────────────────────────────────────────────

/// What happened on the way from the radio to the mesh.
#[derive(Debug, Clone, Copy, PartialEq, Eq, Structural)]
pub enum RxEvent {
    /// A module of the radio received a frame.
    Frame { module: usize },
    /// The decoder took the frame, or refused it.
    Decoded { ok: bool },
    /// A packet is complete; it can be read, or not.
    Assembled { readable: bool },
    /// No packet is complete.
    TryAgain,
    /// The parts of a packet do not go together.
    Broken,
}

/// What is done next on the way from the radio to the mesh.
#[derive(Debug, Clone, Copy, PartialEq, Eq, Structural)]
pub enum RxNext {
    /// Wait for a frame.
    Wait,
    /// Hand the frame to the decoder.
    Decode,
    /// Ask for a complete packet.
    Assemble,
}

/// What is done about an event on the way from the radio to the mesh.
#[derive(Debug, Clone, Copy, PartialEq, Eq, Structural)]
pub struct RxDecision {
    /// The error to report, if there is one.
    pub error: Option<InterfaceErrorKind>,
    /// Whether the packet is delivered to the mesh.
    pub deliver: bool,
    pub next: RxNext,
}

/// What the interface of a module does about an event.
pub open spec fn rx_decision(module: usize, event: RxEvent) -> RxDecision {
    match event {
        RxEvent::Frame { module: from } => RxDecision {
            error: None,
            deliver: false,
            next: if from == module {
                RxNext::Decode
            } else {
                RxNext::Wait
            },
        },
        RxEvent::Decoded { ok: true } => RxDecision {
            error: None,
            deliver: false,
            next: RxNext::Assemble,
        },
        RxEvent::Decoded { ok: false } => RxDecision {
            error: Some(InterfaceErrorKind::RxLdpcDecode),
            deliver: false,
            next: RxNext::Wait,
        },
        RxEvent::Assembled { readable: true } => RxDecision {
            error: None,
            deliver: true,
            next: RxNext::Assemble,
        },
        RxEvent::Assembled { readable: false } => RxDecision {
            error: Some(InterfaceErrorKind::RxDeserialize),
            deliver: false,
            next: RxNext::Assemble,
        },
        RxEvent::TryAgain => RxDecision { error: None, deliver: false, next: RxNext::Wait },
        RxEvent::Broken => RxDecision {
            error: Some(InterfaceErrorKind::RxReassembly),
            deliver: false,
            next: RxNext::Wait,
        },
    }
}

/// What the interface of a module does about an event on the way from the radio
/// to the mesh.
pub fn receive_event(module: usize, event: RxEvent) -> (out: RxDecision)
    ensures
        out == rx_decision(module, event),
{
    match event {
        RxEvent::Frame { module: from } => {
            if from == module {
                RxDecision { error: None, deliver: false, next: RxNext::Decode }
            } else {
                RxDecision { error: None, deliver: false, next: RxNext::Wait }
            }
        },
        RxEvent::Decoded { ok } => {
            if ok {
                RxDecision { error: None, deliver: false, next: RxNext::Assemble }
            } else {
                RxDecision {
                    error: Some(InterfaceErrorKind::RxLdpcDecode),
                    deliver: false,
                    next: RxNext::Wait,
                }
            }
        },
        RxEvent::Assembled { readable } => {
            if readable {
                RxDecision { error: None, deliver: true, next: RxNext::Assemble }
            } else {
                RxDecision {
                    error: Some(InterfaceErrorKind::RxDeserialize),
                    deliver: false,
                    next: RxNext::Assemble,
                }
            }
        },
        RxEvent::TryAgain => RxDecision { error: None, deliver: false, next: RxNext::Wait },
        RxEvent::Broken => RxDecision {
            error: Some(InterfaceErrorKind::RxReassembly),
            deliver: false,
            next: RxNext::Wait,
        },
    }
}

// ── Sending ──────────────────────────────────────────────────────────────────

/// What happened on the way from the mesh to the radio.
#[derive(Debug, Clone, Copy, PartialEq, Eq, Structural)]
pub enum TxEvent {
    /// A packet was written as bytes, or could not be.
    Serialized { ok: bool },
    /// The bytes were coded as some frames, or could not be.
    Encoded { frames: Option<usize> },
    /// One of the frames was sent, or could not be.
    Sent { index: usize, frames: usize, ok: bool },
}

/// What is done next on the way from the mesh to the radio.
#[derive(Debug, Clone, Copy, PartialEq, Eq, Structural)]
pub enum TxNext {
    /// Code the bytes as frames.
    Encode,
    /// Send the frame with an index.
    Send(usize),
    /// Let other tasks run, then wait for a packet.
    Yield,
    /// Wait for a packet.
    Wait,
}

/// What is done about an event on the way from the mesh to the radio.
#[derive(Debug, Clone, Copy, PartialEq, Eq, Structural)]
pub struct TxDecision {
    /// The error to report, if there is one.
    pub error: Option<InterfaceErrorKind>,
    /// Whether the frame that was sent is shown to the observer.
    pub observe: bool,
    pub next: TxNext,
}

/// The frame to send after some have been sent, if there is one.
pub open spec fn frame_after(sent: int, frames: usize) -> TxNext {
    if sent < frames {
        TxNext::Send(sent as usize)
    } else {
        TxNext::Yield
    }
}

/// What is done about an event on the way from the mesh to the radio.
pub open spec fn tx_decision(event: TxEvent) -> TxDecision {
    match event {
        TxEvent::Serialized { ok: true } => TxDecision {
            error: None,
            observe: false,
            next: TxNext::Encode,
        },
        TxEvent::Serialized { ok: false } => TxDecision {
            error: Some(InterfaceErrorKind::TxSerialize),
            observe: false,
            next: TxNext::Yield,
        },
        TxEvent::Encoded { frames: Some(frames) } => TxDecision {
            error: None,
            observe: false,
            next: frame_after(0, frames),
        },
        TxEvent::Encoded { frames: None } => TxDecision {
            error: Some(InterfaceErrorKind::TxLdpcEncode),
            observe: false,
            next: TxNext::Yield,
        },
        TxEvent::Sent { index, frames, ok: true } => TxDecision {
            error: None,
            observe: true,
            next: frame_after(index + 1, frames),
        },
        TxEvent::Sent { ok: false, .. } => TxDecision {
            error: Some(InterfaceErrorKind::TxTransmit),
            observe: false,
            next: TxNext::Wait,
        },
    }
}

/// What is done about an event on the way from the mesh to the radio.
pub fn transmit_event(event: TxEvent) -> (out: TxDecision)
    ensures
        out == tx_decision(event),
{
    match event {
        TxEvent::Serialized { ok } => {
            if ok {
                TxDecision { error: None, observe: false, next: TxNext::Encode }
            } else {
                TxDecision {
                    error: Some(InterfaceErrorKind::TxSerialize),
                    observe: false,
                    next: TxNext::Yield,
                }
            }
        },
        TxEvent::Encoded { frames } => match frames {
            Some(frames) => {
                let next = if 0 < frames {
                    TxNext::Send(0)
                } else {
                    TxNext::Yield
                };
                TxDecision { error: None, observe: false, next }
            },
            None => TxDecision {
                error: Some(InterfaceErrorKind::TxLdpcEncode),
                observe: false,
                next: TxNext::Yield,
            },
        },
        TxEvent::Sent { index, frames, ok } => {
            if ok {
                let next = if index < frames && index + 1 < frames {
                    TxNext::Send(index + 1)
                } else {
                    TxNext::Yield
                };
                TxDecision { error: None, observe: true, next }
            } else {
                TxDecision {
                    error: Some(InterfaceErrorKind::TxTransmit),
                    observe: false,
                    next: TxNext::Wait,
                }
            }
        },
    }
}

/// A packet in a few words, from the names of its type and its context, its
/// destination and its length.
pub fn packet_log_summary(kind: &str, context: &str, destination: &str, len: usize) -> (out: String)
    ensures
        out@ == "type="@ + kind@ + " ctx="@ + context@ + (" dst="@ + destination@ + " len="@
            + decimal(len as nat)),
{
    let head = cat4("type=", kind, " ctx=", context);
    let number = decimal_text(len as u64);
    let tail = cat4(" dst=", destination, " len=", number.as_str());
    cat2(head.as_str(), tail.as_str())
}

// ── Laws ─────────────────────────────────────────────────────────────────────

/// The frames that the observer sees of a packet, where sending goes on with
/// the frame `index`. `sent` says which frames can be sent.
pub open spec fn observed(sent: Seq<bool>, index: int) -> Seq<int>
    decreases sent.len() - index,
{
    if 0 <= index < sent.len() <= usize::MAX {
        let decision = tx_decision(
            TxEvent::Sent {
                index: index as usize,
                frames: sent.len() as usize,
                ok: sent[index],
            },
        );
        let seen = if decision.observe {
            seq![index]
        } else {
            Seq::empty()
        };
        match decision.next {
            TxNext::Send(next) => if next > index {
                seen + observed(sent, next as int)
            } else {
                seen
            },
            _ => seen,
        }
    } else {
        Seq::empty()
    }
}

/// How many of some frames can be sent before the first that cannot.
pub open spec fn sent_first(sent: Seq<bool>, index: int) -> int
    decreases sent.len() - index,
{
    if 0 <= index < sent.len() && sent[index] {
        1 + sent_first(sent, index + 1)
    } else {
        0
    }
}

/// The observer sees the frames of a packet in order, each once, up to the first
/// that cannot be sent.
pub proof fn frames_are_seen_in_order(sent: Seq<bool>, index: int)
    requires
        sent.len() <= usize::MAX,
        0 <= index <= sent.len(),
    ensures
        observed(sent, index) == Seq::new(
            sent_first(sent, index) as nat,
            |k: int| index + k,
        ),
    decreases sent.len() - index,
{
    if index < sent.len() && sent[index] {
        lemma_sent_first(sent, index + 1);
        frames_are_seen_in_order(sent, index + 1);
        let wanted = Seq::new(sent_first(sent, index) as nat, |k: int| index + k);
        let rest = Seq::new(sent_first(sent, index + 1) as nat, |k: int| index + 1 + k);
        assert(seq![index] + rest =~= wanted);
        if index + 1 < sent.len() {
            assert(observed(sent, index) == seq![index] + observed(sent, index + 1));
        } else {
            assert(observed(sent, index) =~= seq![index]);
            assert(rest =~= Seq::<int>::empty());
        }
    } else {
        assert(observed(sent, index) =~= Seq::<int>::empty());
    }
}

/// The number of frames that can be sent first is no negative number.
proof fn lemma_sent_first(sent: Seq<bool>, index: int)
    ensures
        sent_first(sent, index) >= 0,
    decreases sent.len() - index,
{
    if 0 <= index < sent.len() && sent[index] {
        lemma_sent_first(sent, index + 1);
    }
}

/// Nothing that is received is lost without a report: a packet that is complete
/// is delivered, or an error is reported, and never both.
pub proof fn packets_are_delivered_or_reported(module: usize, readable: bool)
    ensures
        ({
            let decision = rx_decision(module, RxEvent::Assembled { readable });
            decision.deliver <==> decision.error is None
        }),
{
}

/// Only frames of its own module are read, and a frame that was read is asked for
/// packets until none is complete.
pub proof fn frames_are_read_to_the_end(module: usize, from: usize)
    ensures
        rx_decision(module, RxEvent::Frame { module: from }).next is Decode <==> from == module,
        rx_decision(module, RxEvent::Decoded { ok: true }).next is Assemble,
        rx_decision(module, RxEvent::Assembled { readable: true }).next is Assemble,
        rx_decision(module, RxEvent::Assembled { readable: false }).next is Assemble,
        rx_decision(module, RxEvent::TryAgain).next is Wait,
        rx_decision(module, RxEvent::Broken).next is Wait,
        rx_decision(module, RxEvent::Decoded { ok: false }).next is Wait,
{
}

/// What goes wrong while receiving is reported, each under its own name, and
/// nothing else is; only packets that can be read are delivered.
pub proof fn receiving_reports_what_goes_wrong(module: usize, event: RxEvent)
    ensures
        ({
            let error = rx_decision(module, event).error;
            &&& error == Some(InterfaceErrorKind::RxLdpcDecode) <==> event
                == (RxEvent::Decoded { ok: false })
            &&& error == Some(InterfaceErrorKind::RxDeserialize) <==> event
                == (RxEvent::Assembled { readable: false })
            &&& error == Some(InterfaceErrorKind::RxReassembly) <==> event == RxEvent::Broken
            &&& error is Some ==> !rx_decision(module, event).deliver
            &&& rx_decision(module, event).deliver <==> event
                == (RxEvent::Assembled { readable: true })
            &&& error != Some(InterfaceErrorKind::TxSerialize)
            &&& error != Some(InterfaceErrorKind::TxLdpcEncode)
            &&& error != Some(InterfaceErrorKind::TxTransmit)
        }),
{
}

/// What goes wrong while sending is reported, each under its own name, and nothing
/// else is; only frames that were sent are shown to the observer.
pub proof fn sending_reports_what_goes_wrong(event: TxEvent)
    ensures
        ({
            let error = tx_decision(event).error;
            &&& error == Some(InterfaceErrorKind::TxSerialize) <==> event
                == (TxEvent::Serialized { ok: false })
            &&& error == Some(InterfaceErrorKind::TxLdpcEncode) <==> event
                == (TxEvent::Encoded { frames: None })
            &&& error == Some(InterfaceErrorKind::TxTransmit) <==> (
            event matches TxEvent::Sent { ok, .. } && !ok)
            &&& tx_decision(event).observe <==> (event matches TxEvent::Sent { ok, .. } && ok)
            &&& error != Some(InterfaceErrorKind::RxLdpcDecode)
            &&& error != Some(InterfaceErrorKind::RxReassembly)
            &&& error != Some(InterfaceErrorKind::RxDeserialize)
        }),
{
}

/// The frames of a packet are sent one after the other, from the first to the last,
/// and the first that fails is the last that is tried.
pub proof fn frames_are_sent_one_after_the_other(index: usize, frames: usize, ok: bool)
    requires
        index < frames,
    ensures
        tx_decision(TxEvent::Serialized { ok: true }).next == TxNext::Encode,
        tx_decision(TxEvent::Encoded { frames: Some(frames) }).next == TxNext::Send(0),
        tx_decision(TxEvent::Encoded { frames: Some(0usize) }).next == TxNext::Yield,
        ({
            let next = tx_decision(TxEvent::Sent { index, frames, ok }).next;
            &&& ok && index + 1 < frames ==> next == TxNext::Send((index + 1) as usize)
            &&& ok && index + 1 == frames ==> next == TxNext::Yield
            &&& !ok ==> next == TxNext::Wait
        }),
{
}

} // verus!

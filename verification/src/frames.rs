//! The frames that a radio module received and sent lately.
use crate::digest::{crc32, frame_crc32, hex_word};
use crate::dto::{FrameStatsDto, FrameView, RxFrameDto};
use crate::order::viewed;
use crate::reticulum::first_of;
use crate::text::{digit, hex_byte, hex_byte_text, join, joined, views};
use vstd::prelude::*;

verus! {

// ── Previews ─────────────────────────────────────────────────────────────────

/// The first bytes of a frame in hexadecimal.
pub open spec fn hex_words(data: Seq<u8>, n: int) -> Seq<Seq<char>> {
    first_of(data, n).map_values(|b: u8| hex_byte(b))
}

/// The first bytes of a frame in hexadecimal, at most `n`.
fn first_hex_words(data: &[u8], n: usize) -> (out: Vec<String>)
    ensures
        views(out@) == hex_words(data@, n as int),
{
    let ghost wanted = hex_words(data@, n as int);
    let mut out: Vec<String> = Vec::new();
    let mut i: usize = 0;
    assert(views(out@) =~= wanted.take(0));
    while i < data.len() && i < n
        invariant
            i <= data@.len(),
            i <= n,
            wanted == hex_words(data@, n as int),
            views(out@) == wanted.take(i as int),
        decreases data@.len() - i,
    {
        let ghost before = views(out@);
        let word = hex_byte_text(data[i]);
        out.push(word);
        proof {
            assert(first_of(data@, n as int)[i as int] == data@[i as int]);
            assert(views(out@) =~= before.push(word@));
            assert(wanted.take(i + 1) =~= before.push(wanted[i as int]));
        }
        i += 1;
    }
    assert(wanted.take(i as int) =~= wanted);
    out
}

/// The first sixteen bytes of a frame in hexadecimal, with blanks between.
pub fn frame_preview(data: &[u8]) -> (out: String)
    ensures
        out@ == join(hex_words(data@, 16), " "@),
{
    let words = first_hex_words(data, 16);
    joined(&words, " ")
}

/// The first twelve bytes of a frame in hexadecimal, in one row.
pub fn compact_preview(data: &[u8]) -> (out: String)
    ensures
        out@ == join(hex_words(data@, 12), ""@),
{
    let words = first_hex_words(data, 12);
    joined(&words, "")
}

/// A byte as a character: itself where it can be printed, else a dot.
pub open spec fn printable(b: u8) -> char {
    if 0x20 <= b <= 0x7e {
        b as char
    } else {
        '.'
    }
}

/// The first bytes of a frame as characters.
pub open spec fn ascii_of(data: Seq<u8>) -> Seq<char> {
    first_of(data, 16).map_values(|b: u8| printable(b))
}

/// The first sixteen bytes of a frame as characters.
pub fn frame_ascii_preview(data: &[u8]) -> (out: String)
    ensures
        out@ == ascii_of(data@),
{
    let ghost wanted = ascii_of(data@);
    let mut out = String::new();
    let mut i: usize = 0;
    assert(out@ =~= wanted.take(0));
    while i < data.len() && i < 16
        invariant
            i <= data@.len(),
            i <= 16,
            wanted == ascii_of(data@),
            out@ == wanted.take(i as int),
        decreases data@.len() - i,
    {
        let ghost before = out@;
        let b = data[i];
        let c: char = if 0x20 <= b && b <= 0x7e {
            b as char
        } else {
            '.'
        };
        out.push(c);
        proof {
            assert(first_of(data@, 16)[i as int] == b);
            assert(out@ =~= before.push(c));
            assert(wanted.take(i + 1) =~= before.push(wanted[i as int]));
        }
        i += 1;
    }
    assert(wanted.take(i as int) =~= wanted);
    out
}

// ── Records ──────────────────────────────────────────────────────────────────

/// The module that a frame counts for: there are two.
pub open spec fn module_of(module: usize) -> usize {
    if module < 1 {
        module
    } else {
        1
    }
}

/// The module that a frame counts for.
pub fn clamp_module(module: usize) -> (out: usize)
    ensures
        out == module_of(module),
        out <= 1,
{
    if module < 1 {
        module
    } else {
        1
    }
}

/// The record of a frame.
pub open spec fn record_of(
    module: usize,
    direction: Seq<char>,
    rssi: i8,
    len: u16,
    data: Seq<u8>,
    ts: u64,
) -> FrameView {
    FrameView {
        module: module_of(module),
        direction,
        rssi,
        len,
        hex: join(hex_words(data, 16), " "@),
        ascii: ascii_of(data),
        crc32: hex_word(crc32(data)),
        ts,
    }
}

/// The record of a frame that was received. `len` is the length that it came
/// with.
pub fn received_frame(module: usize, rssi: i8, len: u16, data: &[u8], ts: u64) -> (out: RxFrameDto)
    ensures
        out@ == record_of(module, "rx"@, rssi, len, data@, ts),
{
    RxFrameDto {
        module: clamp_module(module),
        direction: "rx".to_owned(),
        rssi,
        len,
        hex: frame_preview(data),
        ascii: frame_ascii_preview(data),
        crc32: frame_crc32(data),
        ts,
    }
}

/// The record of a frame that was sent. Only the low 16 bits of its length are
/// kept.
pub fn sent_frame(module: usize, data: &[u8], ts: u64) -> (out: RxFrameDto)
    ensures
        out@ == record_of(module, "tx"@, 0, (data@.len() % 0x1_0000) as u16, data@, ts),
{
    let len: u64 = data.len() as u64;
    let short: u16 = (len % 0x1_0000) as u16;
    RxFrameDto {
        module: clamp_module(module),
        direction: "tx".to_owned(),
        rssi: 0,
        len: short,
        hex: frame_preview(data),
        ascii: frame_ascii_preview(data),
        crc32: frame_crc32(data),
        ts,
    }
}

/// The records after one more: the newest comes first, and only `room` are
/// kept.
pub open spec fn frames_after(frames: Seq<FrameView>, frame: FrameView, room: usize) -> Seq<
    FrameView,
> {
    first_of(seq![frame] + frames, room as int)
}

/// Adds a record.
pub fn push_frame(frames: &mut Vec<RxFrameDto>, frame: RxFrameDto, room: usize)
    ensures
        viewed(final(frames)@) == frames_after(viewed(old(frames)@), frame@, room),
{
    let ghost before = viewed(frames@);
    frames.insert(0, frame);
    assert(viewed(frames@) =~= seq![frame@] + before);
    frames.truncate(room);
    assert(viewed(frames@) =~= frames_after(before, frame@, room));
}

/// A copy of the records of a module.
pub fn build_radio_frames(frames: &Vec<RxFrameDto>) -> (out: Vec<RxFrameDto>)
    ensures
        viewed(out@) == viewed(frames@),
{
    let mut out: Vec<RxFrameDto> = Vec::new();
    let mut i: usize = 0;
    assert(viewed(out@) =~= viewed(frames@).take(0));
    while i < frames.len()
        invariant
            i <= frames@.len(),
            viewed(out@) == viewed(frames@).take(i as int),
        decreases frames@.len() - i,
    {
        let ghost before = viewed(out@);
        out.push(frames[i].copy());
        proof {
            assert(viewed(out@) =~= before.push(frames@[i as int]@));
            assert(viewed(frames@).take(i + 1) =~= before.push(viewed(frames@)[i as int]));
        }
        i += 1;
    }
    assert(viewed(frames@).take(i as int) =~= viewed(frames@));
    out
}

// ── Counters ─────────────────────────────────────────────────────────────────

/// What a module received and sent so far. The counts start over when they are
/// full.
#[derive(Debug, Clone, Copy, PartialEq, Eq, Structural)]
pub struct FrameCounters {
    pub rx_frames: u64,
    pub rx_bytes: u64,
    pub tx_frames: u64,
    pub tx_bytes: u64,
    pub last_rssi: i8,
}

impl FrameCounters {
    /// Counts a frame that was received.
    pub fn count_received(&mut self, rssi: i8, len: u16)
        ensures
            *final(self) == (FrameCounters {
                rx_frames: old(self).rx_frames.wrapping_add(1),
                rx_bytes: old(self).rx_bytes.wrapping_add(len as u64),
                last_rssi: rssi,
                ..*old(self)
            }),
    {
        self.rx_frames = self.rx_frames.wrapping_add(1);
        self.rx_bytes = self.rx_bytes.wrapping_add(len as u64);
        self.last_rssi = rssi;
    }

    /// Counts a frame that was sent.
    pub fn count_sent(&mut self, len: usize)
        ensures
            *final(self) == (FrameCounters {
                tx_frames: old(self).tx_frames.wrapping_add(1),
                tx_bytes: old(self).tx_bytes.wrapping_add(len as u64),
                ..*old(self)
            }),
    {
        self.tx_frames = self.tx_frames.wrapping_add(1);
        self.tx_bytes = self.tx_bytes.wrapping_add(len as u64);
    }
}

/// The traffic of a module. `rx_bps` and `tx_bps` are its rates now.
pub fn build_frame_stats(counters: &FrameCounters, rx_bps: u64, tx_bps: u64) -> (out: FrameStatsDto)
    ensures
        out == (FrameStatsDto {
            rx_frames: counters.rx_frames,
            rx_bytes: counters.rx_bytes,
            rx_bps,
            tx_frames: counters.tx_frames,
            tx_bytes: counters.tx_bytes,
            tx_bps,
            last_rssi: if counters.rx_frames > 0 {
                Some(counters.last_rssi)
            } else {
                None
            },
        }),
{
    FrameStatsDto {
        rx_frames: counters.rx_frames,
        rx_bytes: counters.rx_bytes,
        rx_bps,
        tx_frames: counters.tx_frames,
        tx_bytes: counters.tx_bytes,
        tx_bps,
        last_rssi: if counters.rx_frames > 0 {
            Some(counters.last_rssi)
        } else {
            None
        },
    }
}

// ── Laws ─────────────────────────────────────────────────────────────────────

/// The newest frame is the first, no frame but the oldest is lost, and no more
/// are kept than there is room for.
pub proof fn newest_frames_are_kept(frames: Seq<FrameView>, frame: FrameView, room: usize)
    requires
        room > 0,
        frames.len() <= room,
    ensures
        frames_after(frames, frame, room)[0] == frame,
        frames_after(frames, frame, room).len() <= room,
        forall|i: int|
            0 <= i < frames.len() && i + 1 < room ==> #[trigger] frames[i] == frames_after(
                frames,
                frame,
                room,
            )[i + 1],
{
}

/// A preview in hexadecimal shows the first bytes one by one, in two digits each,
/// and tells different bytes apart.
pub proof fn previews_show_the_first_bytes(data: Seq<u8>, n: int, i: int)
    requires
        0 <= n,
        0 <= i < data.len(),
        i < n,
    ensures
        hex_words(data, n).len() == (if data.len() <= n {
            data.len() as int
        } else {
            n
        }),
        hex_words(data, n)[i].len() == 2,
        hex_words(data, n)[i] == seq![digit((data[i] / 16) as int), digit((data[i] % 16) as int)],
{
}

/// A preview in characters shows the first sixteen bytes, each as the character
/// that it is, or as a dot where it is none that can be printed.
pub proof fn previews_show_what_can_be_printed(data: Seq<u8>, i: int)
    requires
        0 <= i < data.len(),
        i < 16,
    ensures
        ascii_of(data).len() == (if data.len() <= 16 {
            data.len() as int
        } else {
            16
        }),
        ' ' <= ascii_of(data)[i] <= '~',
        ' ' as int <= data[i] <= '~' as int ==> ascii_of(data)[i] as int == data[i],
        data[i] < ' ' as int || data[i] > '~' as int ==> ascii_of(data)[i] == '.',
{
}

/// A frame is recorded as what it is: the first module or the second one, its
/// direction, strength, length and time, and its bytes.
pub proof fn frames_are_recorded_as_they_are(
    module: usize,
    direction: Seq<char>,
    rssi: i8,
    len: u16,
    data: Seq<u8>,
    ts: u64,
)
    ensures
        ({
            let frame = record_of(module, direction, rssi, len, data, ts);
            &&& module == 0 ==> frame.module == 0
            &&& module > 0 ==> frame.module == 1
            &&& frame.direction == direction
            &&& (frame.rssi, frame.len, frame.ts) == (rssi, len, ts)
            &&& frame.ascii == ascii_of(data)
            &&& frame.hex == join(hex_words(data, 16), " "@)
            &&& frame.crc32 == hex_word(crc32(data))
        }),
{
}

} // verus!

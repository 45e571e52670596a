//! The receiving side of the serial upload protocol.
//!
//! Handshake, as text: the host repeats `\x01NHUP <baud>\n`; the loader answers
//! `NHUP-OK <baud>\n`, and both switch. Then framed messages, little-endian, one tag byte
//! first:
//!
//! - `T` to the host: the entry count, one Adler-32 and CRC-32 per full block of the old
//!   payload, and the CRC-32 of the entries;
//! - `D` from the host: offset, length and CRC-32, then the bytes;
//! - `C` from the host: new offset, old offset, length and the CRC-32 of those twelve bytes;
//! - `K` from the host: payload length and CRC-32;
//! - `A` to the host: an echo; `N` to the host: an echo and a reason.
//!
//! Every message of the host is answered once. The caller moves the bytes and keeps the
//! time; each function here takes what arrived and says what to do next.

use crate::nhboot::crc;
use crate::nhboot::image;
use crate::nhboot::image::{FILE_SIZE, HDR_SIZE, MAX_PAYLOAD};
use crate::words;
use vstd::prelude::*;

verus! {

broadcast use words::put_le32_len;

/// How long a valid image waits for a host before booting.
pub const HANDSHAKE_WINDOW_US: u64 = 1_000_000;

/// Interval of the note that there is no bootable image.
pub const WAITING_NOTE_US: u64 = 5_000_000;

/// Silence inside a message that abandons it.
pub const MSG_BYTE_TIMEOUT_US: u64 = 2_000_000;

/// Silence that ends a resynchronisation.
pub const RESYNC_SILENCE_US: u64 = 100_000;

/// Silence to wait for after the handshake.
pub const HANDSHAKE_SETTLE_US: u64 = 150_000;

pub const MIN_BAUD: u32 = 115_200;

pub const MAX_BAUD: u32 = 3_000_000;

/// Largest `D` message.
pub const MAX_DATA_LEN: u32 = 65_536;

/// Bytes per fingerprinted block of the old payload.
pub const TABLE_BLOCK: usize = 4096;

pub const TAG_TABLE: u8 = 0x54;

pub const TAG_DATA: u8 = 0x44;

pub const TAG_COPY: u8 = 0x43;

pub const TAG_COMMIT: u8 = 0x4B;

pub const TAG_ACK: u8 = 0x41;

pub const TAG_NAK: u8 = 0x4E;

pub const NAK_BAD_CRC: u8 = 1;

pub const NAK_BAD_RANGE: u8 = 2;

pub const NAK_RX_TIMEOUT: u8 = 3;

pub const NAK_NO_OLD_IMAGE: u8 = 4;

pub const NAK_UNKNOWN_TAG: u8 = 5;

/// Room for one handshake line.
pub const LINE_CAP: usize = 32;

/// The value of a string of decimal digits.
pub open spec fn decimal(d: Seq<u8>) -> int
    decreases d.len(),
{
    if d.len() == 0 {
        0
    } else {
        10 * decimal(d.drop_last()) + (d.last() - 0x30)
    }
}

/// Whether every byte is a decimal digit.
pub open spec fn all_digits(d: Seq<u8>) -> bool {
    forall|i: int| 0 <= i < d.len() ==> 0x30 <= #[trigger] d[i] <= 0x39
}

/// The start of a handshake line: `NHUP `.
pub open spec fn hello() -> Seq<u8> {
    seq![0x4Eu8, 0x48, 0x55, 0x50, 0x20]
}

/// The baud that a handshake line asks for: `NHUP ` and one to eight decimal digits.
pub open spec fn asked_baud(line: Seq<u8>) -> Option<int> {
    if line.len() >= 5 && line.take(5) == hello() && 1 <= line.len() - 5 <= 8 && all_digits(
        line.skip(5),
    ) {
        Some(decimal(line.skip(5)))
    } else {
        None
    }
}

/// Ten to the `n`.
pub open spec fn pow10(n: int) -> int
    decreases n,
{
    if n <= 0 {
        1
    } else {
        10 * pow10(n - 1)
    }
}

proof fn decimal_bound(d: Seq<u8>)
    requires
        all_digits(d),
        d.len() <= 8,
    ensures
        0 <= decimal(d) < pow10(d.len() as int) <= 100_000_000,
    decreases d.len(),
{
    reveal_with_fuel(pow10, 9);
    if d.len() > 0 {
        decimal_bound(d.drop_last());
    }
}

/// Parses a handshake line.
pub fn parse_handshake(line: &[u8]) -> (baud: Option<u32>)
    ensures
        match baud {
            Some(b) => asked_baud(line@) == Some(b as int),
            None => asked_baud(line@) is None,
        },
{
    if line.len() < 5 {
        return None;
    }
    let greeted = line[0] == 0x4E && line[1] == 0x48 && line[2] == 0x55 && line[3] == 0x50
        && line[4] == 0x20;
    proof {
        let s = line@.take(5);
        if greeted {
            assert(s =~= hello());
        } else if s == hello() {
            assert(s[0] == 0x4E && s[1] == 0x48 && s[2] == 0x55 && s[3] == 0x50 && s[4] == 0x20);
        }
    }
    if !greeted {
        return None;
    }
    let n: usize = line.len() - 5;
    if n == 0 || n > 8 {
        return None;
    }
    let ghost digits = line@.skip(5);
    let mut v: u32 = 0;
    let mut i: usize = 0;
    assert(digits.take(0) =~= Seq::<u8>::empty());
    while i < n
        invariant
            i <= n <= 8,
            n == line@.len() - 5,
            digits == line@.skip(5),
            all_digits(digits.take(i as int)),
            v == decimal(digits.take(i as int)),
        decreases n - i,
    {
        let d = line[5 + i];
        assert(d == digits[i as int]);
        if d < 0x30 || d > 0x39 {
            return None;
        }
        proof {
            decimal_bound(digits.take(i as int));
            assert(pow10(i as int) <= 10_000_000) by {
                reveal_with_fuel(pow10, 9);
            }
            assert(digits.take(i + 1).drop_last() =~= digits.take(i as int));
        }
        v = v * 10 + (d - 0x30) as u32;
        i = i + 1;
    }
    assert(digits.take(n as int) =~= digits);
    Some(v)
}

/// The handshake in progress.
pub struct Handshake {
    /// The line so far.
    pub line: Vec<u8>,
    /// Whether a start byte has been seen.
    pub synced: bool,
    /// When the window opened, in microseconds.
    pub start: u64,
    /// When the last waiting note was due.
    pub last_note: u64,
}

/// What the line brought.
#[derive(Clone, Copy)]
pub enum LineEvent {
    /// A byte.
    Byte(u8),
    /// Nothing, at this time in microseconds.
    Idle(u64),
}

/// What the handshake does next.
#[derive(Clone, Copy, PartialEq, Eq, Structural)]
pub enum HandshakeAction {
    /// Go on.
    Continue,
    /// A host wants to upload at this baud.
    Accept(u32),
    /// Tell the host that its baud is out of range.
    RejectBaud,
    /// No host has come: boot.
    GiveUp,
    /// Note that there is no bootable image.
    NoteWaiting,
}

/// What a `Handshake` holds.
#[verifier::ext_equal]
pub struct HandshakeView {
    pub line: Seq<u8>,
    pub synced: bool,
    pub start: u64,
    pub last_note: u64,
}

impl View for Handshake {
    type V = HandshakeView;

    open spec fn view(&self) -> HandshakeView {
        HandshakeView {
            line: self.line@,
            synced: self.synced,
            start: self.start,
            last_note: self.last_note,
        }
    }
}

/// The handshake after one event, and what it does.
pub open spec fn handshake_step(
    h: HandshakeView,
    image_ok: bool,
    e: LineEvent,
) -> (HandshakeView, HandshakeAction) {
    match e {
        LineEvent::Byte(b) => if b == 0x01 {
            (
                HandshakeView { synced: true, line: Seq::empty(), ..h },
                HandshakeAction::Continue,
            )
        } else if !h.synced {
            (h, HandshakeAction::Continue)
        } else if b == 0x0A || b == 0x0D {
            (
                HandshakeView { synced: false, ..h },
                match asked_baud(h.line) {
                    Some(baud) => if MIN_BAUD <= baud <= MAX_BAUD {
                        HandshakeAction::Accept(baud as u32)
                    } else {
                        HandshakeAction::RejectBaud
                    },
                    None => HandshakeAction::Continue,
                },
            )
        } else if h.line.len() < LINE_CAP {
            (HandshakeView { line: h.line.push(b), ..h }, HandshakeAction::Continue)
        } else {
            (HandshakeView { synced: false, ..h }, HandshakeAction::Continue)
        },
        LineEvent::Idle(now) => if image_ok {
            if now.wrapping_sub(h.start) >= HANDSHAKE_WINDOW_US {
                (h, HandshakeAction::GiveUp)
            } else {
                (h, HandshakeAction::Continue)
            }
        } else if now.wrapping_sub(h.last_note) >= WAITING_NOTE_US {
            (HandshakeView { last_note: now, ..h }, HandshakeAction::NoteWaiting)
        } else {
            (h, HandshakeAction::Continue)
        },
    }
}

impl Handshake {
    /// A window that opens at `now`.
    pub fn new(now: u64) -> (h: Self)
        ensures
            h@ == (HandshakeView {
                line: Seq::empty(),
                synced: false,
                start: now,
                last_note: now,
            }),
    {
        Handshake { line: Vec::new(), synced: false, start: now, last_note: now }
    }
}

/// Takes one event of the handshake window. With a bootable image the window closes after
/// a second without a byte waiting; without one it stays open.
pub fn handshake_window(h: &mut Handshake, image_ok: bool, e: LineEvent) -> (a: HandshakeAction)
    ensures
        (final(h)@, a) == handshake_step(old(h)@, image_ok, e),
{
    match e {
        LineEvent::Byte(b) => {
            if b == 0x01 {
                h.synced = true;
                h.line.clear();
                return HandshakeAction::Continue;
            }
            if !h.synced {
                return HandshakeAction::Continue;
            }
            if b == 0x0A || b == 0x0D {
                h.synced = false;
                return match parse_handshake(&h.line) {
                    Some(baud) => {
                        if MIN_BAUD <= baud && baud <= MAX_BAUD {
                            HandshakeAction::Accept(baud)
                        } else {
                            HandshakeAction::RejectBaud
                        }
                    },
                    None => HandshakeAction::Continue,
                };
            }
            if h.line.len() < LINE_CAP {
                h.line.push(b);
            } else {
                h.synced = false;
            }
            HandshakeAction::Continue
        },
        LineEvent::Idle(now) => {
            if image_ok {
                if now.wrapping_sub(h.start) >= HANDSHAKE_WINDOW_US {
                    HandshakeAction::GiveUp
                } else {
                    HandshakeAction::Continue
                }
            } else if now.wrapping_sub(h.last_note) >= WAITING_NOTE_US {
                h.last_note = now;
                HandshakeAction::NoteWaiting
            } else {
                HandshakeAction::Continue
            }
        },
    }
}

/// The handshake after the bytes `bytes`.
pub open spec fn after_bytes(h: HandshakeView, image_ok: bool, bytes: Seq<u8>) -> HandshakeView
    decreases bytes.len(),
{
    if bytes.len() == 0 {
        h
    } else {
        handshake_step(
            after_bytes(h, image_ok, bytes.drop_last()),
            image_ok,
            LineEvent::Byte(bytes.last()),
        ).0
    }
}

/// Whatever came before, a start byte, a line that fits and a newline are answered as that
/// line asks: a baud in range is accepted.
pub proof fn hello_line_is_heard(h: HandshakeView, image_ok: bool, line: Seq<u8>)
    requires
        line.len() <= LINE_CAP,
        forall|i: int|
            0 <= i < line.len() ==> #[trigger] line[i] != 0x01 && line[i] != 0x0A && line[i]
                != 0x0D,
        asked_baud(line) matches Some(b) && MIN_BAUD <= b <= MAX_BAUD,
    ensures
        handshake_step(
            after_bytes(h, image_ok, seq![0x01u8] + line),
            image_ok,
            LineEvent::Byte(0x0A),
        ).1 == HandshakeAction::Accept(asked_baud(line)->0 as u32),
{
    line_is_collected(h, image_ok, line);
}

proof fn line_is_collected(h: HandshakeView, image_ok: bool, line: Seq<u8>)
    requires
        line.len() <= LINE_CAP,
        forall|i: int|
            0 <= i < line.len() ==> #[trigger] line[i] != 0x01 && line[i] != 0x0A && line[i]
                != 0x0D,
    ensures
        after_bytes(h, image_ok, seq![0x01u8] + line).line == line,
        after_bytes(h, image_ok, seq![0x01u8] + line).synced,
    decreases line.len(),
{
    let all = seq![0x01u8] + line;
    if line.len() == 0 {
        assert(all.drop_last() =~= Seq::<u8>::empty());
        reveal_with_fuel(after_bytes, 2);
    } else {
        line_is_collected(h, image_ok, line.drop_last());
        assert(all.drop_last() =~= seq![0x01u8] + line.drop_last());
        assert(line =~= line.drop_last().push(line.last()));
    }
}

/// What a handshake line asks for: `NHUP `, then one to eight decimal digits and nothing else, asks
/// for the number that they write; a digit more makes it ten times as large and adds the digit.
/// Any other line asks for nothing.
pub proof fn baud_is_the_number_written(line: Seq<u8>, d: Seq<u8>, c: u8)
    ensures
        ({
            let greeted = line.len() >= 5 && line[0] == 0x4E && line[1] == 0x48 && line[2] == 0x55
                && line[3] == 0x50 && line[4] == 0x20;
            let number = 6 <= line.len() <= 13 && forall|i: int|
                5 <= i < line.len() ==> 0x30 <= #[trigger] line[i] <= 0x39;
            &&& greeted && number ==> asked_baud(line) == Some(decimal(line.skip(5)))
            &&& !greeted || !number ==> asked_baud(line) is None
        }),
        decimal(Seq::empty()) == 0,
        decimal(d.push(c)) == 10 * decimal(d) + (c - 0x30),
{
    assert(d.push(c).drop_last() =~= d);
    if line.len() >= 5 {
        let s = line.take(5);
        if line[0] == 0x4E && line[1] == 0x48 && line[2] == 0x55 && line[3] == 0x50 && line[4] == 0x20 {
            assert(s =~= hello());
        } else if s == hello() {
            assert(s[0] == 0x4E && s[1] == 0x48 && s[2] == 0x55 && s[3] == 0x50 && s[4] == 0x20);
        }
        let t = line.skip(5);
        if all_digits(t) {
            assert forall|i: int| 5 <= i < line.len() implies 0x30 <= #[trigger] line[i] <= 0x39 by {
                assert(t[i - 5] == line[i]);
            }
        } else if forall|i: int| 5 <= i < line.len() ==> 0x30 <= #[trigger] line[i] <= 0x39 {
            assert forall|i: int| 0 <= i < t.len() implies 0x30 <= #[trigger] t[i] <= 0x39 by {
                assert(t[i] == line[5 + i]);
            }
        }
    }
}

/// A line is answered when it ends and has been started: a baud from 115200 to 3000000 is taken, any
/// other number is rejected, and anything else is passed over; either way the next line must be
/// started anew. Bytes before a start byte are passed over, and so is a line that is too long.
pub proof fn lines_are_answered(h: HandshakeView, image_ok: bool, b: u8)
    ensures
        ({
            let (g, a) = handshake_step(h, image_ok, LineEvent::Byte(b));
            let ends = b == 0x0A || b == 0x0D;
            &&& g.start == h.start && g.last_note == h.last_note
            &&& b == 0x01 ==> g.synced && g.line.len() == 0 && a == HandshakeAction::Continue
            &&& b != 0x01 && !h.synced ==> g == h && a == HandshakeAction::Continue
            &&& h.synced && ends ==> !g.synced && (match asked_baud(h.line) {
                Some(n) => if 115_200 <= n <= 3_000_000 {
                    a matches HandshakeAction::Accept(m) && m == n
                } else {
                    a == HandshakeAction::RejectBaud
                },
                None => a == HandshakeAction::Continue,
            })
            &&& h.synced && b != 0x01 && !ends ==> a == HandshakeAction::Continue
            &&& h.synced && b != 0x01 && !ends && h.line.len() < 32 ==> g.synced && g.line
                == h.line.push(b)
            &&& h.synced && b != 0x01 && !ends && h.line.len() >= 32 ==> !g.synced
        }),
{
}

/// With an image to boot, the window closes once a second has passed since it opened, and not
/// before. Without one it never closes, and every five seconds a note is due.
pub proof fn window_closes_after_a_second(h: HandshakeView, image_ok: bool, now: u64)
    requires
        h.start <= now,
        h.last_note <= now,
    ensures
        ({
            let (g, a) = handshake_step(h, image_ok, LineEvent::Idle(now));
            &&& g.line == h.line && g.synced == h.synced && g.start == h.start
            &&& a == HandshakeAction::GiveUp <==> image_ok && now - h.start >= 1_000_000
            &&& a == HandshakeAction::NoteWaiting <==> !image_ok && now - h.last_note >= 5_000_000
            &&& g.last_note == if a == HandshakeAction::NoteWaiting {
                now
            } else {
                h.last_note
            }
            &&& a is GiveUp || a is NoteWaiting || a is Continue
        }),
{
}

/// Whether `offset .. offset + len` lies in the payload.
pub open spec fn fits_payload(offset: u32, len: u32) -> bool {
    offset + len <= MAX_PAYLOAD
}

fn in_payload(offset: u32, len: u32) -> (yes: bool)
    ensures
        yes == fits_payload(offset, len),
{
    match offset.checked_add(len) {
        Some(end) => end as usize <= MAX_PAYLOAD,
        None => false,
    }
}

/// The reply that takes a message.
pub open spec fn ack_bytes(echo: u32) -> Seq<u8> {
    seq![TAG_ACK] + words::le_bytes(echo)
}

/// The reply that refuses a message.
pub open spec fn nak_bytes(echo: u32, reason: u8) -> Seq<u8> {
    (seq![TAG_NAK] + words::le_bytes(echo)).push(reason)
}

/// Appends a little-endian word.
pub fn put_u32(out: &mut Vec<u8>, v: u32)
    ensures
        final(out)@ == old(out)@ + words::le_bytes(v),
{
    out.push(words::nth_byte(v, 0));
    out.push(words::nth_byte(v, 1));
    out.push(words::nth_byte(v, 2));
    out.push(words::nth_byte(v, 3));
    assert(out@ =~= old(out)@ + words::le_bytes(v));
}

/// The reply that takes a message.
pub fn ack(echo: u32) -> (reply: Vec<u8>)
    ensures
        reply@ == ack_bytes(echo),
{
    let mut out: Vec<u8> = Vec::new();
    out.push(TAG_ACK);
    put_u32(&mut out, echo);
    assert(out@ =~= ack_bytes(echo));
    out
}

/// The reply that refuses a message.
pub fn nak(echo: u32, reason: u8) -> (reply: Vec<u8>)
    ensures
        reply@ == nak_bytes(echo, reason),
{
    let mut out: Vec<u8> = Vec::new();
    out.push(TAG_NAK);
    put_u32(&mut out, echo);
    out.push(reason);
    assert(out@ =~= nak_bytes(echo, reason));
    out
}

/// Block `j` of the old payload.
pub open spec fn block_of(old: Seq<u8>, j: int) -> Seq<u8> {
    old.subrange(TABLE_BLOCK * j, TABLE_BLOCK * (j + 1))
}

/// The blocks of a payload are its bytes, 4096 to a block, one block behind the other.
pub proof fn blocks_split_the_payload(old: Seq<u8>, i: int)
    requires
        0 <= i,
        (i / 4096 + 1) * 4096 <= old.len(),
    ensures
        block_of(old, i / 4096).len() == 4096,
        block_of(old, i / 4096)[i % 4096] == old[i],
{
}

/// Fingerprints the old payload: an Adler-32 and a CRC-32 for each full block.
pub fn build_table(old: Option<&Vec<u8>>) -> (table: Vec<(u32, u32)>)
    ensures
        match old {
            Some(o) => {
                &&& table@.len() == o@.len() / 4096
                &&& forall|j: int|
                    0 <= j < table@.len() ==> #[trigger] table@[j] == (
                        crc::adler32_of(block_of(o@, j)),
                        crc::crc32_of(block_of(o@, j)),
                    )
            },
            None => table@.len() == 0,
        },
{
    let mut table: Vec<(u32, u32)> = Vec::new();
    let o: &Vec<u8> = match old {
        Some(o) => o,
        None => {
            return table;
        },
    };
    let n: usize = o.len() / TABLE_BLOCK;
    let mut j: usize = 0;
    while j < n
        invariant
            j <= n,
            n == o@.len() / 4096,
            table@.len() == j,
            forall|i: int|
                0 <= i < j ==> #[trigger] table@[i] == (
                    crc::adler32_of(block_of(o@, i)),
                    crc::crc32_of(block_of(o@, i)),
                ),
        decreases n - j,
    {
        assert(TABLE_BLOCK * (j + 1) <= o@.len());
        assert(o@.len() == o.len());
        let block = vstd::slice::slice_subrange(
            o.as_slice(),
            TABLE_BLOCK * j,
            TABLE_BLOCK * (j + 1),
        );
        table.push((crc::adler32(block), crc::crc32(block)));
        j = j + 1;
    }
    table
}

/// The bytes of the first `n` table entries.
pub open spec fn entry_bytes(table: Seq<(u32, u32)>, n: int) -> Seq<u8>
    decreases n,
{
    if n <= 0 {
        Seq::empty()
    } else {
        entry_bytes(table, n - 1) + words::le_bytes(table[n - 1].0) + words::le_bytes(
            table[n - 1].1,
        )
    }
}

/// The table message: the entry count, the entries, and the CRC-32 of the entries.
pub open spec fn table_message(table: Seq<(u32, u32)>) -> Seq<u8> {
    let entries = entry_bytes(table, table.len() as int);
    seq![TAG_TABLE] + words::le_bytes(table.len() as u32) + entries + words::le_bytes(
        crc::crc32_of(entries),
    )
}

/// The bytes of the table message, its CRC kept while the entries go out.
pub fn send_table(table: &Vec<(u32, u32)>) -> (out: Vec<u8>)
    requires
        table@.len() <= MAX_PAYLOAD / TABLE_BLOCK,
    ensures
        out@ == table_message(table@),
{
    let mut out: Vec<u8> = Vec::new();
    out.push(TAG_TABLE);
    put_u32(&mut out, table.len() as u32);
    let ghost head = out@;
    let mut register: u32 = 0xFFFF_FFFF;
    let mut i: usize = 0;
    while i < table.len()
        invariant
            i <= table@.len(),
            head == seq![TAG_TABLE] + words::le_bytes(table@.len() as u32),
            out@ == head + entry_bytes(table@, i as int),
            register == crc::crc_register(0xFFFF_FFFF, entry_bytes(table@, i as int)),
        decreases table@.len() - i,
    {
        let (a, c) = table[i];
        let ghost before = entry_bytes(table@, i as int);
        let mut one: Vec<u8> = Vec::new();
        put_u32(&mut one, a);
        assert(one@ =~= words::le_bytes(a));
        register = crc::crc32_update(register, &one);
        proof {
            crc::crc_of_concatenation(0xFFFF_FFFF, before, words::le_bytes(a));
        }
        put_u32(&mut out, a);
        let mut two: Vec<u8> = Vec::new();
        put_u32(&mut two, c);
        assert(two@ =~= words::le_bytes(c));
        register = crc::crc32_update(register, &two);
        proof {
            crc::crc_of_concatenation(
                0xFFFF_FFFF,
                before + words::le_bytes(a),
                words::le_bytes(c),
            );
        }
        put_u32(&mut out, c);
        assert(out@ =~= head + entry_bytes(table@, i + 1));
        i = i + 1;
    }
    put_u32(&mut out, register ^ 0xFFFF_FFFF);
    assert(out@ =~= table_message(table@));
    out
}

/// What the receiver is waiting for.
#[derive(Clone, Copy, PartialEq, Eq, Structural)]
pub enum Phase {
    /// A tag.
    Tag,
    /// The rest of a message with this tag.
    Header(u8),
    /// The bytes of a `D` message.
    Payload { offset: u32, len: u32, crc: u32 },
}

/// The receiver: the container that is put together, the old payload as the source of
/// copies, and what comes next.
pub struct Receiver {
    pub new: Vec<u8>,
    pub old: Option<Vec<u8>>,
    pub phase: Phase,
}

/// What a `Receiver` holds.
#[verifier::ext_equal]
pub struct ReceiverView {
    pub new: Seq<u8>,
    pub old: Option<Seq<u8>>,
    pub phase: Phase,
}

impl View for Receiver {
    type V = ReceiverView;

    open spec fn view(&self) -> ReceiverView {
        ReceiverView {
            new: self.new@,
            old: match self.old {
                Some(o) => Some(o@),
                None => None,
            },
            phase: self.phase,
        }
    }
}

/// What the link brought.
pub enum RxEvent {
    /// A tag byte.
    Tag(u8),
    /// All the bytes asked for.
    Bytes(Vec<u8>),
    /// The bytes that came before the line went quiet.
    Timeout(Vec<u8>),
}

/// What the receiver wants done.
pub enum RxAction {
    /// Read this many bytes.
    Read(usize),
    /// Send this reply and wait for a tag.
    Reply(Vec<u8>),
    /// Send this reply, skip input until the line is quiet, and wait for a tag.
    ReplyResync(Vec<u8>),
    /// The upload is complete: send this reply, then store and boot the new container.
    Commit { reply: Vec<u8>, len: u32, crc: u32 },
}

/// An event, in mathematical form.
pub enum Event {
    Tag(u8),
    Bytes(Seq<u8>),
    Timeout(Seq<u8>),
}

/// An action, in mathematical form.
#[verifier::ext_equal]
pub enum Action {
    Read(nat),
    Reply(Seq<u8>),
    ReplyResync(Seq<u8>),
    Commit { reply: Seq<u8>, len: u32, crc: u32 },
}

impl View for RxEvent {
    type V = Event;

    open spec fn view(&self) -> Event {
        match *self {
            RxEvent::Tag(t) => Event::Tag(t),
            RxEvent::Bytes(b) => Event::Bytes(b@),
            RxEvent::Timeout(b) => Event::Timeout(b@),
        }
    }
}

impl View for RxAction {
    type V = Action;

    open spec fn view(&self) -> Action {
        match *self {
            RxAction::Read(n) => Action::Read(n as nat),
            RxAction::Reply(r) => Action::Reply(r@),
            RxAction::ReplyResync(r) => Action::ReplyResync(r@),
            RxAction::Commit { reply, len, crc } => Action::Commit { reply: reply@, len, crc },
        }
    }
}

/// The bytes behind a tag.
pub open spec fn header_len(tag: u8) -> nat {
    if tag == TAG_DATA {
        12
    } else if tag == TAG_COPY {
        16
    } else {
        8
    }
}

/// Whether `tag` starts a message of the host.
pub open spec fn host_tag(tag: u8) -> bool {
    tag == TAG_DATA || tag == TAG_COPY || tag == TAG_COMMIT
}

impl ReceiverView {
    /// The container has its size, the old payload fits one, and a payload that is waited
    /// for lies in the container.
    pub open spec fn wf(self) -> bool {
        &&& self.new.len() == FILE_SIZE
        &&& self.old matches Some(o) ==> o.len() <= MAX_PAYLOAD
        &&& match self.phase {
            Phase::Tag => true,
            Phase::Header(t) => host_tag(t),
            Phase::Payload { offset, len, crc } => fits_payload(offset, len) && 0 < len
                <= MAX_DATA_LEN,
        }
    }

    /// How many bytes the receiver waits for, tags apart.
    pub open spec fn wanted(self) -> nat {
        match self.phase {
            Phase::Tag => 0,
            Phase::Header(t) => header_len(t),
            Phase::Payload { offset, len, crc } => len as nat,
        }
    }

    /// Whether an event can come now: a tag between messages; inside one, the bytes asked
    /// for, or fewer before silence.
    pub open spec fn takes(self, e: Event) -> bool {
        match e {
            Event::Tag(_) => self.phase == Phase::Tag,
            Event::Bytes(b) => self.phase != Phase::Tag && b.len() == self.wanted(),
            Event::Timeout(b) => self.phase != Phase::Tag && b.len() < self.wanted(),
        }
    }

    /// The receiver between messages.
    pub open spec fn idle(self) -> ReceiverView {
        ReceiverView { phase: Phase::Tag, ..self }
    }

    /// The receiver with `bytes` in the payload from `offset` on.
    pub open spec fn with_payload(self, offset: int, bytes: Seq<u8>) -> ReceiverView {
        ReceiverView { new: overwritten(self.new, HDR_SIZE + offset, bytes), ..self }
    }
}

/// `s` with `bytes` from `at` on.
pub open spec fn overwritten(s: Seq<u8>, at: int, bytes: Seq<u8>) -> Seq<u8> {
    Seq::new(
        s.len(),
        |i: int|
            if at <= i < at + bytes.len() {
                bytes[i - at]
            } else {
                s[i]
            },
    )
}

/// The end of the pad behind a payload: the next multiple of the block size, as far as the
/// container reaches.
pub open spec fn padded_len(len: int) -> int {
    let p = (len + 4095) / 4096 * 4096;
    if p < MAX_PAYLOAD {
        p
    } else {
        MAX_PAYLOAD as int
    }
}

/// The container with a zero pad behind the payload and its header in place.
pub open spec fn sealed(c: Seq<u8>, len: u32, crc: u32) -> Seq<u8> {
    image::with_header(
        overwritten(
            c,
            HDR_SIZE + len,
            Seq::new((padded_len(len as int) - len) as nat, |i: int| 0u8),
        ),
        len,
        crc,
    )
}

/// The receiver after one event, and what it wants done.
pub open spec fn receiver_step(v: ReceiverView, e: Event) -> (ReceiverView, Action) {
    match v.phase {
        Phase::Tag => {
            let tag = e->Tag_0;
            if host_tag(tag) {
                (ReceiverView { phase: Phase::Header(tag), ..v }, Action::Read(header_len(tag)))
            } else {
                (v, Action::ReplyResync(nak_bytes(tag as u32, NAK_UNKNOWN_TAG)))
            }
        },
        Phase::Header(tag) => match e {
            Event::Bytes(h) => if tag == TAG_DATA {
                data_step(v, h)
            } else if tag == TAG_COPY {
                copy_step(v, h)
            } else {
                commit_step(v, h)
            },
            _ => (v.idle(), Action::Reply(nak_bytes(0, NAK_RX_TIMEOUT))),
        },
        Phase::Payload { offset, len, crc } => match e {
            Event::Bytes(b) => (
                v.with_payload(offset as int, b).idle(),
                Action::Reply(
                    if crc::crc32_of(b) == crc {
                        ack_bytes(offset)
                    } else {
                        nak_bytes(offset, NAK_BAD_CRC)
                    },
                ),
            ),
            Event::Timeout(b) => (
                v.with_payload(offset as int, b).idle(),
                Action::Reply(nak_bytes(offset, NAK_RX_TIMEOUT)),
            ),
            Event::Tag(_) => (v.idle(), Action::Reply(nak_bytes(offset, NAK_RX_TIMEOUT))),
        },
    }
}

/// The header of a `D` message: refused unless its range is sound, else its bytes follow.
pub open spec fn data_step(v: ReceiverView, h: Seq<u8>) -> (ReceiverView, Action) {
    let offset = words::le32(h, 0);
    let len = words::le32(h, 4);
    if len == 0 || len > MAX_DATA_LEN || !fits_payload(offset, len) {
        (v.idle(), Action::ReplyResync(nak_bytes(offset, NAK_BAD_RANGE)))
    } else {
        (
            ReceiverView { phase: Phase::Payload { offset, len, crc: words::le32(h, 8) }, ..v },
            Action::Read(len as nat),
        )
    }
}

/// A `C` message: its own CRC, an old image and a sound range on both sides, in this order.
pub open spec fn copy_step(v: ReceiverView, h: Seq<u8>) -> (ReceiverView, Action) {
    let new_off = words::le32(h, 0);
    let old_off = words::le32(h, 4);
    let len = words::le32(h, 8);
    if crc::crc32_of(h.take(12)) != words::le32(h, 12) {
        (v.idle(), Action::Reply(nak_bytes(new_off, NAK_BAD_CRC)))
    } else {
        match v.old {
            None => (v.idle(), Action::Reply(nak_bytes(new_off, NAK_NO_OLD_IMAGE))),
            Some(o) => if len == 0 || !fits_payload(new_off, len) || old_off + len > o.len() {
                (v.idle(), Action::Reply(nak_bytes(new_off, NAK_BAD_RANGE)))
            } else {
                (
                    v.with_payload(
                        new_off as int,
                        o.subrange(old_off as int, old_off + len),
                    ).idle(),
                    Action::Reply(ack_bytes(new_off)),
                )
            },
        }
    }
}

/// A `K` message: a sound length and the payload's CRC; then the container is sealed.
pub open spec fn commit_step(v: ReceiverView, h: Seq<u8>) -> (ReceiverView, Action) {
    let len = words::le32(h, 0);
    let crc = words::le32(h, 4);
    if len == 0 || len > MAX_PAYLOAD {
        (v.idle(), Action::Reply(nak_bytes(len, NAK_BAD_RANGE)))
    } else if crc::crc32_of(v.new.subrange(HDR_SIZE as int, HDR_SIZE + len)) != crc {
        (v.idle(), Action::Reply(nak_bytes(len, NAK_BAD_CRC)))
    } else {
        (
            ReceiverView { new: sealed(v.new, len, crc), ..v }.idle(),
            Action::Commit { reply: ack_bytes(len), len, crc },
        )
    }
}

/// Copies `src` over `dst` from `at` on.
fn copy_over(dst: &mut Vec<u8>, at: usize, src: &[u8])
    requires
        at + src@.len() <= old(dst)@.len(),
        old(dst)@.len() == FILE_SIZE,
    ensures
        final(dst)@ == overwritten(old(dst)@, at as int, src@),
{
    let mut i: usize = 0;
    while i < src.len()
        invariant
            i <= src@.len(),
            at + src@.len() <= dst@.len(),
            dst@.len() == FILE_SIZE,
            dst@.len() == old(dst)@.len(),
            forall|k: int|
                0 <= k < dst@.len() ==> #[trigger] dst@[k] == if at <= k < at + i {
                    src@[k - at]
                } else {
                    old(dst)@[k]
                },
        decreases src@.len() - i,
    {
        dst.set(at + i, src[i]);
        i = i + 1;
    }
    assert(dst@ =~= overwritten(old(dst)@, at as int, src@));
}

impl Receiver {
    /// The receiver's invariant.
    pub open spec fn wf(self) -> bool {
        self@.wf()
    }

    /// A receiver over staging memory `staging`: the header page is cleared, so that a
    /// container left there cannot pass for this one.
    pub fn new(staging: Vec<u8>, old: Option<Vec<u8>>) -> (r: Receiver)
        requires
            staging@.len() == FILE_SIZE,
            old matches Some(o) ==> o@.len() <= MAX_PAYLOAD,
        ensures
            r.wf(),
            r@.phase == Phase::Tag,
            r@.old == (match old {
                Some(o) => Some(o@),
                None => None,
            }),
            r@.new == Seq::new(HDR_SIZE as nat, |i: int| 0u8) + staging@.skip(HDR_SIZE as int),
    {
        let mut new = staging;
        let mut i: usize = 0;
        while i < HDR_SIZE
            invariant
                i <= HDR_SIZE,
                new@.len() == FILE_SIZE,
                staging@.len() == FILE_SIZE,
                forall|k: int|
                    0 <= k < FILE_SIZE ==> #[trigger] new@[k] == if k < i {
                        0
                    } else {
                        staging@[k]
                    },
            decreases HDR_SIZE - i,
        {
            new.set(i, 0);
            i = i + 1;
        }
        assert(new@ =~= Seq::new(HDR_SIZE as nat, |i: int| 0u8) + staging@.skip(HDR_SIZE as int));
        Receiver { new, old, phase: Phase::Tag }
    }

    fn data_header(&mut self, h: &Vec<u8>) -> (a: RxAction)
        requires
            old(self).wf(),
            old(self).phase == Phase::Header(TAG_DATA),
            h@.len() == 12,
        ensures
            (final(self)@, a@) == data_step(old(self)@, h@),
            final(self).wf(),
    {
        let offset = words::get_le32(h, 0);
        let len = words::get_le32(h, 4);
        let crc = words::get_le32(h, 8);
        if len == 0 || len > MAX_DATA_LEN || !in_payload(offset, len) {
            self.phase = Phase::Tag;
            return RxAction::ReplyResync(nak(offset, NAK_BAD_RANGE));
        }
        self.phase = Phase::Payload { offset, len, crc };
        RxAction::Read(len as usize)
    }

    fn copy_message(&mut self, h: &Vec<u8>) -> (a: RxAction)
        requires
            old(self).wf(),
            old(self).phase == Phase::Header(TAG_COPY),
            h@.len() == 16,
        ensures
            (final(self)@, a@) == copy_step(old(self)@, h@),
            final(self).wf(),
    {
        let new_off = words::get_le32(h, 0);
        let old_off = words::get_le32(h, 4);
        let len = words::get_le32(h, 8);
        self.phase = Phase::Tag;
        assert(h@.take(12) =~= h@.subrange(0, 12));
        if crc::crc32(vstd::slice::slice_subrange(h.as_slice(), 0, 12)) != words::get_le32(h, 12) {
            return RxAction::Reply(nak(new_off, NAK_BAD_CRC));
        }
        match &self.old {
            None => RxAction::Reply(nak(new_off, NAK_NO_OLD_IMAGE)),
            Some(o) => {
                let fits_old = match old_off.checked_add(len) {
                    Some(end) => end as usize <= o.len(),
                    None => false,
                };
                if len == 0 || !in_payload(new_off, len) || !fits_old {
                    return RxAction::Reply(nak(new_off, NAK_BAD_RANGE));
                }
                let src = vstd::slice::slice_subrange(
                    o.as_slice(),
                    old_off as usize,
                    old_off as usize + len as usize,
                );
                copy_over(&mut self.new, HDR_SIZE + new_off as usize, src);
                RxAction::Reply(ack(new_off))
            },
        }
    }

    fn commit_message(&mut self, h: &Vec<u8>) -> (a: RxAction)
        requires
            old(self).wf(),
            old(self).phase == Phase::Header(TAG_COMMIT),
            h@.len() == 8,
        ensures
            (final(self)@, a@) == commit_step(old(self)@, h@),
            final(self).wf(),
    {
        let len = words::get_le32(h, 0);
        let crc = words::get_le32(h, 4);
        self.phase = Phase::Tag;
        if len == 0 || len as usize > MAX_PAYLOAD {
            return RxAction::Reply(nak(len, NAK_BAD_RANGE));
        }
        let actual = crc::crc32(
            vstd::slice::slice_subrange(
                self.new.as_slice(),
                HDR_SIZE,
                HDR_SIZE + len as usize,
            ),
        );
        if actual != crc {
            return RxAction::Reply(nak(len, NAK_BAD_CRC));
        }
        let whole: usize = (len as usize + 4095) / 4096 * 4096;
        let padded: usize = if whole < MAX_PAYLOAD {
            whole
        } else {
            MAX_PAYLOAD
        };
        let pad: usize = padded - len as usize;
        let zeros: Vec<u8> = vec![0u8; pad];
        assert(zeros@ =~= Seq::new((padded_len(len as int) - len) as nat, |i: int| 0u8));
        copy_over(&mut self.new, HDR_SIZE + len as usize, &zeros);
        image::write_header(&mut self.new, len, crc);
        proof {
            image::written_header_is_valid(
                overwritten(
                    old(self)@.new,
                    HDR_SIZE + len,
                    Seq::new((padded_len(len as int) - len) as nat, |i: int| 0u8),
                ),
                len,
                crc,
            );
        }
        RxAction::Commit { reply: ack(len), len, crc }
    }
}

/// Takes one event of an upload: a tag, the bytes that were asked for, or silence; gives
/// the next thing to do.
pub fn receive(r: &mut Receiver, e: RxEvent) -> (a: RxAction)
    requires
        old(r).wf(),
        old(r)@.takes(e@),
    ensures
        (final(r)@, a@) == receiver_step(old(r)@, e@),
        final(r).wf(),
{
    let phase = r.phase;
    match e {
        RxEvent::Tag(tag) => {
            if tag == TAG_DATA {
                r.phase = Phase::Header(tag);
                return RxAction::Read(12);
            }
            if tag == TAG_COPY {
                r.phase = Phase::Header(tag);
                return RxAction::Read(16);
            }
            if tag == TAG_COMMIT {
                r.phase = Phase::Header(tag);
                return RxAction::Read(8);
            }
            RxAction::ReplyResync(nak(tag as u32, NAK_UNKNOWN_TAG))
        },
        RxEvent::Bytes(b) => {
            match phase {
                Phase::Header(tag) => {
                    if tag == TAG_DATA {
                        r.data_header(&b)
                    } else if tag == TAG_COPY {
                        r.copy_message(&b)
                    } else {
                        r.commit_message(&b)
                    }
                },
                Phase::Payload { offset, len, crc } => {
                    copy_over(&mut r.new, HDR_SIZE + offset as usize, &b);
                    r.phase = Phase::Tag;
                    if crc::crc32(&b) != crc {
                        RxAction::Reply(nak(offset, NAK_BAD_CRC))
                    } else {
                        RxAction::Reply(ack(offset))
                    }
                },
                Phase::Tag => RxAction::Read(0),
            }
        },
        RxEvent::Timeout(b) => {
            match phase {
                Phase::Payload { offset, len, crc } => {
                    copy_over(&mut r.new, HDR_SIZE + offset as usize, &b);
                    r.phase = Phase::Tag;
                    RxAction::Reply(nak(offset, NAK_RX_TIMEOUT))
                },
                _ => {
                    r.phase = Phase::Tag;
                    RxAction::Reply(nak(0, NAK_RX_TIMEOUT))
                },
            }
        },
    }
}

/// A container that the receiver commits is valid, with the length and CRC of the commit.
pub proof fn committed_container_is_valid(v: ReceiverView, e: Event)
    requires
        v.wf(),
        v.takes(e),
        receiver_step(v, e).1 is Commit,
    ensures
        image::state_of(receiver_step(v, e).0.new) == (image::ImageState::Valid {
            len: receiver_step(v, e).1->len,
            crc: receiver_step(v, e).1->crc,
        }),
{
    let h = e->Bytes_0;
    let len = words::le32(h, 0);
    let crc = words::le32(h, 4);
    let c = overwritten(
        v.new,
        HDR_SIZE + len,
        Seq::new((padded_len(len as int) - len) as nat, |i: int| 0u8),
    );
    image::written_header_is_valid(c, len, crc);
    assert(c.subrange(HDR_SIZE as int, HDR_SIZE + len) =~= v.new.subrange(
        HDR_SIZE as int,
        HDR_SIZE + len,
    ));
}

/// A message that is refused for its range, its tag or the want of an old image leaves the
/// container as it was; and no event but a commit touches the header page.
pub proof fn refused_messages_change_nothing(v: ReceiverView, e: Event)
    requires
        v.wf(),
        v.takes(e),
    ensures
        ({
            let (w, a) = receiver_step(v, e);
            &&& v.phase == Phase::Tag ==> w.new == v.new
            &&& v.phase is Header && !(a is Commit) && !(a matches Action::Reply(r) && r
                == ack_bytes(words::le32(e->Bytes_0, 0))) ==> w.new == v.new
            &&& !(a is Commit) ==> w.new.take(HDR_SIZE as int) == v.new.take(HDR_SIZE as int)
            &&& w.old == v.old
            &&& w.wf()
        }),
{
    let (w, a) = receiver_step(v, e);
    if !(a is Commit) {
        assert(w.new.take(HDR_SIZE as int) =~= v.new.take(HDR_SIZE as int));
    } else {
        let h = e->Bytes_0;
        let len = words::le32(h, 0);
        let c = overwritten(
            v.new,
            HDR_SIZE + len,
            Seq::new((padded_len(len as int) - len) as nat, |i: int| 0u8),
        );
        image::written_header_is_valid(c, len, words::le32(h, 4));
    }
}

/// A `D` message that is taken leaves its bytes in place and touches nothing else.
pub proof fn data_lands_in_its_range(v: ReceiverView, b: Seq<u8>, i: int)
    requires
        v.wf(),
        v.takes(Event::Bytes(b)),
        v.phase is Payload,
        0 <= i < FILE_SIZE,
    ensures
        ({
            let at = HDR_SIZE + v.phase->offset;
            receiver_step(v, Event::Bytes(b)).0.new[i] == if at <= i < at + b.len() {
                b[i - at]
            } else {
                v.new[i]
            }
        }),
{
}

/// Whether `reply` refuses a message: the letter N, the echo, the reason.
pub open spec fn refuses(reply: Seq<u8>, echo: u32, reason: u8) -> bool {
    &&& reply.len() == 6
    &&& reply[0] == 0x4E
    &&& words::le32(reply, 1) == echo
    &&& reply[5] == reason
}

/// Whether `reply` takes a message: the letter A and the echo.
pub open spec fn takes_message(reply: Seq<u8>, echo: u32) -> bool {
    &&& reply.len() == 5
    &&& reply[0] == 0x41
    &&& words::le32(reply, 1) == echo
}

/// The replies are what the host expects.
pub proof fn replies_echo(echo: u32, reason: u8)
    ensures
        takes_message(ack_bytes(echo), echo),
        refuses(nak_bytes(echo, reason), echo, reason),
{
    words::le_bytes_read(ack_bytes(echo), 1, echo);
    words::le_bytes_read(nak_bytes(echo, reason), 1, echo);
}

/// A tag of the host is followed by reading the rest of its message: 12 bytes for data, 16 for a
/// copy, 8 for a commit. Any other byte is refused, and the line is skipped until it is quiet.
pub proof fn tags_start_messages(v: ReceiverView, tag: u8)
    requires
        v.wf(),
        v.phase == Phase::Tag,
    ensures
        ({
            let (w, a) = receiver_step(v, Event::Tag(tag));
            &&& w.new == v.new && w.old == v.old
            &&& tag == 0x44 || tag == 0x43 || tag == 0x4B ==> w.phase == Phase::Header(tag)
            &&& tag == 0x44 ==> a == Action::Read(12)
            &&& tag == 0x43 ==> a == Action::Read(16)
            &&& tag == 0x4B ==> a == Action::Read(8)
            &&& tag != 0x44 && tag != 0x43 && tag != 0x4B ==> w == v && (
            a matches Action::ReplyResync(r) && refuses(r, tag as u32, 5))
        }),
{
    replies_echo(tag as u32, 5);
}

/// A `D` header is taken exactly where its length is 1 to 65536 bytes and its range lies in the
/// payload; the bytes that follow are waited for, with the offset, length and CRC of the header.
pub proof fn data_headers_are_checked(v: ReceiverView, h: Seq<u8>)
    requires
        v.wf(),
        v.phase == Phase::Header(0x44),
        h.len() == 12,
    ensures
        ({
            let (w, a) = receiver_step(v, Event::Bytes(h));
            let offset = words::le32(h, 0);
            let len = words::le32(h, 4);
            &&& w.new == v.new && w.old == v.old
            &&& 0 < len <= 65536 && offset + len <= 0x00FF_F000 ==> a == Action::Read(len as nat)
                && w.phase == (Phase::Payload { offset, len, crc: words::le32(h, 8) })
            &&& !(0 < len <= 65536 && offset + len <= 0x00FF_F000) ==> w.phase == Phase::Tag && (
            a matches Action::ReplyResync(r) && refuses(r, offset, 2))
        }),
{
    replies_echo(words::le32(h, 0), 2);
}

/// The bytes of a `D` message are taken exactly where their CRC is the header's; a message that
/// breaks off is refused as late, and what came of it stays inside the range that it named.
pub proof fn data_is_checked(v: ReceiverView, b: Seq<u8>, i: int)
    requires
        v.wf(),
        v.phase is Payload,
        b.len() <= v.phase->len,
        0 <= i < FILE_SIZE,
    ensures
        ({
            let offset = v.phase->offset;
            let (w, a) = receiver_step(v, Event::Bytes(b));
            let (late, la) = receiver_step(v, Event::Timeout(b));
            &&& w.phase == Phase::Tag && w.old == v.old
            &&& a is Reply
            &&& crc::crc32_of(b) == v.phase->crc ==> takes_message(a->Reply_0, offset)
            &&& crc::crc32_of(b) != v.phase->crc ==> refuses(a->Reply_0, offset, 1)
            &&& late.phase == Phase::Tag && late.old == v.old
            &&& la matches Action::Reply(r) && refuses(r, offset, 3)
            &&& !(4096 + offset <= i < 4096 + offset + v.phase->len) ==> w.new[i] == v.new[i]
                && late.new[i] == v.new[i]
            &&& 4096 + offset <= i < 4096 + offset + b.len() ==> w.new[i] == b[i - 4096 - offset]
        }),
{
    replies_echo(v.phase->offset, 1);
    replies_echo(v.phase->offset, 3);
}

/// A `C` message is taken exactly where its CRC is right, there is an old payload, and its range
/// is not empty and lies in both payloads. Taken, it leaves each byte of its range as the old
/// payload has it at the old offset, and every other byte of the container as it was. Refused, it
/// changes nothing, and the reason is the first of these that fails.
pub proof fn copy_lands_in_its_range(v: ReceiverView, h: Seq<u8>, i: int)
    requires
        v.wf(),
        v.phase == Phase::Header(0x43),
        h.len() == 16,
        0 <= i < FILE_SIZE,
    ensures
        ({
            let (w, a) = receiver_step(v, Event::Bytes(h));
            let new_off = words::le32(h, 0);
            let old_off = words::le32(h, 4);
            let len = words::le32(h, 8);
            let sound = crc::crc32_of(h.take(12)) == words::le32(h, 12);
            let at = 4096 + new_off;
            &&& w.phase == Phase::Tag && w.old == v.old && a is Reply
            &&& !sound ==> refuses(a->Reply_0, new_off, 1)
            &&& sound && v.old is None ==> refuses(a->Reply_0, new_off, 4)
            &&& !sound || v.old is None ==> w.new == v.new
            &&& sound && v.old is Some ==> {
                let o = v.old->0;
                let fits = 0 < len && new_off + len <= 0x00FF_F000 && old_off + len <= o.len();
                &&& fits ==> takes_message(a->Reply_0, new_off)
                &&& fits ==> w.new.len() == v.new.len()
                &&& fits && at <= i < at + len ==> w.new[i] == o[old_off + (i - at)]
                &&& fits && !(at <= i < at + len) ==> w.new[i] == v.new[i]
                &&& !fits ==> refuses(a->Reply_0, new_off, 2) && w.new == v.new
            }
        }),
{
    let new_off = words::le32(h, 0);
    replies_echo(new_off, 1);
    replies_echo(new_off, 2);
    replies_echo(new_off, 4);
}

/// A `K` message is taken exactly where its length is 1 to the largest payload and its CRC is that
/// of the payload received. Taken, it leaves the payload as it was received, zeroes behind it up
/// to the next full page, and nothing else behind the header page changed. Refused, it changes
/// nothing.
pub proof fn commit_keeps_the_payload(v: ReceiverView, h: Seq<u8>, i: int)
    requires
        v.wf(),
        v.phase == Phase::Header(0x4B),
        h.len() == 8,
        0 <= i < 0x00FF_F000,
    ensures
        ({
            let (w, a) = receiver_step(v, Event::Bytes(h));
            let len = words::le32(h, 0);
            let crc = words::le32(h, 4);
            let ranged = 0 < len <= 0x00FF_F000;
            let sound = ranged && crc::crc32_of(v.new.subrange(4096, 4096 + len)) == crc;
            &&& w.phase == Phase::Tag && w.old == v.old
            &&& !ranged ==> w.new == v.new && (a matches Action::Reply(r) && refuses(r, len, 2))
            &&& ranged && !sound ==> w.new == v.new && (a matches Action::Reply(r) && refuses(
                r,
                len,
                1,
            ))
            &&& sound ==> (a matches Action::Commit { reply, len: l, crc: c } && takes_message(
                reply,
                len,
            ) && l == len && c == crc)
            &&& sound && i < len ==> w.new[4096 + i] == v.new[4096 + i]
            &&& sound && i >= len && i / 4096 == (len - 1) / 4096 ==> w.new[4096 + i] == 0
            &&& sound && i / 4096 > (len - 1) / 4096 ==> w.new[4096 + i] == v.new[4096 + i]
        }),
{
    let len = words::le32(h, 0);
    let crc = words::le32(h, 4);
    replies_echo(len, 1);
    replies_echo(len, 2);
    if 0 < len <= MAX_PAYLOAD {
        let c = overwritten(
            v.new,
            HDR_SIZE + len,
            Seq::new((padded_len(len as int) - len) as nat, |i: int| 0u8),
        );
        image::written_header_is_valid(c, len, crc);
        assert(image::with_header(c, len, crc)[4096 + i] == c[4096 + i]);
    }
}

/// A message whose header breaks off is refused as late and changes nothing.
pub proof fn late_headers_are_refused(v: ReceiverView, b: Seq<u8>)
    requires
        v.wf(),
        v.phase is Header,
    ensures
        ({
            let (w, a) = receiver_step(v, Event::Timeout(b));
            &&& w == v.idle()
            &&& w.new == v.new && w.old == v.old && w.phase == Phase::Tag
            &&& a matches Action::Reply(r) && refuses(r, 0, 3)
        }),
{
    replies_echo(0, 3);
}

proof fn entry_at(table: Seq<(u32, u32)>, n: int, j: int)
    requires
        0 <= j < n <= table.len(),
    ensures
        entry_bytes(table, n).len() == 8 * n,
        entry_bytes(table, n).subrange(8 * j, 8 * j + 4) == words::le_bytes(table[j].0),
        entry_bytes(table, n).subrange(8 * j + 4, 8 * j + 8) == words::le_bytes(table[j].1),
    decreases n,
{
    entry_len(table, n);
    entry_len(table, n - 1);
    let e = entry_bytes(table, n);
    let p = entry_bytes(table, n - 1);
    if j < n - 1 {
        entry_at(table, n - 1, j);
        assert(e.subrange(8 * j, 8 * j + 4) =~= p.subrange(8 * j, 8 * j + 4));
        assert(e.subrange(8 * j + 4, 8 * j + 8) =~= p.subrange(8 * j + 4, 8 * j + 8));
    } else {
        assert(e.subrange(8 * j, 8 * j + 4) =~= words::le_bytes(table[j].0));
        assert(e.subrange(8 * j + 4, 8 * j + 8) =~= words::le_bytes(table[j].1));
    }
}

proof fn entry_len(table: Seq<(u32, u32)>, n: int)
    requires
        0 <= n <= table.len(),
    ensures
        entry_bytes(table, n).len() == 8 * n,
    decreases n,
{
    if n > 0 {
        entry_len(table, n - 1);
    }
}

/// The table message carries the table: the letter T, the entry count, for each entry its Adler-32
/// and its CRC-32, and at the end the CRC-32 of all the entries' bytes.
pub proof fn table_message_carries_the_table(table: Seq<(u32, u32)>, j: int)
    requires
        table.len() <= MAX_PAYLOAD / TABLE_BLOCK,
    ensures
        ({
            let t = table_message(table);
            let n = table.len() as int;
            &&& t.len() == 9 + 8 * n
            &&& t[0] == 0x54
            &&& words::le32(t, 1) == n
            &&& 0 <= j < n ==> words::le32(t, 5 + 8 * j) == table[j].0
            &&& 0 <= j < n ==> words::le32(t, 9 + 8 * j) == table[j].1
            &&& words::le32(t, 5 + 8 * n) == crc::crc32_of(t.subrange(5, 5 + 8 * n))
        }),
{
    let t = table_message(table);
    let n = table.len() as int;
    let e = entry_bytes(table, n);
    entry_len(table, n);
    assert(t.subrange(5, 5 + 8 * n) =~= e);
    words::le_bytes_read(t, 1, n as u32);
    if 0 <= j < n {
        entry_at(table, n, j);
        let a = e.subrange(8 * j, 8 * j + 4);
        let c = e.subrange(8 * j + 4, 8 * j + 8);
        assert(a[0] == t[5 + 8 * j] && a[1] == t[6 + 8 * j] && a[2] == t[7 + 8 * j] && a[3] == t[8
            + 8 * j]);
        assert(c[0] == t[9 + 8 * j] && c[1] == t[10 + 8 * j] && c[2] == t[11 + 8 * j] && c[3] == t[
        12 + 8 * j]);
        words::le_bytes_read(t, 5 + 8 * j, table[j].0);
        words::le_bytes_read(t, 9 + 8 * j, table[j].1);
    }
    words::le_bytes_read(t, 5 + 8 * n, crc::crc32_of(e));
}

/// A read of a fixed number of bytes, with the start of the silence that may end it.
pub struct ReadExact {
    pub want: usize,
    pub got: Vec<u8>,
    pub gap_start: Option<u64>,
}

/// How a read stands.
#[derive(Clone, Copy, PartialEq, Eq, Structural)]
pub enum ReadState {
    /// More bytes are needed.
    Pending,
    /// All bytes are there.
    Done,
    /// The line was quiet too long.
    TimedOut,
}

impl ReadExact {
    /// A read of `want` bytes.
    pub fn new(want: usize) -> (r: Self)
        ensures
            r.want == want,
            r.got@.len() == 0,
            r.gap_start is None,
    {
        ReadExact { want, got: Vec::new(), gap_start: None }
    }
}

/// Takes one event of a read. The clock is looked at only when nothing has come: the first
/// such time starts the silence, and a later one ends the read once it has lasted.
pub fn read_exact(r: &mut ReadExact, e: LineEvent) -> (s: ReadState)
    requires
        old(r).got@.len() < old(r).want,
    ensures
        final(r).want == old(r).want,
        match e {
            LineEvent::Byte(b) => {
                &&& final(r).got@ == old(r).got@.push(b)
                &&& final(r).gap_start is None
                &&& s == if final(r).got@.len() == final(r).want {
                    ReadState::Done
                } else {
                    ReadState::Pending
                }
            },
            LineEvent::Idle(now) => {
                &&& final(r).got@ == old(r).got@
                &&& match old(r).gap_start {
                    None => s == ReadState::Pending && final(r).gap_start == Some(now),
                    Some(t) => {
                        &&& final(r).gap_start == Some(t)
                        &&& s == if now.wrapping_sub(t) > MSG_BYTE_TIMEOUT_US {
                            ReadState::TimedOut
                        } else {
                            ReadState::Pending
                        }
                    },
                }
            },
        },
{
    match e {
        LineEvent::Byte(b) => {
            r.got.push(b);
            r.gap_start = None;
            if r.got.len() == r.want {
                ReadState::Done
            } else {
                ReadState::Pending
            }
        },
        LineEvent::Idle(now) => {
            match r.gap_start {
                None => {
                    r.gap_start = Some(now);
                    ReadState::Pending
                },
                Some(t) => {
                    if now.wrapping_sub(t) > MSG_BYTE_TIMEOUT_US {
                        ReadState::TimedOut
                    } else {
                        ReadState::Pending
                    }
                },
            }
        },
    }
}

/// Takes one look at the line while input is skipped: `got` tells whether a byte came, at
/// time `now`. Tells whether the line has been quiet for `silence_us`; a byte starts the
/// wait again.
pub fn drain_until_quiet(quiet_since: &mut u64, silence_us: u64, got: bool, now: u64) -> (done: bool)
    ensures
        *final(quiet_since) == if got {
            now
        } else {
            *old(quiet_since)
        },
        done == (!got && now.wrapping_sub(*old(quiet_since)) >= silence_us),
{
    if got {
        *quiet_since = now;
        false
    } else {
        now.wrapping_sub(*quiet_since) >= silence_us
    }
}

} // verus!

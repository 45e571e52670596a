//! A compact rendering of references in guest memory: one line, with as many levels of
//! structure as asked for.

use crate::guest_endian;
use crate::guest_endian::{guest_read_bytes_va, guest_read_u32_va};
use crate::guest_mem::{GuestMem, MemView};
use crate::newton_objects;
use crate::newton_objects::{Ref, RefKind, NIL, SYMBOL_CLASS, TRUE};
use crate::text;
use crate::text::{push_dec, push_hex, push_int, push_numeral, push_text, utf8_text};
use vstd::prelude::*;

verus! {

pub const KOBJ_SLOTTED: u8 = 0x01;

pub const KOBJ_FRAME: u8 = 0x02;

/// The object has moved: its class word refers to where it is now.
pub const KOBJ_FORWARDED: u8 = 0x20;

/// Moves that are followed.
pub const MAX_FORWARD_HOPS: u32 = 8;

/// Slots that are shown.
pub const LIMIT: usize = 8;

/// Characters of a string that are shown.
pub const MAX_CHARS: usize = 48;

/// Bytes of a symbol's name that are shown.
pub const NAME_CAP: usize = 96;

/// Bytes of a frame slot's name that are shown.
pub const SLOT_NAME_CAP: usize = 64;

/// Bytes of a class's name that are read.
pub const CLASS_NAME_CAP: usize = 32;

/// Maps of a frame that are searched for a slot's name.
pub const MAX_MAPS: u32 = 8;

/// A character of a string, with what does not print escaped.
pub open spec fn string_char(c: u16) -> Seq<char> {
    if c == 0x5C {
        "\\\\"@
    } else if c == 0x22 {
        "\\\""@
    } else if 0x20 <= c < 0x7F {
        seq![c as char]
    } else {
        "\\u"@ + text::hex_pad(c as nat, 4)
    }
}

/// A character by itself.
pub open spec fn char_literal(c: u16) -> Seq<char> {
    if 0x20 <= c < 0x7F {
        "$"@ + seq![c as char]
    } else {
        "$\\u"@ + text::hex_pad(c as nat, 4)
    }
}

/// A reference that is no pointer.
pub open spec fn immediate_text(r: u32) -> Seq<char> {
    if r == TRUE {
        "true"@
    } else if r == NIL {
        "nil"@
    } else {
        match newton_objects::kind_of(r) {
            RefKind::Integer(i) => text::int_text(i as int),
            RefKind::Character(c) => char_literal(c),
            RefKind::MagicPointer { table, index } => "@"@ + text::dec(table as nat) + "."@
                + text::dec(index as nat),
            _ => "<? #"@ + text::hex(r as nat) + ">"@,
        }
    }
}

fn push_char(out: &mut String, c: u16)
    requires
        c < 0x80,
    ensures
        final(out)@ == old(out)@ + seq![c as char],
{
    out.push((c as u8) as char);
    assert(out@ =~= old(out)@ + seq![c as char]);
}

/// Appends a character of a string.
pub fn write_string_char(out: &mut String, c: u16)
    ensures
        final(out)@ == old(out)@ + string_char(c),
{
    if c == 0x5C {
        push_text(out, "\\\\");
    } else if c == 0x22 {
        push_text(out, "\\\"");
    } else if c >= 0x20 && c < 0x7F {
        push_char(out, c);
    } else {
        push_text(out, "\\u");
        push_numeral(out, c as u64, 16, 4);
        assert(out@ =~= old(out)@ + string_char(c));
    }
}

/// Appends a character by itself.
pub fn write_char_literal(out: &mut String, c: u16)
    ensures
        final(out)@ == old(out)@ + char_literal(c),
{
    if c >= 0x20 && c < 0x7F {
        push_text(out, "$");
        push_char(out, c);
    } else {
        push_text(out, "$\\u");
        push_numeral(out, c as u64, 16, 4);
    }
    assert(out@ =~= old(out)@ + char_literal(c));
}

fn write_immediate(out: &mut String, r: u32)
    ensures
        final(out)@ == old(out)@ + immediate_text(r),
{
    if r == TRUE {
        push_text(out, "true");
        return ;
    }
    if r == NIL {
        push_text(out, "nil");
        return ;
    }
    match Ref(r).kind() {
        RefKind::Integer(i) => push_int(out, i),
        RefKind::Character(c) => write_char_literal(out, c),
        RefKind::MagicPointer { table, index } => {
            push_text(out, "@");
            push_dec(out, table as u64);
            push_text(out, ".");
            push_dec(out, index as u64);
        },
        _ => {
            push_text(out, "<? #");
            push_hex(out, r);
            push_text(out, ">");
        },
    }
    assert(out@ =~= old(out)@ + immediate_text(r));
}

/// Word `i` behind `addr`, or dashes.
pub open spec fn raw_word_text(m: MemView, addr: u32, i: int) -> Seq<char> {
    match guest_endian::value_va(m, addr.wrapping_add((4 * i) as u32)) {
        Some(w) => text::hex_pad(w as nat, 8),
        None => "--------"@,
    }
}

/// The first `n` words at `addr`, with spaces between them.
pub open spec fn raw_words_text(m: MemView, addr: u32, n: int) -> Seq<char>
    decreases n,
{
    if n <= 0 {
        seq![]
    } else {
        raw_words_text(m, addr, n - 1) + (if n > 1 {
            " "@
        } else {
            seq![]
        }) + raw_word_text(m, addr, n - 1)
    }
}

/// What is shown of an object that could not be made sense of.
pub open spec fn squirrely_text(m: MemView, addr: u32, r: u32) -> Seq<char> {
    "<? #"@ + text::hex(r as nat) + " ["@ + raw_words_text(m, addr, 8) + "]>"@
}

/// Appends the raw words of an object that could not be made sense of.
pub fn write_squirrely_at(out: &mut String, mem: &GuestMem, addr: u32, ref_value: u32)
    requires
        mem.wf(),
    ensures
        final(out)@ == old(out)@ + squirrely_text(mem@, addr, ref_value),
{
    push_text(out, "<? #");
    push_hex(out, ref_value);
    push_text(out, " [");
    let ghost head = out@;
    let mut i: u32 = 0;
    while i < 8
        invariant
            i <= 8,
            mem.wf(),
            out@ =~= head + raw_words_text(mem@, addr, i as int),
        decreases 8 - i,
    {
        if i > 0 {
            push_text(out, " ");
        }
        match guest_read_u32_va(mem, addr.wrapping_add(i * 4)) {
            Some(w) => push_numeral(out, w as u64, 16, 8),
            None => push_text(out, "--------"),
        }
        assert(out@ =~= head + raw_words_text(mem@, addr, i + 1));
        i = i + 1;
    }
    push_text(out, "]>");
    assert(out@ =~= old(out)@ + squirrely_text(mem@, addr, ref_value));
}

/// What the header of an object says.
#[derive(Clone, Copy, PartialEq, Eq, Structural)]
pub struct ObjHeader {
    pub size: u32,
    pub flags: u8,
    /// The class of a binary or an array, the map of a frame.
    pub class_or_map: u32,
}

/// The header at `addr`: readable, and of an object with room for one.
pub open spec fn header_at(m: MemView, addr: u32) -> Option<ObjHeader> {
    match (guest_endian::value_va(m, addr), guest_endian::value_va(m, addr.wrapping_add(8))) {
        (Some(w), Some(class_or_map)) if w / 256 >= 12 => Some(
            ObjHeader { size: w / 256, flags: (w % 256) as u8, class_or_map },
        ),
        _ => None,
    }
}

/// Reads the header at `addr`.
pub fn read_obj_header(mem: &GuestMem, addr: u32) -> (h: Option<ObjHeader>)
    requires
        mem.wf(),
    ensures
        h == header_at(mem@, addr),
{
    let w0: u32 = match guest_read_u32_va(mem, addr) {
        Some(w) => w,
        None => {
            return None;
        },
    };
    let class_or_map: u32 = match guest_read_u32_va(mem, addr.wrapping_add(8)) {
        Some(w) => w,
        None => {
            return None;
        },
    };
    let size: u32 = w0 / 256;
    let flags: u8 = (w0 % 256) as u8;
    if size < 12 {
        return None;
    }
    Some(ObjHeader { size, flags, class_or_map })
}

/// Where following the moves of an object leads.
#[derive(Clone, Copy, PartialEq, Eq, Structural)]
pub enum End {
    /// An object that has not moved on.
    Found(ObjHeader),
    /// A header that cannot be read.
    Unreadable,
    /// A reference that is no pointer.
    Immediate,
    /// More moves than are followed.
    TooFar,
}

/// The end of a chain of moves: how many there were, and the last address and reference.
#[derive(Clone, Copy, PartialEq, Eq, Structural)]
pub struct Followed {
    pub hops: u32,
    pub addr: u32,
    pub ref_value: u32,
    pub end: End,
}

/// Where the moves of the object at `addr` lead, `hops` of them having been followed.
pub open spec fn followed(m: MemView, addr: u32, r: u32, hops: u32) -> Followed
    decreases 9 - hops,
{
    match header_at(m, addr) {
        None => Followed { hops, addr, ref_value: r, end: End::Unreadable },
        Some(h) => if h.flags & KOBJ_FORWARDED == 0 {
            Followed { hops, addr, ref_value: r, end: End::Found(h) }
        } else if hops >= 8 {
            Followed { hops: (hops + 1) as u32, addr, ref_value: r, end: End::TooFar }
        } else {
            match newton_objects::pointer_of(h.class_or_map) {
                Some(a) => followed(m, a, h.class_or_map, (hops + 1) as u32),
                None => Followed {
                    hops: (hops + 1) as u32,
                    addr,
                    ref_value: h.class_or_map,
                    end: End::Immediate,
                },
            }
        },
    }
}

/// Follows the moves of the object at `addr`.
pub fn follow(mem: &GuestMem, addr: u32, ref_value: u32) -> (f: Followed)
    requires
        mem.wf(),
    ensures
        f == followed(mem@, addr, ref_value, 0),
        f.hops <= 9,
        f.end is Found ==> f.end->Found_0.size >= 12,
{
    let mut cur_addr: u32 = addr;
    let mut cur_ref: u32 = ref_value;
    let mut hops: u32 = 0;
    loop
        invariant
            mem.wf(),
            hops <= 8,
            followed(mem@, addr, ref_value, 0) == followed(mem@, cur_addr, cur_ref, hops),
        decreases 9 - hops,
    {
        let h = match read_obj_header(mem, cur_addr) {
            Some(h) => h,
            None => {
                return Followed {
                    hops,
                    addr: cur_addr,
                    ref_value: cur_ref,
                    end: End::Unreadable,
                };
            },
        };
        if h.flags & KOBJ_FORWARDED == 0 {
            return Followed { hops, addr: cur_addr, ref_value: cur_ref, end: End::Found(h) };
        }
        hops = hops + 1;
        if hops > MAX_FORWARD_HOPS {
            return Followed { hops, addr: cur_addr, ref_value: cur_ref, end: End::TooFar };
        }
        match Ref(h.class_or_map).pointer_offset() {
            Some(a) => {
                cur_addr = a;
                cur_ref = h.class_or_map;
            },
            None => {
                return Followed {
                    hops,
                    addr: cur_addr,
                    ref_value: h.class_or_map,
                    end: End::Immediate,
                };
            },
        }
    }
}

/// The object that the moves of the one at `addr` lead to.
pub open spec fn resolved(m: MemView, addr: u32) -> Option<(u32, ObjHeader)> {
    match followed(m, addr, 0, 0) {
        Followed { addr, end: End::Found(h), .. } => Some((addr, h)),
        _ => None,
    }
}

/// The object that the moves of the one at `addr` lead to, if they lead to one.
pub fn resolve_forwarding(mem: &GuestMem, addr: u32) -> (r: Option<(u32, ObjHeader)>)
    requires
        mem.wf(),
    ensures
        r == resolved(mem@, addr),
        r matches Some((_, h)) ==> h.size >= 12,
{
    let f = follow(mem, addr, 0);
    match f.end {
        End::Found(h) => Some((f.addr, h)),
        _ => None,
    }
}

/// The whole words in which a name of `room` bytes is read into a buffer of `cap` bytes: enough
/// for the name, as far as they fit.
pub open spec fn name_words(room: int, cap: int) -> int {
    if (room + 3) / 4 * 4 <= cap {
        (room + 3) / 4
    } else {
        cap / 4
    }
}

/// The name of the symbol at `addr`: its bytes behind the hash, at most `cap` of them, up to
/// a zero, to the first word that cannot be read or to the first that does not fit. `None`
/// where there is not one word.
pub open spec fn symbol_name(m: MemView, addr: u32, size: u32, cap: int) -> Option<Seq<u8>> {
    let room = if size < 16 {
        0
    } else if size - 16 < cap {
        size - 16
    } else {
        cap
    };
    let run = guest_endian::readable_run(m, addr.wrapping_add(16), name_words(room, cap));
    if run == 0 {
        None
    } else {
        let bytes = guest_endian::bytes_of_words(m, addr.wrapping_add(16), run);
        let there = bytes.take(
            if 4 * run < room {
                4 * run
            } else {
                room
            },
        );
        Some(there.take(newton_objects::zero_at(there, 0)))
    }
}

/// Reads the name of the symbol at `addr`.
fn read_name_at(mem: &GuestMem, addr: u32, size: u32, cap: usize) -> (name: Option<Vec<u8>>)
    requires
        mem.wf(),
    ensures
        match symbol_name(mem@, addr, size, cap as int) {
            Some(n) => name is Some && name->0@ == n,
            None => name is None,
        },
{
    let beyond: u32 = size.saturating_sub(16);
    let room: usize = if (beyond as u64) < cap as u64 {
        beyond as usize
    } else {
        cap
    };
    let rounded: usize = (room + 3) / 4 * 4;
    let read_len: usize = if rounded <= cap {
        rounded
    } else {
        cap
    };
    let start: u32 = addr.wrapping_add(16);
    let mut bytes = match guest_read_bytes_va(mem, start, read_len) {
        Some(b) => b,
        None => {
            return None;
        },
    };
    let ghost words = guest_endian::readable_run(
        mem@,
        start,
        name_words(room as int, cap as int),
    );
    let ghost all = bytes@;
    proof {
        assert(read_len as int / 4 == name_words(room as int, cap as int));
        guest_endian::run_bytes(mem@, start, words, 0, 0);
    }
    let there: usize = if bytes.len() < room {
        bytes.len()
    } else {
        room
    };
    let ghost shown = all.take(there as int);
    let mut end: usize = 0;
    while end < there && bytes[end] != 0
        invariant
            end <= there <= bytes@.len(),
            bytes@ == all,
            shown == all.take(there as int),
            newton_objects::zero_at(shown, 0) == newton_objects::zero_at(shown, end as int),
        decreases there - end,
    {
        assert(shown[end as int] == all[end as int]);
        end = end + 1;
    }
    assert(newton_objects::zero_at(shown, 0) == end);
    bytes.truncate(end);
    assert(bytes@ =~= shown.take(end as int));
    Some(bytes)
}

/// The name of the symbol that a reference leads to, empty where it leads to none.
pub open spec fn symbol_name_of(m: MemView, r: u32, cap: int) -> Seq<u8> {
    match newton_objects::pointer_of(r) {
        None => seq![],
        Some(addr) => match resolved(m, addr) {
            None => seq![],
            Some((at, h)) => if h.flags & KOBJ_SLOTTED != 0 || h.class_or_map != SYMBOL_CLASS {
                seq![]
            } else {
                match symbol_name(m, at, h.size, cap) {
                    Some(n) => n,
                    None => seq![],
                }
            },
        },
    }
}

/// Reads the name of the symbol that a reference leads to.
pub fn read_symbol_name_into(mem: &GuestMem, r: u32, cap: usize) -> (name: Vec<u8>)
    requires
        mem.wf(),
    ensures
        name@ == symbol_name_of(mem@, r, cap as int),
{
    let none: Vec<u8> = Vec::new();
    assert(none@ =~= seq![]);
    let addr: u32 = match Ref(r).pointer_offset() {
        Some(a) => a,
        None => {
            return none;
        },
    };
    let (at, h) = match resolve_forwarding(mem, addr) {
        Some(x) => x,
        None => {
            return none;
        },
    };
    if h.flags & KOBJ_SLOTTED != 0 || h.class_or_map != SYMBOL_CLASS {
        return none;
    }
    match read_name_at(mem, at, h.size, cap) {
        Some(n) => n,
        None => none,
    }
}

/// The name of slot `idx` of a frame with `remaining` slots and map `map_ref`: a map's slots,
/// behind the first, name the last slots of the frame, and the map in its first slot those
/// before them. At most `fuel` maps are looked at.
pub open spec fn slot_name(
    m: MemView,
    map_ref: u32,
    idx: int,
    remaining: int,
    fuel: nat,
    cap: int,
) -> Seq<u8>
    decreases fuel,
{
    if fuel == 0 {
        seq![]
    } else {
        match newton_objects::pointer_of(map_ref) {
            None => seq![],
            Some(raw) => match resolved(m, raw) {
                None => seq![],
                Some((at, h)) => {
                    let local = map_names(h.size);
                    let above = if remaining > local {
                        remaining - local
                    } else {
                        0
                    };
                    if h.flags & KOBJ_SLOTTED == 0 {
                        seq![]
                    } else if idx < above {
                        match guest_endian::value_va(m, at.wrapping_add(12)) {
                            Some(s) => slot_name(m, s, idx, above, (fuel - 1) as nat, cap),
                            None => seq![],
                        }
                    } else if idx - above >= local {
                        seq![]
                    } else {
                        match guest_endian::value_va(
                            m,
                            at.wrapping_add((12 + 4 * (1 + idx - above)) as u32),
                        ) {
                            Some(n) => symbol_name_of(m, n, cap),
                            None => seq![],
                        }
                    }
                },
            },
        }
    }
}

/// The names that a map of `size` bytes holds.
pub open spec fn map_names(size: u32) -> int {
    if size >= 16 {
        (size - 12) / 4 - 1
    } else {
        0
    }
}

/// Reads the name of slot `slot_idx` of a frame with `frame_len` slots.
pub fn resolve_slot_name_into(
    mem: &GuestMem,
    map_ref_value: u32,
    slot_idx: usize,
    frame_len: usize,
    cap: usize,
) -> (name: Vec<u8>)
    requires
        mem.wf(),
    ensures
        name@ == slot_name(
            mem@,
            map_ref_value,
            slot_idx as int,
            frame_len as int,
            MAX_MAPS as nat,
            cap as int,
        ),
{
    let none: Vec<u8> = Vec::new();
    assert(none@ =~= seq![]);
    let mut current: u32 = map_ref_value;
    let mut remaining: usize = frame_len;
    let mut left: u32 = MAX_MAPS;
    while left > 0
        invariant
            left <= MAX_MAPS,
            mem.wf(),
            none@ == Seq::<u8>::empty(),
            slot_name(
                mem@,
                map_ref_value,
                slot_idx as int,
                frame_len as int,
                MAX_MAPS as nat,
                cap as int,
            ) == slot_name(
                mem@,
                current,
                slot_idx as int,
                remaining as int,
                left as nat,
                cap as int,
            ),
        decreases left,
    {
        let raw: u32 = match Ref(current).pointer_offset() {
            Some(a) => a,
            None => {
                return none;
            },
        };
        let (at, h) = match resolve_forwarding(mem, raw) {
            Some(x) => x,
            None => {
                return none;
            },
        };
        if h.flags & KOBJ_SLOTTED == 0 {
            return none;
        }
        proof {
            header_size_bound(mem@, raw, 0, 0);
        }
        let arr_len: u32 = (h.size - 12) / 4;
        let local_count: u32 = arr_len.saturating_sub(1);
        let super_count: usize = remaining.saturating_sub(local_count as usize);
        if slot_idx < super_count {
            match guest_read_u32_va(mem, at.wrapping_add(12)) {
                Some(s) => {
                    current = s;
                },
                None => {
                    return none;
                },
            }
            remaining = super_count;
            left = left - 1;
        } else {
            let local_idx: usize = slot_idx - super_count;
            if local_idx >= local_count as usize {
                return none;
            }
            let name_va: u32 = at.wrapping_add(12 + (1 + local_idx as u32) * 4);
            return match guest_read_u32_va(mem, name_va) {
                Some(n) => read_symbol_name_into(mem, n, cap),
                None => none,
            };
        }
    }
    none
}

proof fn header_size_bound(m: MemView, addr: u32, r: u32, hops: u32)
    ensures
        ({
            let f = followed(m, addr, r, hops);
            f.end is Found ==> f.end->Found_0.size < 0x100_0000
        }),
    decreases 9 - hops,
{
    match header_at(m, addr) {
        None => {},
        Some(h) => {
            if h.flags & KOBJ_FORWARDED != 0 && hops < 8 {
                match newton_objects::pointer_of(h.class_or_map) {
                    Some(a) => header_size_bound(m, a, h.class_or_map, (hops + 1) as u32),
                    None => {},
                }
            }
        },
    }
}

/// Bytes as text, or `alt` where they are not UTF-8.
pub open spec fn text_or(bytes: Seq<u8>, alt: Seq<char>) -> Seq<char> {
    if vstd::utf8::valid_utf8(bytes) {
        vstd::utf8::decode_utf8(bytes)
    } else {
        alt
    }
}

/// A symbol: its name behind a quote.
pub open spec fn symbol_text(m: MemView, addr: u32, size: u32, r: u32) -> Seq<char> {
    match symbol_name(m, addr, size, NAME_CAP as int) {
        Some(n) if vstd::utf8::valid_utf8(n) => "'"@ + vstd::utf8::decode_utf8(n),
        _ => squirrely_text(m, addr, r),
    }
}

/// Appends a symbol.
pub fn write_symbol_name_at(out: &mut String, mem: &GuestMem, addr: u32, size: u32, ref_value: u32)
    requires
        mem.wf(),
    ensures
        final(out)@ == old(out)@ + symbol_text(mem@, addr, size, ref_value),
{
    match read_name_at(mem, addr, size, NAME_CAP) {
        Some(n) => {
            match utf8_text(n.as_slice()) {
                Some(s) => {
                    push_text(out, "'");
                    push_text(out, s);
                },
                None => write_squirrely_at(out, mem, addr, ref_value),
            }
        },
        None => write_squirrely_at(out, mem, addr, ref_value),
    }
    assert(out@ =~= old(out)@ + symbol_text(mem@, addr, size, ref_value));
}

/// Unit `i` of a string whose body is at `base`: two to a word, the first in the upper half.
pub open spec fn string_unit(m: MemView, base: u32, i: int) -> Option<u16> {
    match guest_endian::value_va(m, base.wrapping_add((i / 2 * 4) as u32)) {
        Some(w) => Some(
            (if i % 2 == 0 {
                w / 0x1_0000
            } else {
                w % 0x1_0000
            }) as u16,
        ),
        None => None,
    }
}

/// The characters of a string from unit `i` on, before unit `end`, before a zero, and before
/// a word that cannot be read.
pub open spec fn string_chars(m: MemView, base: u32, i: int, end: int) -> Seq<char>
    decreases end - i,
{
    if i >= end {
        seq![]
    } else {
        match string_unit(m, base, i) {
            Some(c) if c != 0 => string_char(c) + string_chars(m, base, i + 1, end),
            _ => seq![],
        }
    }
}

/// The units in the body of an object of `size` bytes.
pub open spec fn body_units(size: u32) -> int {
    if size < 12 {
        0
    } else {
        (size - 12) / 2
    }
}

/// A string in quotes, cut short if it is long.
pub open spec fn string_text(m: MemView, addr: u32, size: u32) -> Seq<char> {
    let n = body_units(size);
    "\""@ + string_chars(
        m,
        addr.wrapping_add(12),
        0,
        if n < MAX_CHARS {
            n
        } else {
            MAX_CHARS as int
        },
    ) + (if n > MAX_CHARS {
        "..."@
    } else {
        seq![]
    }) + "\""@
}

/// Appends a string.
pub fn write_string_body_at(out: &mut String, mem: &GuestMem, addr: u32, size: u32)
    requires
        mem.wf(),
    ensures
        final(out)@ == old(out)@ + string_text(mem@, addr, size),
{
    push_text(out, "\"");
    let body_chars: u32 = size.saturating_sub(12) / 2;
    let take: u32 = if body_chars < MAX_CHARS as u32 {
        body_chars
    } else {
        MAX_CHARS as u32
    };
    let base: u32 = addr.wrapping_add(12);
    let ghost head = out@;
    let ghost all = string_chars(mem@, base, 0, take as int);
    let mut i: u32 = 0;
    let mut more: bool = true;
    while more && i < take
        invariant
            mem.wf(),
            i <= take <= MAX_CHARS,
            all == string_chars(mem@, base, 0, take as int),
            more ==> out@ + string_chars(mem@, base, i as int, take as int) =~= head + all,
            !more ==> out@ =~= head + all,
        decreases
                take - i,
                (if more {
                    1int
                } else {
                    0
                }),
    {
        match guest_read_u32_va(mem, base.wrapping_add(i / 2 * 4)) {
            None => {
                more = false;
            },
            Some(w) => {
                let c: u16 = if i % 2 == 0 {
                    (w / 0x1_0000) as u16
                } else {
                    (w % 0x1_0000) as u16
                };
                assert(string_unit(mem@, base, i as int) == Some(c));
                if c == 0 {
                    more = false;
                } else {
                    write_string_char(out, c);
                    i = i + 1;
                }
            },
        }
    }
    if body_chars > MAX_CHARS as u32 {
        push_text(out, "...");
    }
    push_text(out, "\"");
    assert(out@ =~= old(out)@ + string_text(mem@, addr, size));
}

/// A binary: a symbol by its name, a string by its text, anything else by its class and its
/// length.
pub open spec fn binary_text(m: MemView, addr: u32, r: u32, size: u32, class: u32) -> Seq<char> {
    let name = text_or(symbol_name_of(m, class, CLASS_NAME_CAP as int), seq![]);
    let bytes = text::dec((size - 12) as nat);
    if class == SYMBOL_CLASS {
        symbol_text(m, addr, size, r)
    } else if name == "string"@ {
        string_text(m, addr, size)
    } else if name.len() == 0 {
        "<bin class=#"@ + text::hex(class as nat) + " "@ + bytes + " bytes>"@
    } else {
        "<bin '"@ + name + " "@ + bytes + " bytes>"@
    }
}

/// Whether `bytes` are the text of `s`.
fn bytes_are(bytes: &[u8], s: &str) -> (same: bool)
    ensures
        same == (vstd::utf8::valid_utf8(bytes@) && vstd::utf8::decode_utf8(bytes@) == s@),
{
    let other = s.as_bytes();
    proof {
        vstd::utf8::encode_utf8_valid_utf8(s@);
        vstd::utf8::encode_utf8_decode_utf8(s@);
        if vstd::utf8::valid_utf8(bytes@) {
            vstd::utf8::decode_utf8_encode_utf8(bytes@);
        }
    }
    if bytes.len() != other.len() {
        return false;
    }
    let mut i: usize = 0;
    while i < bytes.len()
        invariant
            i <= bytes@.len(),
            bytes@.len() == other@.len(),
            other@ == vstd::utf8::encode_utf8(s@),
            vstd::utf8::valid_utf8(bytes@) && vstd::utf8::decode_utf8(bytes@) == s@ ==> bytes@
                == other@,
            forall|k: int| 0 <= k < i ==> bytes@[k] == other@[k],
        decreases bytes.len() - i,
    {
        if bytes[i] != other[i] {
            return false;
        }
        i = i + 1;
    }
    assert(bytes@ =~= other@);
    true
}

/// Appends a binary.
pub fn write_binary_at(
    out: &mut String,
    mem: &GuestMem,
    addr: u32,
    ref_value: u32,
    size: u32,
    class_ref: u32,
)
    requires
        mem.wf(),
        size >= 12,
    ensures
        final(out)@ == old(out)@ + binary_text(mem@, addr, ref_value, size, class_ref),
{
    if class_ref == SYMBOL_CLASS {
        write_symbol_name_at(out, mem, addr, size, ref_value);
        return ;
    }
    let name = read_symbol_name_into(mem, class_ref, CLASS_NAME_CAP);
    let ghost shown = text_or(name@, seq![]);
    proof {
        reveal_strlit("string");
        if name@.len() == 0 {
            assert(vstd::utf8::decode_utf8(name@) =~= seq![]);
        }
    }
    if bytes_are(name.as_slice(), "string") {
        write_string_body_at(out, mem, addr, size);
        return ;
    }
    let body_bytes: u32 = size - 12;
    match utf8_text(name.as_slice()) {
        Some(s) if name.len() > 0 => {
            proof {
                vstd::utf8::decode_utf8_encode_utf8(name@);
            }
            push_text(out, "<bin '");
            push_text(out, s);
            push_text(out, " ");
            push_dec(out, body_bytes as u64);
            push_text(out, " bytes>");
        },
        _ => {
            push_text(out, "<bin class=#");
            push_hex(out, class_ref);
            push_text(out, " ");
            push_dec(out, body_bytes as u64);
            push_text(out, " bytes>");
        },
    }
    assert(out@ =~= old(out)@ + binary_text(mem@, addr, ref_value, size, class_ref));
}

/// `n` arrows.
pub open spec fn arrows(n: int) -> Seq<char>
    decreases n,
{
    if n <= 0 {
        seq![]
    } else {
        arrows(n - 1) + "→"@
    }
}

/// The key of a frame slot: its name, or its number where that is not to be had.
pub open spec fn key_text(m: MemView, map: u32, i: int, slots: int) -> Seq<char> {
    let name = slot_name(m, map, i, slots, MAX_MAPS as nat, SLOT_NAME_CAP as int);
    if name.len() > 0 {
        text_or(name, "?"@) + ": "@
    } else {
        "?"@ + text::dec(i as nat) + ": "@
    }
}

/// A reference, with `depth` levels of what it points at.
pub open spec fn ref_text(m: MemView, r: u32, depth: nat) -> Seq<char>
    decreases depth, 9nat,
{
    match newton_objects::pointer_of(r) {
        None => immediate_text(r),
        Some(addr) => if depth == 0 {
            "#"@ + text::hex(r as nat)
        } else {
            let f = followed(m, addr, r, 0);
            arrows(f.hops as int) + match f.end {
                End::Unreadable => squirrely_text(m, f.addr, f.ref_value),
                End::Immediate => immediate_text(f.ref_value),
                End::TooFar => " <fwd-loop?>"@,
                End::Found(h) => if h.flags & KOBJ_SLOTTED == 0 {
                    binary_text(m, f.addr, f.ref_value, h.size, h.class_or_map)
                } else {
                    (if h.flags & KOBJ_FRAME != 0 {
                        "{"@
                    } else {
                        "["@
                    }) + slots_text(m, f.addr, h, depth, shown_slots(h.size)) + (if slot_count(
                        h.size,
                    ) > 8 {
                        ", ..."@
                    } else {
                        seq![]
                    }) + (if h.flags & KOBJ_FRAME != 0 {
                        "}"@
                    } else {
                        "]"@
                    })
                },
            }
        },
    }
}

/// The slots of an object of `size` bytes.
pub open spec fn slot_count(size: u32) -> int {
    (size - 12) / 4
}

/// The slots that are shown of an object of `size` bytes.
pub open spec fn shown_slots(size: u32) -> nat {
    if slot_count(size) < 0 {
        0
    } else if slot_count(size) < 8 {
        slot_count(size) as nat
    } else {
        8
    }
}

/// Slot `i` of an object, its key before it if it is a frame.
pub open spec fn slot_text(m: MemView, addr: u32, h: ObjHeader, depth: nat, i: nat) -> Seq<char>
    decreases depth, 0nat,
{
    (if h.flags & KOBJ_FRAME != 0 {
        key_text(m, h.class_or_map, i as int, slot_count(h.size))
    } else {
        seq![]
    }) + match guest_endian::value_va(m, addr.wrapping_add(12).wrapping_add((4 * i) as u32)) {
        Some(s) => if depth > 0 {
            ref_text(m, s, (depth - 1) as nat)
        } else {
            seq![]
        },
        None => "<? #?>"@,
    }
}

/// The first `n` slots of an object, with commas between them.
pub open spec fn slots_text(m: MemView, addr: u32, h: ObjHeader, depth: nat, n: nat) -> Seq<char>
    decreases depth, n,
{
    if n == 0 {
        seq![]
    } else {
        slots_text(m, addr, h, depth, (n - 1) as nat) + (if n > 1 {
            ", "@
        } else {
            seq![]
        }) + slot_text(m, addr, h, depth, (n - 1) as nat)
    }
}

/// Appends the key of a frame slot.
fn write_key(out: &mut String, mem: &GuestMem, map: u32, i: usize, slots: usize)
    requires
        mem.wf(),
    ensures
        final(out)@ == old(out)@ + key_text(mem@, map, i as int, slots as int),
{
    let name = resolve_slot_name_into(mem, map, i, slots, SLOT_NAME_CAP);
    if name.len() > 0 {
        match utf8_text(name.as_slice()) {
            Some(s) => push_text(out, s),
            None => push_text(out, "?"),
        }
        push_text(out, ": ");
    } else {
        push_text(out, "?");
        push_dec(out, i as u64);
        push_text(out, ": ");
    }
    assert(out@ =~= old(out)@ + key_text(mem@, map, i as int, slots as int));
}

/// Appends a reference, with `depth` levels of what it points at.
pub fn write_ref(out: &mut String, mem: &GuestMem, ref_value: u32, depth: u32)
    requires
        mem.wf(),
    ensures
        final(out)@ == old(out)@ + ref_text(mem@, ref_value, depth as nat),
    decreases depth, 2int,
{
    match Ref(ref_value).pointer_offset() {
        Some(addr) => write_pointee(out, mem, addr, ref_value, depth),
        None => write_immediate(out, ref_value),
    }
}

/// Appends what a pointer points at.
fn write_pointee(out: &mut String, mem: &GuestMem, addr: u32, ref_value: u32, depth: u32)
    requires
        mem.wf(),
        newton_objects::pointer_of(ref_value) == Some(addr),
    ensures
        final(out)@ == old(out)@ + ref_text(mem@, ref_value, depth as nat),
    decreases depth, 1int,
{
    if depth == 0 {
        push_text(out, "#");
        push_hex(out, ref_value);
        assert(out@ =~= old(out)@ + ref_text(mem@, ref_value, depth as nat));
        return ;
    }
    let f = follow(mem, addr, ref_value);
    let mut hop: u32 = 0;
    while hop < f.hops
        invariant
            hop <= f.hops,
            out@ =~= old(out)@ + arrows(hop as int),
        decreases f.hops - hop,
    {
        push_text(out, "→");
        hop = hop + 1;
    }
    let h = match f.end {
        End::Unreadable => {
            write_squirrely_at(out, mem, f.addr, f.ref_value);
            assert(out@ =~= old(out)@ + ref_text(mem@, ref_value, depth as nat));
            return ;
        },
        End::Immediate => {
            write_immediate(out, f.ref_value);
            assert(out@ =~= old(out)@ + ref_text(mem@, ref_value, depth as nat));
            return ;
        },
        End::TooFar => {
            push_text(out, " <fwd-loop?>");
            assert(out@ =~= old(out)@ + ref_text(mem@, ref_value, depth as nat));
            return ;
        },
        End::Found(h) => h,
    };
    if h.flags & KOBJ_SLOTTED == 0 {
        write_binary_at(out, mem, f.addr, f.ref_value, h.size, h.class_or_map);
        assert(out@ =~= old(out)@ + ref_text(mem@, ref_value, depth as nat));
        return ;
    }
    let is_frame: bool = h.flags & KOBJ_FRAME != 0;
    push_text(
        out,
        if is_frame {
            "{"
        } else {
            "["
        },
    );
    let slots: usize = ((h.size - 12) / 4) as usize;
    let take: usize = if slots < LIMIT {
        slots
    } else {
        LIMIT
    };
    let ghost head = out@;
    let mut i: usize = 0;
    while i < take
        invariant
            mem.wf(),
            i <= take <= 8,
            depth > 0,
            h.size >= 12,
            out@ =~= head + slots_text(mem@, f.addr, h, depth as nat, i as nat),
        decreases take - i,
    {
        let ghost before = out@;
        if i > 0 {
            push_text(out, ", ");
        }
        write_slot(out, mem, f.addr, h, i, depth);
        assert(out@ =~= before + (if i > 0 {
            ", "@
        } else {
            seq![]
        }) + slot_text(mem@, f.addr, h, depth as nat, i as nat));
        i = i + 1;
    }
    if slots > LIMIT {
        push_text(out, ", ...");
    }
    push_text(
        out,
        if is_frame {
            "}"
        } else {
            "]"
        },
    );
    assert(out@ =~= old(out)@ + ref_text(mem@, ref_value, depth as nat));
}

/// Appends a slot.
fn write_slot(out: &mut String, mem: &GuestMem, addr: u32, h: ObjHeader, i: usize, depth: u32)
    requires
        mem.wf(),
        depth > 0,
        i < 8,
        h.size >= 12,
    ensures
        final(out)@ == old(out)@ + slot_text(mem@, addr, h, depth as nat, i as nat),
    decreases depth, 0int,
{
    if h.flags & KOBJ_FRAME != 0 {
        write_key(out, mem, h.class_or_map, i, ((h.size - 12) / 4) as usize);
    }
    let slot_va: u32 = addr.wrapping_add(12).wrapping_add((i as u32) * 4);
    match guest_read_u32_va(mem, slot_va) {
        Some(s) => write_ref(out, mem, s, depth - 1),
        None => push_text(out, "<? #?>"),
    }
    assert(out@ =~= old(out)@ + slot_text(mem@, addr, h, depth as nat, i as nat));
}

/// How references that are no pointers read: `true` and `nil` by name, an integer as its numeral, a
/// character behind a dollar sign, a magic pointer as its table and index, and any other as its word.
pub proof fn immediates_read(r: u32)
    ensures
        immediate_text(26) == "true"@,
        immediate_text(2) == "nil"@,
        r % 4 == 0 && r < 0x8000_0000 ==> immediate_text(r) == text::int_text(r as int / 4),
        r % 4 == 0 && r >= 0x8000_0000 ==> immediate_text(r) == text::int_text((r - 0x1_0000_0000) / 4),
        r % 16 == 10 && r != 26 ==> immediate_text(r) == char_literal((r / 16 % 0x1_0000) as u16),
        r % 4 == 3 ==> immediate_text(r) == "@"@ + text::dec((r / 0x1_0000) as nat) + "."@ + text::dec(
            (r / 4 % 0x4000) as nat,
        ),
        r % 4 == 2 && r % 16 != 10 && r != 2 ==> immediate_text(r) == "<? #"@ + text::hex(r as nat)
            + ">"@,
{
}

/// How characters read: in a string a backslash and a quote behind a backslash, from the space to the
/// tilde as they are, and any other by its four hexadecimal digits; by itself behind a dollar sign.
pub proof fn characters_read(c: u16)
    ensures
        string_char(92) == seq!['\\', '\\'],
        string_char(34) == seq!['\\', '"'],
        32 <= c <= 126 && c != 92 && c != 34 ==> string_char(c) == seq![c as char],
        c < 32 || c > 126 ==> string_char(c) == seq!['\\', 'u'] + text::hex_pad(c as nat, 4),
        32 <= c <= 126 ==> char_literal(c) == seq!['$', c as char],
        c < 32 || c > 126 ==> char_literal(c) == seq!['$', '\\', 'u'] + text::hex_pad(c as nat, 4),
{
    reveal_strlit("\\\\");
    reveal_strlit("\\\"");
    reveal_strlit("\\u");
    reveal_strlit("$");
    reveal_strlit("$\\u");
    assert("\\\\"@ =~= seq!['\\', '\\']);
    assert("\\\""@ =~= seq!['\\', '"']);
    assert("\\u"@ =~= seq!['\\', 'u']);
    assert("$\\u"@ =~= seq!['$', '\\', 'u']);
    assert("$"@ + seq![c as char] =~= seq!['$', c as char]);
}

/// An object's header is there exactly where its first and third words can be read and the first gives
/// it a size of at least twelve: the size above the flags, and the class or map in the third.
pub proof fn headers_are_read(m: MemView, addr: u32)
    requires
        addr + 8 <= u32::MAX,
    ensures
        ({
            let a = guest_endian::value_va(m, addr);
            let b = guest_endian::value_va(m, (addr + 8) as u32);
            let sound = a is Some && b is Some && a->0 >= 12 * 256;
            &&& sound <==> header_at(m, addr) is Some
            &&& header_at(m, addr) matches Some(h) ==> 256 * h.size + h.flags == a->0
                && h.class_or_map == b->0
        }),
{
}

/// A chain of moves is followed to its end: where each of the objects at `at[0]` to `at[k - 1]` has moved
/// and refers to the next, no more than eight of them, and the last has not, the last is what is found,
/// with as many hops. A chain of nine moves is given up.
pub proof fn moves_are_followed(m: MemView, at: Seq<u32>, r: u32, i: int)
    requires
        0 <= i < at.len() <= 10,
        forall|j: int|
            0 <= j < at.len() - 1 ==> (header_at(m, #[trigger] at[j]) matches Some(h) && h.flags & 0x20u8
                != 0 && (h.class_or_map % 4 == 1 && h.class_or_map - 1 == at[j + 1])),
    ensures
        at.len() <= 9 && header_at(m, at.last()) is Some && header_at(m, at.last())->0.flags & 0x20u8 == 0
            ==> ({
            let f = followed(m, at[i], r, i as u32);
            f.hops == at.len() - 1 && f.addr == at.last() && f.end == End::Found(
                header_at(m, at.last())->0,
            )
        }),
        at.len() <= 9 && header_at(m, at.last()) is None ==> followed(m, at[i], r, i as u32).end
            is Unreadable,
        at.len() == 10 && i < 9 ==> followed(m, at[i], r, i as u32).end is TooFar,
    decreases at.len() - i,
{
    if i < at.len() - 1 {
        let h = header_at(m, at[i])->0;
        assert(header_at(m, at[i]) is Some);
        assert(newton_objects::pointer_of(h.class_or_map) == Some(at[i + 1]));
        if i < 8 {
            moves_are_followed(m, at, h.class_or_map, i + 1);
        }
    }
}

/// A symbol's name, where its words can be read, is the bytes sixteen behind its start, up to the first
/// zero, to its end, or to as many as asked for.
pub proof fn names_are_read(m: MemView, addr: u32, size: u32, cap: int, i: int)
    requires
        16 < size,
        0 < cap,
        cap % 4 == 0,
        ({
            let room = if size - 16 < cap {
                size - 16
            } else {
                cap
            };
            guest_endian::readable_run(m, addr.wrapping_add(16), (room + 3) / 4) == (room + 3) / 4
        }),
    ensures
        ({
            let room = if size - 16 < cap {
                size - 16
            } else {
                cap
            };
            let all = guest_endian::bytes_of_words(m, addr.wrapping_add(16), (room + 3) / 4);
            let n = symbol_name(m, addr, size, cap)->0;
            &&& symbol_name(m, addr, size, cap) is Some
            &&& n.len() <= room
            &&& 0 <= i < n.len() ==> n[i] == all[i] && n[i] != 0
            &&& n.len() < room ==> all[n.len() as int] == 0
        }),
{
    let room = if size - 16 < cap {
        size - 16
    } else {
        cap
    };
    let words = (room + 3) / 4;
    assert(words * 4 <= cap);
    assert(name_words(room, cap) == words);
    let all = guest_endian::bytes_of_words(m, addr.wrapping_add(16), words);
    guest_endian::run_bytes(m, addr.wrapping_add(16), words, 0, 0);
    let there = all.take(room);
    first_zero(there, 0);
    let n = there.take(newton_objects::zero_at(there, 0));
    if 0 <= i < n.len() {
        assert(there[i] == all[i]);
    }
    if n.len() < room {
        assert(there[n.len() as int] == all[n.len() as int]);
    }
}

proof fn first_zero(s: Seq<u8>, from: int)
    requires
        0 <= from <= s.len(),
    ensures
        from <= newton_objects::zero_at(s, from) <= s.len(),
        forall|i: int| from <= i < newton_objects::zero_at(s, from) ==> #[trigger] s[i] != 0,
        newton_objects::zero_at(s, from) < s.len() ==> s[newton_objects::zero_at(s, from)] == 0,
    decreases s.len() - from,
{
    if from < s.len() && s[from] != 0 {
        first_zero(s, from + 1);
    }
}

/// Which map names a frame's slot: the last slots of a frame are named by its map, from the map's second
/// slot on, as many as that map has names; the slots before them are named by the map in its first
/// slot, in the same way; and eight maps are looked at.
pub proof fn maps_name_slots(m: MemView, map: u32, at: u32, h: ObjHeader, i: int, n: int, fuel: nat, cap: int)
    requires
        map % 4 == 1,
        resolved(m, (map - 1) as u32) == Some((at, h)),
        h.flags & 1u8 != 0,
        h.size >= 12,
        0 <= i < n,
        fuel > 0,
        at + h.size <= u32::MAX,
    ensures
        ({
            let names = if h.size >= 16 {
                (h.size - 12) / 4 - 1
            } else {
                0
            };
            let above = if n > names {
                n - names
            } else {
                0
            };
            let sup = guest_endian::value_va(m, (at + 12) as u32);
            let own = guest_endian::value_va(m, (at + 16 + 4 * (i - above)) as u32);
            &&& i < above && sup is Some ==> slot_name(m, map, i, n, fuel, cap) == slot_name(
                m,
                sup->0,
                i,
                above,
                (fuel - 1) as nat,
                cap,
            )
            &&& above <= i && i - above < names && own is Some ==> slot_name(m, map, i, n, fuel, cap)
                == symbol_name_of(m, own->0, cap)
        }),
        slot_name(m, map, i, n, 0, cap).len() == 0,
{
    assert(newton_objects::pointer_of(map) == Some((map - 1) as u32));
}

/// A string reads as its units in turn: two to a word, the first in the upper half, up to a zero.
pub proof fn strings_are_read(m: MemView, base: u32, i: int, end: int)
    requires
        0 <= i < end,
        base + 2 * end + 4 <= u32::MAX,
    ensures
        ({
            let w = guest_endian::value_va(m, (base + i / 2 * 4) as u32);
            let c = if i % 2 == 0 {
                w->0 as int / 0x1_0000
            } else {
                w->0 as int % 0x1_0000
            };
            &&& w is Some && c != 0 ==> string_chars(m, base, i, end) == string_char(c as u16)
                + string_chars(m, base, i + 1, end)
            &&& w is None || c == 0 ==> string_chars(m, base, i, end).len() == 0
        }),
        string_chars(m, base, end, end).len() == 0,
{
}

/// What a string, a symbol and any other binary read as: a string in quotes, at most forty-eight units of
/// it, with dots where there are more; a symbol behind a quote; another binary by its class and the
/// bytes of its body.
pub proof fn binaries_read(m: MemView, addr: u32, r: u32, size: u32, class: u32)
    requires
        size >= 12,
        addr + 12 <= u32::MAX,
    ensures
        ({
            let name = symbol_name_of(m, class, 32);
            let shown = if vstd::utf8::valid_utf8(name) {
                vstd::utf8::decode_utf8(name)
            } else {
                seq![]
            };
            let units = (size - 12) / 2;
            let t = binary_text(m, addr, r, size, class);
            &&& class == 0x55552 && symbol_name(m, addr, size, 96) is Some && vstd::utf8::valid_utf8(
                symbol_name(m, addr, size, 96)->0,
            ) ==> t == "'"@ + vstd::utf8::decode_utf8(symbol_name(m, addr, size, 96)->0)
            &&& class != 0x55552 && shown == "string"@ && units <= 48 ==> t == "\""@ + string_chars(
                m,
                (addr + 12) as u32,
                0,
                units,
            ) + "\""@
            &&& class != 0x55552 && shown == "string"@ && units > 48 ==> t == "\""@ + string_chars(
                m,
                (addr + 12) as u32,
                0,
                48,
            ) + "..."@ + "\""@
            &&& class != 0x55552 && shown != "string"@ && shown.len() > 0 ==> t == "<bin '"@ + shown + " "@
                + text::dec((size - 12) as nat) + " bytes>"@
            &&& class != 0x55552 && shown != "string"@ && shown.len() == 0 ==> t == "<bin class=#"@
                + text::hex(class as nat) + " "@ + text::dec((size - 12) as nat) + " bytes>"@
        }),
{
    let t = binary_text(m, addr, r, size, class);
    let units = (size - 12) / 2;
    let body = string_chars(m, (addr + 12) as u32, 0, units);
    assert("\""@ + body + seq![] + "\""@ =~= "\""@ + body + "\""@);
}

/// What a pointer reads as: with no level asked for, its word behind a number sign. With one, an array in
/// brackets and a frame in braces, each of its first eight slots in turn with one level less, a frame's
/// slot behind its key; a slot that cannot be read is marked, and more than eight are hinted at.
pub proof fn objects_read(m: MemView, r: u32, h: ObjHeader, depth: nat, k: nat)
    requires
        r % 4 == 1,
        header_at(m, (r - 1) as u32) == Some(h),
        h.flags & 0x20u8 == 0,
        h.flags & 1u8 != 0,
        depth > 0,
        k < 8,
        k < (h.size - 12) / 4,
        r + h.size <= u32::MAX,
    ensures
        ref_text(m, r, 0) == "#"@ + text::hex(r as nat),
        ({
            let frame = h.flags & 2u8 != 0;
            let slots = (h.size - 12) / 4;
            let n = if slots < 8 {
                slots
            } else {
                8
            };
            let word = guest_endian::value_va(m, (r - 1 + 12 + 4 * k) as u32);
            let value = if word is Some {
                ref_text(m, word->0, (depth - 1) as nat)
            } else {
                "<? #?>"@
            };
            let key = key_text(m, h.class_or_map, k as int, slots);
            let all = slots_text(m, (r - 1) as u32, h, depth, n as nat);
            &&& ref_text(m, r, depth) == seq![] + ((if frame {
                "{"@
            } else {
                "["@
            }) + all + (if slots > 8 {
                ", ..."@
            } else {
                seq![]
            }) + (if frame {
                "}"@
            } else {
                "]"@
            }))
            &&& frame ==> text::within(key + value, all)
            &&& !frame ==> text::within(value, all)
            &&& k + 1 < n ==> text::within(
                slot_text(m, (r - 1) as u32, h, depth, k) + ", "@ + slot_text(
                    m,
                    (r - 1) as u32,
                    h,
                    depth,
                    k + 1,
                ),
                all,
            )
        }),
{
    let addr = (r - 1) as u32;
    assert(newton_objects::pointer_of(r) == Some(addr));
    let f = followed(m, addr, r, 0);
    assert(f == (Followed { hops: 0, addr, ref_value: r, end: End::Found(h) }));
    assert(arrows(0) =~= seq![]);
    let slots = (h.size - 12) / 4;
    let n: nat = if slots < 8 {
        slots as nat
    } else {
        8
    };
    assert(shown_slots(h.size) == n);
    slots_are_shown(m, addr, h, depth, n, k);
    assert(addr.wrapping_add(12).wrapping_add((4 * k) as u32) == r - 1 + 12 + 4 * k);
    let word = guest_endian::value_va(m, (r - 1 + 12 + 4 * k) as u32);
    let value = if word is Some {
        ref_text(m, word->0, (depth - 1) as nat)
    } else {
        "<? #?>"@
    };
    if h.flags & KOBJ_FRAME == 0 {
        assert(slot_text(m, addr, h, depth, k) =~= value);
    }
}

proof fn slots_are_shown(m: MemView, addr: u32, h: ObjHeader, depth: nat, n: nat, k: nat)
    requires
        k < n,
    ensures
        text::within(slot_text(m, addr, h, depth, k), slots_text(m, addr, h, depth, n)),
        k + 1 < n ==> text::within(
            slot_text(m, addr, h, depth, k) + ", "@ + slot_text(m, addr, h, depth, k + 1),
            slots_text(m, addr, h, depth, n),
        ),
    decreases n,
{
    let before = slots_text(m, addr, h, depth, (n - 1) as nat);
    let gap = if n > 1 {
        ", "@
    } else {
        seq![]
    };
    let last = slot_text(m, addr, h, depth, (n - 1) as nat);
    let here = slot_text(m, addr, h, depth, k);
    let all = slots_text(m, addr, h, depth, n);
    assert(all == before + gap + last);
    if k == n - 1 {
        assert(all =~= (before + gap) + here + Seq::<char>::empty());
    } else {
        slots_are_shown(m, addr, h, depth, (n - 1) as nat, k);
        assert(all =~= before + (gap + last));
        text::within_longer(here, before, Seq::empty(), gap + last);
        let next = slot_text(m, addr, h, depth, k + 1);
        if k + 1 < n - 1 {
            text::within_longer(here + ", "@ + next, before, Seq::empty(), gap + last);
        } else {
            let earlier = slots_text(m, addr, h, depth, k);
            let g = if k > 0 {
                ", "@
            } else {
                seq![]
            };
            assert(before == earlier + g + here);
            assert(all =~= (earlier + g) + (here + ", "@ + next) + Seq::<char>::empty());
        }
    }
}

/// An object that could not be made sense of is shown by its reference and its first eight words, in order,
/// each by eight hexadecimal digits or, where it cannot be read, eight dashes.
pub proof fn raw_words_are_shown(m: MemView, addr: u32, r: u32, k: int)
    requires
        0 <= k < 8,
        addr + 32 <= u32::MAX,
    ensures
        ({
            let of = |i: int|
                match guest_endian::value_va(m, (addr + 4 * i) as u32) {
                    Some(w) => text::hex_pad(w as nat, 8),
                    None => "--------"@,
                };
            &&& text::within(of(k), squirrely_text(m, addr, r))
            &&& k + 1 < 8 ==> text::within(of(k) + " "@ + of(k + 1), squirrely_text(m, addr, r))
            &&& text::within(text::hex(r as nat) + " ["@ + of(0), squirrely_text(m, addr, r))
        }),
{
    words_in_a_row(m, addr, 8, k);
    let all = raw_words_text(m, addr, 8);
    let front = "<? #"@ + text::hex(r as nat) + " ["@;
    text::within_longer(raw_word_text(m, addr, k), all, front, "]>"@);
    if k + 1 < 8 {
        text::within_longer(
            raw_word_text(m, addr, k) + " "@ + raw_word_text(m, addr, k + 1),
            all,
            front,
            "]>"@,
        );
    }
    let first = raw_word_text(m, addr, 0);
    first_word_is_first(m, addr, 8);
    let rest = all.skip(first.len() as int);
    assert(all =~= first + rest);
    assert(squirrely_text(m, addr, r) =~= "<? #"@ + (text::hex(r as nat) + " ["@ + first) + (rest + "]>"@));
}

proof fn first_word_is_first(m: MemView, addr: u32, n: int)
    requires
        n > 0,
    ensures
        raw_word_text(m, addr, 0).len() <= raw_words_text(m, addr, n).len(),
        raw_words_text(m, addr, n).take(raw_word_text(m, addr, 0).len() as int) == raw_word_text(m, addr, 0),
    decreases n,
{
    let first = raw_word_text(m, addr, 0);
    if n > 1 {
        first_word_is_first(m, addr, n - 1);
        assert(raw_words_text(m, addr, n).take(first.len() as int) =~= raw_words_text(m, addr, n - 1).take(
            first.len() as int,
        ));
    } else {
        assert(raw_words_text(m, addr, 0) =~= seq![]);
        assert(raw_words_text(m, addr, 1) =~= first);
        assert(first.take(first.len() as int) =~= first);
    }
}

proof fn words_in_a_row(m: MemView, addr: u32, n: int, k: int)
    requires
        0 <= k < n,
    ensures
        text::within(raw_word_text(m, addr, k), raw_words_text(m, addr, n)),
        k + 1 < n ==> text::within(
            raw_word_text(m, addr, k) + " "@ + raw_word_text(m, addr, k + 1),
            raw_words_text(m, addr, n),
        ),
    decreases n,
{
    let before = raw_words_text(m, addr, n - 1);
    let gap = if n > 1 {
        " "@
    } else {
        seq![]
    };
    let last = raw_word_text(m, addr, n - 1);
    let here = raw_word_text(m, addr, k);
    let all = raw_words_text(m, addr, n);
    if k == n - 1 {
        assert(all =~= (before + gap) + here + Seq::<char>::empty());
    } else {
        words_in_a_row(m, addr, n - 1, k);
        assert(all =~= before + (gap + last));
        text::within_longer(here, before, Seq::empty(), gap + last);
        let next = raw_word_text(m, addr, k + 1);
        if k + 1 < n - 1 {
            text::within_longer(here + " "@ + next, before, Seq::empty(), gap + last);
        } else {
            let earlier = raw_words_text(m, addr, k);
            let g = if k > 0 {
                " "@
            } else {
                seq![]
            };
            assert(before == earlier + g + here);
            assert(all =~= (earlier + g) + (here + " "@ + next) + Seq::<char>::empty());
        }
    }
}

/// A pointer is rendered without reading what it points at, when no level is asked for.
pub proof fn unexpanded_pointers_need_no_memory(m: MemView, other: MemView, r: u32)
    ensures
        ref_text(m, r, 0) == ref_text(other, r, 0),
{
}

/// A move is transparent: the object that a chain of moves leads to is rendered as it is at
/// its own address, behind one arrow a move.
pub proof fn moves_are_transparent(m: MemView, r: u32, depth: nat)
    requires
        newton_objects::pointer_of(r) is Some,
        depth > 0,
        ({
            let f = followed(m, newton_objects::pointer_of(r)->0, r, 0);
            f.end is Found && newton_objects::pointer_of(f.ref_value) == Some(f.addr)
        }),
    ensures
        ({
            let f = followed(m, newton_objects::pointer_of(r)->0, r, 0);
            ref_text(m, r, depth) == arrows(f.hops as int) + ref_text(m, f.ref_value, depth)
        }),
{
    let f = followed(m, newton_objects::pointer_of(r)->0, r, 0);
    found_stays(m, newton_objects::pointer_of(r)->0, r, 0);
    let g = followed(m, f.addr, f.ref_value, 0);
    assert(g == (Followed { hops: 0, ..f }));
    assert(ref_text(m, f.ref_value, depth) =~= ref_text(m, r, depth).skip(
        arrows(f.hops as int).len() as int,
    )) by {
        assert(arrows(0) =~= seq![]);
    }
    assert(ref_text(m, r, depth) =~= arrows(f.hops as int) + ref_text(m, f.ref_value, depth));
}

proof fn found_stays(m: MemView, addr: u32, r: u32, hops: u32)
    requires
        followed(m, addr, r, hops).end is Found,
    ensures
        ({
            let f = followed(m, addr, r, hops);
            &&& header_at(m, f.addr) == Some(f.end->Found_0)
            &&& f.end->Found_0.flags & KOBJ_FORWARDED == 0
        }),
    decreases 9 - hops,
{
    match header_at(m, addr) {
        Some(h) => {
            if h.flags & KOBJ_FORWARDED != 0 && hops < 8 {
                match newton_objects::pointer_of(h.class_or_map) {
                    Some(a) => found_stays(m, a, h.class_or_map, (hops + 1) as u32),
                    None => {},
                }
            }
        },
        None => {},
    }
}

} // verus!

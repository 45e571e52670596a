//! A reader for NewtonScript objects as they lie packed in memory: binaries, arrays and
//! frames, and the references between them.

pub mod flags;

use crate::text;
use crate::text::{push_dec, push_hex, push_int, push_numeral, push_text, utf8_text};
use crate::words;
use crate::words::{get_be32, get_le32};
use vstd::prelude::*;

verus! {

/// A reference: an immediate value, or a pointer to an object.
#[derive(Clone, Copy, PartialEq, Eq, Structural, Hash, Debug)]
pub struct Ref(pub u32);

/// The reference to nothing, as it is stored.
pub const NIL: u32 = 0x02;

/// The reference that stands for truth, as it is stored: the character with code 1.
pub const TRUE: u32 = 0x1A;

/// The class reference of every symbol, as it is stored.
pub const SYMBOL_CLASS: u32 = 0x55552;

/// The multiplier of the symbol hash.
pub const HASH_MUL: u32 = 2_654_435_769;

/// What a reference refers to.
#[derive(Clone, Copy, PartialEq, Eq, Structural, Debug)]
pub enum RefKind {
    /// An integer of 30 bits.
    Integer(i32),
    /// The address of an object.
    Pointer(u32),
    /// A 16-bit character. The constant TRUE is the character with code 1.
    Character(u16),
    /// Any other immediate, without its tag.
    Special(u32),
    /// An entry of a table that is supplied from outside.
    MagicPointer { table: u16, index: u16 },
}

/// A word as a two's-complement number.
pub open spec fn signed(r: u32) -> int {
    if r < 0x8000_0000 {
        r as int
    } else {
        r - 0x1_0000_0000
    }
}

/// The kind of a reference, by its two tag bits. Tag 2 is a character where the two bits
/// above it say so.
pub open spec fn kind_of(r: u32) -> RefKind {
    if r % 4 == 0 {
        RefKind::Integer((signed(r) / 4) as i32)
    } else if r % 4 == 1 {
        RefKind::Pointer((r - 1) as u32)
    } else if r % 4 == 3 {
        RefKind::MagicPointer { table: (r / 0x1_0000) as u16, index: (r / 4 % 0x4000) as u16 }
    } else if r % 16 == 10 {
        RefKind::Character((r / 16 % 0x1_0000) as u16)
    } else {
        RefKind::Special(r / 4)
    }
}

proof fn tag_bits(r: u32)
    by (bit_vector)
    ensures
        r & 3 == r % 4,
        r & 0xFFFF_FFFC == r - r % 4,
        r & 0xF == r % 16,
        (r >> 16) == r / 0x1_0000,
        (r >> 2) & 0x3FFF == (r / 4) % 0x4000,
        (r >> 2) == r / 4,
        ((r >> 4) as u16) == (r / 16) % 0x1_0000,
        r % 4 == 0 && r < 0x8000_0000 ==> ((r as i32) >> 2) == r / 4,
        r % 4 == 0 && r >= 0x8000_0000 ==> ((r as i32) >> 2) == (r / 4) - 0x4000_0000,
{
}

impl Ref {
    /// The reference as it is stored.
    pub fn raw(self) -> (r: u32)
        ensures
            r == self.0,
    {
        self.0
    }

    /// What the reference refers to.
    pub fn kind(self) -> (k: RefKind)
        ensures
            k == kind_of(self.0),
    {
        let r: u32 = self.0;
        proof {
            tag_bits(r);
        }
        match r & 3 {
            0 => RefKind::Integer((r as i32) >> 2),
            1 => RefKind::Pointer(r & 0xFFFF_FFFC),
            3 => RefKind::MagicPointer {
                table: (r >> 16) as u16,
                index: ((r >> 2) & 0x3FFF) as u16,
            },
            _ => {
                if r & 0xF == 0xA {
                    RefKind::Character((r >> 4) as u16)
                } else {
                    RefKind::Special(r >> 2)
                }
            },
        }
    }

    /// Whether this is the reference to nothing.
    pub fn is_nil(self) -> (nil: bool)
        ensures
            nil == (self.0 == NIL),
    {
        self.0 == NIL
    }

    /// Whether this is a pointer.
    pub fn is_pointer(self) -> (p: bool)
        ensures
            p == (kind_of(self.0) is Pointer),
    {
        proof {
            tag_bits(self.0);
        }
        self.0 & 3 == 1
    }

    /// The address that a pointer points at.
    pub fn pointer_offset(self) -> (off: Option<u32>)
        ensures
            off == pointer_of(self.0),
    {
        proof {
            tag_bits(self.0);
        }
        if self.is_pointer() {
            Some(self.0 & 0xFFFF_FFFC)
        } else {
            None
        }
    }

    /// The reference in words.
    pub fn text(self) -> (out: String)
        ensures
            out@ == ref_text(self.0),
    {
        let mut out = String::new();
        match self.kind() {
            RefKind::Integer(i) => {
                push_text(&mut out, "Ref::Integer(");
                push_int(&mut out, i);
                push_text(&mut out, ")");
            },
            RefKind::Pointer(p) => {
                push_text(&mut out, "Ref::Pointer(0x");
                push_numeral(&mut out, p as u64, 16, 8);
                push_text(&mut out, ")");
            },
            RefKind::Character(c) => {
                push_text(&mut out, "Ref::Character(0x");
                push_numeral(&mut out, c as u64, 16, 4);
                push_text(&mut out, ")");
            },
            RefKind::Special(s) => {
                if self.is_nil() {
                    push_text(&mut out, "Ref::NIL");
                } else {
                    push_text(&mut out, "Ref::Special(0x");
                    push_hex(&mut out, s);
                    push_text(&mut out, ")");
                }
            },
            RefKind::MagicPointer { table, index } => {
                push_text(&mut out, "Ref::Magic(");
                push_dec(&mut out, table as u64);
                push_text(&mut out, ":");
                push_dec(&mut out, index as u64);
                push_text(&mut out, ")");
            },
        }
        assert(out@ =~= ref_text(self.0));
        out
    }
}

/// The address that a reference points at, if it is a pointer.
pub open spec fn pointer_of(r: u32) -> Option<u32> {
    match kind_of(r) {
        RefKind::Pointer(p) => Some(p),
        _ => None,
    }
}

/// A reference in words.
pub open spec fn ref_text(r: u32) -> Seq<char> {
    match kind_of(r) {
        RefKind::Integer(i) => "Ref::Integer("@ + text::int_text(i as int) + ")"@,
        RefKind::Pointer(p) => "Ref::Pointer(0x"@ + text::hex_pad(p as nat, 8) + ")"@,
        RefKind::Character(c) => "Ref::Character(0x"@ + text::hex_pad(c as nat, 4) + ")"@,
        RefKind::Special(s) => if r == NIL {
            "Ref::NIL"@
        } else {
            "Ref::Special(0x"@ + text::hex(s as nat) + ")"@
        },
        RefKind::MagicPointer { table, index } => "Ref::Magic("@ + text::dec(table as nat) + ":"@
            + text::dec(index as nat) + ")"@,
    }
}

/// An integer of 30 bits, a word-aligned address and a character come back from the
/// reference that holds them.
pub proof fn references_hold_their_values(i: i32, p: u32, c: u16)
    requires
        -0x2000_0000 <= i < 0x2000_0000,
        p % 4 == 0,
    ensures
        kind_of(
            (if i < 0 {
                4 * i + 0x1_0000_0000
            } else {
                4 * i
            }) as u32,
        ) == RefKind::Integer(i),
        kind_of((p + 1) as u32) == RefKind::Pointer(p),
        kind_of((c * 16 + 10) as u32) == RefKind::Character(c),
{
    integer_comes_back(i);
    pointer_comes_back(p);
    character_comes_back(c);
}

proof fn integer_comes_back(i: i32)
    requires
        -0x2000_0000 <= i < 0x2000_0000,
    ensures
        kind_of(
            (if i < 0 {
                4 * i + 0x1_0000_0000
            } else {
                4 * i
            }) as u32,
        ) == RefKind::Integer(i),
{
    let r = (if i < 0 {
        4 * i + 0x1_0000_0000
    } else {
        4 * i
    }) as u32;
    assert(r % 4 == 0);
    assert(signed(r) == 4 * i);
    assert(4 * i / 4 == i);
}

proof fn pointer_comes_back(p: u32)
    requires
        p % 4 == 0,
    ensures
        kind_of((p + 1) as u32) == RefKind::Pointer(p),
{
    let r = (p + 1) as u32;
    assert(r == p + 1 && r % 4 == 1);
}

proof fn character_comes_back(c: u16)
    ensures
        kind_of((c * 16 + 10) as u32) == RefKind::Character(c),
{
    let r = (c * 16 + 10) as u32;
    assert(r == c * 16 + 10);
    assert(r % 16 == 10 && r / 16 == c);
    assert(r % 4 == 2);
}

/// Why an object could not be read.
#[derive(Clone, Copy, PartialEq, Eq, Structural, Debug)]
pub enum ParseError {
    OutOfBounds { offset: u32, len: u32 },
    NotAPointer(Ref),
    NotABinary,
    NotAnArray,
    NotAFrame,
    BadHeader { offset: u32, size: u32, flags: u8 },
    BadUtf8,
}

/// An error in words.
pub open spec fn error_text(e: ParseError) -> Seq<char> {
    match e {
        ParseError::OutOfBounds { offset, len } => "read of "@ + text::dec(len as nat)
            + " bytes at 0x"@ + text::hex_pad(offset as nat, 8) + " is out of bounds"@,
        ParseError::NotAPointer(r) => ref_text(r.0) + " is not a pointer Ref"@,
        ParseError::NotABinary => "object is not a binary"@,
        ParseError::NotAnArray => "object is not an array"@,
        ParseError::NotAFrame => "object is not a frame"@,
        ParseError::BadHeader { offset, size, flags } => "bad object header at 0x"@
            + text::hex_pad(offset as nat, 8) + ": size="@ + text::dec(size as nat) + " flags=0x"@
            + text::hex_pad(flags as nat, 2),
        ParseError::BadUtf8 => "symbol name is not valid UTF-8"@,
    }
}

impl ParseError {
    /// The error in words.
    pub fn text(&self) -> (out: String)
        ensures
            out@ == error_text(*self),
    {
        let mut out = String::new();
        match *self {
            ParseError::OutOfBounds { offset, len } => {
                push_text(&mut out, "read of ");
                push_dec(&mut out, len as u64);
                push_text(&mut out, " bytes at 0x");
                push_numeral(&mut out, offset as u64, 16, 8);
                push_text(&mut out, " is out of bounds");
            },
            ParseError::NotAPointer(r) => {
                out = r.text();
                push_text(&mut out, " is not a pointer Ref");
            },
            ParseError::NotABinary => push_text(&mut out, "object is not a binary"),
            ParseError::NotAnArray => push_text(&mut out, "object is not an array"),
            ParseError::NotAFrame => push_text(&mut out, "object is not a frame"),
            ParseError::BadHeader { offset, size, flags } => {
                push_text(&mut out, "bad object header at 0x");
                push_numeral(&mut out, offset as u64, 16, 8);
                push_text(&mut out, ": size=");
                push_dec(&mut out, size as u64);
                push_text(&mut out, " flags=0x");
                push_numeral(&mut out, flags as u64, 16, 2);
            },
            ParseError::BadUtf8 => push_text(&mut out, "symbol name is not valid UTF-8"),
        }
        assert(out@ =~= error_text(*self));
        out
    }
}

/// The byte order of a heap.
#[derive(Clone, Copy, PartialEq, Eq, Structural, Debug)]
pub enum Endian {
    Big,
    Little,
}

/// A region of packed objects. Every address is `load_addr` plus an index into `bytes`.
#[derive(Clone, Copy, Debug)]
pub struct Heap<'a> {
    pub bytes: &'a [u8],
    pub load_addr: u32,
    pub endian: Endian,
}

/// A region of packed objects, its bytes as a sequence.
pub struct HeapView {
    pub bytes: Seq<u8>,
    pub load_addr: u32,
    pub endian: Endian,
}

impl<'a> View for Heap<'a> {
    type V = HeapView;

    open spec fn view(&self) -> HeapView {
        HeapView { bytes: self.bytes@, load_addr: self.load_addr, endian: self.endian }
    }
}

/// What an object header says of an object, and where it is.
pub struct ObjView {
    pub heap: HeapView,
    pub offset: u32,
    pub size: u32,
    pub flags: u8,
}

impl HeapView {
    /// The index of an address, if the region does not start above it.
    pub open spec fn index(self, abs: u32) -> int {
        abs - self.load_addr
    }

    /// The word at an address, if it lies in the region.
    pub open spec fn word(self, abs: u32) -> Option<u32> {
        let i = self.index(abs);
        if 0 <= i && i + 4 <= self.bytes.len() {
            Some(
                match self.endian {
                    Endian::Big => words::be32(self.bytes, i),
                    Endian::Little => words::le32(self.bytes, i),
                },
            )
        } else {
            None
        }
    }

    /// The object whose header is at an address: two words, of which the first holds the
    /// size, header and all, above the flags. The object must lie in the region.
    pub open spec fn object(self, offset: u32) -> Result<ObjView, ParseError> {
        match (self.word(offset), self.word(offset.wrapping_add(4))) {
            (None, _) => Err(ParseError::OutOfBounds { offset, len: 4 }),
            (_, None) => Err(ParseError::OutOfBounds { offset: offset.wrapping_add(4), len: 4 }),
            (Some(w), _) => if w / 256 < 8 || self.index(offset) + w / 256 > self.bytes.len() {
                Err(ParseError::BadHeader { offset, size: w / 256, flags: (w % 256) as u8 })
            } else {
                Ok(ObjView { heap: self, offset, size: w / 256, flags: (w % 256) as u8 })
            },
        }
    }

    /// The object that a reference points at.
    pub open spec fn deref(self, r: Ref) -> Result<ObjView, ParseError> {
        match pointer_of(r.0) {
            Some(off) => self.object(off),
            None => Err(ParseError::NotAPointer(r)),
        }
    }
}

/// The three kinds of object.
pub enum ObjKind {
    Binary,
    Array,
    Frame,
}

impl ObjView {
    /// The object is what its heap holds at its address.
    pub open spec fn wf(self) -> bool {
        self.heap.object(self.offset) == Ok::<ObjView, ParseError>(self)
    }

    /// The object's kind, by its flags.
    pub open spec fn kind(self) -> ObjKind {
        if self.flags & flags::KOBJ_SLOTTED == 0 {
            ObjKind::Binary
        } else if self.flags & flags::KOBJ_FRAME != 0 {
            ObjKind::Frame
        } else {
            ObjKind::Array
        }
    }

    /// The word behind the header, NIL where it cannot be read: the class of a binary or an
    /// array, the map of a frame.
    pub open spec fn class(self) -> Ref {
        match self.heap.word(self.offset.wrapping_add(8)) {
            Some(w) => Ref(w),
            None => Ref(NIL),
        }
    }

    /// The bytes behind the class.
    pub open spec fn body_len(self) -> int {
        if self.size < 12 {
            0
        } else {
            self.size - 12
        }
    }

    /// The number of slots.
    pub open spec fn slots(self) -> int {
        self.body_len() / 4
    }

    /// The reference in slot `i`.
    pub open spec fn slot(self, i: int) -> Option<Ref> {
        if 0 <= i < self.slots() {
            match self.heap.word(self.offset.wrapping_add(12).wrapping_add((4 * i) as u32)) {
                Some(w) => Some(Ref(w)),
                None => None,
            }
        } else {
            None
        }
    }

    /// The bytes of a binary.
    pub open spec fn data(self) -> Seq<u8> {
        let start = self.heap.index(self.offset.wrapping_add(12));
        if 0 <= start && start + self.body_len() <= self.heap.bytes.len() {
            self.heap.bytes.subrange(start, start + self.body_len())
        } else {
            seq![]
        }
    }
}

/// An object's heap, its address and its header.
#[derive(Clone, Copy, Debug)]
pub struct ObjBase<'a> {
    pub heap: Heap<'a>,
    pub offset: u32,
    pub size: u32,
    pub flags: u8,
}

impl<'a> View for ObjBase<'a> {
    type V = ObjView;

    open spec fn view(&self) -> ObjView {
        ObjView { heap: self.heap@, offset: self.offset, size: self.size, flags: self.flags }
    }
}

/// A binary object.
#[derive(Clone, Copy, Debug)]
pub struct Binary<'a>(pub ObjBase<'a>);

/// An array object.
#[derive(Clone, Copy, Debug)]
pub struct Array<'a>(pub ObjBase<'a>);

/// A frame object.
#[derive(Clone, Copy, Debug)]
pub struct Frame<'a>(pub ObjBase<'a>);

impl<'a> View for Binary<'a> {
    type V = ObjView;

    open spec fn view(&self) -> ObjView {
        self.0@
    }
}

impl<'a> View for Array<'a> {
    type V = ObjView;

    open spec fn view(&self) -> ObjView {
        self.0@
    }
}

impl<'a> View for Frame<'a> {
    type V = ObjView;

    open spec fn view(&self) -> ObjView {
        self.0@
    }
}

/// An object of any kind.
#[derive(Clone, Copy, Debug)]
pub enum Object<'a> {
    Binary(Binary<'a>),
    Array(Array<'a>),
    Frame(Frame<'a>),
}

impl<'a> View for Object<'a> {
    type V = ObjView;

    open spec fn view(&self) -> ObjView {
        match *self {
            Object::Binary(b) => b@,
            Object::Array(a) => a@,
            Object::Frame(f) => f@,
        }
    }
}

impl<'a> Object<'a> {
    /// The variant, as a kind.
    pub open spec fn variant(self) -> ObjKind {
        match self {
            Object::Binary(_) => ObjKind::Binary,
            Object::Array(_) => ObjKind::Array,
            Object::Frame(_) => ObjKind::Frame,
        }
    }
}

/// What reading an object gives: an object of the kind that its flags say, or the error.
pub open spec fn reads_as<'a>(r: Result<Object<'a>, ParseError>, v: Result<ObjView, ParseError>) -> bool {
    match (r, v) {
        (Ok(o), Ok(w)) => o@ == w && o.variant() == w.kind(),
        (Err(e), Err(f)) => e == f,
        _ => false,
    }
}

/// The word at an address of a heap.
fn read_word_u32(heap: Heap<'_>, abs: u32) -> (r: Result<u32, ParseError>)
    ensures
        r == (match heap@.word(abs) {
            Some(w) => Ok::<u32, ParseError>(w),
            None => Err(ParseError::OutOfBounds { offset: abs, len: 4 }),
        }),
{
    if abs < heap.load_addr {
        return Err(ParseError::OutOfBounds { offset: abs, len: 4 });
    }
    let off: usize = (abs - heap.load_addr) as usize;
    if heap.bytes.len() < 4 || off > heap.bytes.len() - 4 {
        return Err(ParseError::OutOfBounds { offset: abs, len: 4 });
    }
    Ok(
        match heap.endian {
            Endian::Big => get_be32(heap.bytes, off),
            Endian::Little => get_le32(heap.bytes, off),
        },
    )
}

impl<'a> Heap<'a> {
    /// A big-endian heap whose addresses are indices.
    pub fn new(bytes: &'a [u8]) -> (h: Self)
        ensures
            h@ == (HeapView { bytes: bytes@, load_addr: 0, endian: Endian::Big }),
            h.bytes == bytes,
    {
        Heap { bytes, load_addr: 0, endian: Endian::Big }
    }

    /// A big-endian heap whose first byte is at `load_addr`.
    pub fn with_load_addr(bytes: &'a [u8], load_addr: u32) -> (h: Self)
        ensures
            h@ == (HeapView { bytes: bytes@, load_addr, endian: Endian::Big }),
            h.bytes == bytes,
    {
        Heap { bytes, load_addr, endian: Endian::Big }
    }

    /// The heap with another byte order.
    pub fn with_endian(self, endian: Endian) -> (h: Self)
        ensures
            h@ == (HeapView { endian, ..self@ }),
            h.bytes == self.bytes,
    {
        Heap { bytes: self.bytes, load_addr: self.load_addr, endian }
    }

    /// The heap's bytes.
    pub fn bytes(&self) -> (b: &'a [u8])
        ensures
            b@ == self@.bytes,
    {
        self.bytes
    }

    /// The address of the first byte.
    pub fn load_addr(&self) -> (a: u32)
        ensures
            a == self@.load_addr,
    {
        self.load_addr
    }

    /// The byte order.
    pub fn endian(&self) -> (e: Endian)
        ensures
            e == self@.endian,
    {
        self.endian
    }

    /// Reads the object whose header is at `offset`.
    pub fn object_at(&self, offset: u32) -> (r: Result<Object<'a>, ParseError>)
        ensures
            reads_as(r, self@.object(offset)),
    {
        let w0: u32 = match read_word_u32(*self, offset) {
            Ok(w) => w,
            Err(e) => {
                return Err(e);
            },
        };
        if let Err(e) = read_word_u32(*self, offset.wrapping_add(4)) {
            return Err(e);
        }
        let size: u32 = w0 / 256;
        let flags: u8 = (w0 % 256) as u8;
        let end: u64 = (offset - self.load_addr) as u64 + size as u64;
        if size < 8 || end > self.bytes.len() as u64 {
            return Err(ParseError::BadHeader { offset, size, flags });
        }
        let base = ObjBase { heap: *self, offset, size, flags };
        Ok(
            if flags & flags::KOBJ_SLOTTED == 0 {
                Object::Binary(Binary(base))
            } else if flags & flags::KOBJ_FRAME != 0 {
                Object::Frame(Frame(base))
            } else {
                Object::Array(Array(base))
            },
        )
    }

    /// Reads the object that `r` points at.
    pub fn deref(&self, r: Ref) -> (o: Result<Object<'a>, ParseError>)
        ensures
            reads_as(o, self@.deref(r)),
    {
        match r.pointer_offset() {
            Some(off) => self.object_at(off),
            None => Err(ParseError::NotAPointer(r)),
        }
    }

    /// Walks the objects from `offset` on, each starting where the one before it ends,
    /// rounded up to `align` bytes, which are at least four.
    pub fn iter_from(&self, offset: u32, align: u32) -> (it: ObjectIter<'a>)
        ensures
            it.heap@ == self@,
            it.cursor == offset,
            it.align == (if align < 4 {
                4
            } else {
                align
            }),
            !it.done,
    {
        ObjectIter {
            heap: *self,
            cursor: offset,
            align: if align < 4 {
                4
            } else {
                align
            },
            done: false,
        }
    }
}

/// A walk over packed objects.
pub struct ObjectIter<'a> {
    pub heap: Heap<'a>,
    pub cursor: u32,
    pub align: u32,
    pub done: bool,
}

/// A size rounded up by a mask of low bits.
pub open spec fn rounded(size: u32, align: u32) -> u32 {
    let mask = (align - 1) as u32;
    size.wrapping_add(mask) & !mask
}

/// The walk's cursor is at a byte of the heap.
pub open spec fn at_byte(h: HeapView, cursor: u32) -> bool {
    h.load_addr <= cursor && cursor - h.load_addr < h.bytes.len()
}

impl<'a> ObjectIter<'a> {
    /// The next object and its address. The walk ends behind the last byte, below the first,
    /// and after an error, which is the last item.
    pub fn next(&mut self) -> (item: Option<Result<(u32, Object<'a>), ParseError>>)
        requires
            old(self).align >= 1,
        ensures
            final(self).heap == old(self).heap,
            final(self).align == old(self).align,
            item is None <==> (old(self).done || !at_byte(old(self).heap@, old(self).cursor)),
            match item {
                None => final(self).done && final(self).cursor == old(self).cursor,
                Some(Ok(found)) => {
                    &&& reads_as(Ok(found.1), old(self).heap@.object(old(self).cursor))
                    &&& found.0 == old(self).cursor
                    &&& final(self).cursor == (if found.0 + rounded(found.1@.size, old(self).align)
                        > u32::MAX {
                        u32::MAX as int
                    } else {
                        found.0 + rounded(found.1@.size, old(self).align)
                    })
                    &&& !final(self).done
                },
                Some(Err(e)) => {
                    &&& old(self).heap@.object(old(self).cursor) == Err::<ObjView, ParseError>(e)
                    &&& final(self).cursor == old(self).cursor
                    &&& final(self).done
                },
            },
    {
        if self.done {
            return None;
        }
        let cursor: u32 = self.cursor;
        if cursor < self.heap.load_addr {
            self.done = true;
            return None;
        }
        let cursor_file: usize = (cursor - self.heap.load_addr) as usize;
        if cursor_file >= self.heap.bytes.len() {
            self.done = true;
            return None;
        }
        match self.heap.object_at(cursor) {
            Ok(obj) => {
                let size: u32 = obj.size();
                let mask: u32 = self.align - 1;
                let advance: u32 = size.wrapping_add(mask) & !mask;
                self.cursor = cursor.saturating_add(advance);
                Some(Ok((cursor, obj)))
            },
            Err(e) => {
                self.done = true;
                Some(Err(e))
            },
        }
    }
}

impl<'a> Object<'a> {
    /// The object's address.
    pub fn offset(&self) -> (o: u32)
        ensures
            o == self@.offset,
    {
        self.base().offset
    }

    /// The object's size in bytes, header and all.
    pub fn size(&self) -> (n: u32)
        ensures
            n == self@.size,
    {
        self.base().size
    }

    /// The header's flags.
    pub fn flags(&self) -> (f: u8)
        ensures
            f == self@.flags,
    {
        self.base().flags
    }

    /// The object as a binary.
    pub fn as_binary(self) -> (r: Result<Binary<'a>, ParseError>)
        ensures
            r == (match self {
                Object::Binary(b) => Ok::<Binary<'a>, ParseError>(b),
                _ => Err(ParseError::NotABinary),
            }),
    {
        match self {
            Object::Binary(b) => Ok(b),
            _ => Err(ParseError::NotABinary),
        }
    }

    /// The object as an array.
    pub fn as_array(self) -> (r: Result<Array<'a>, ParseError>)
        ensures
            r == (match self {
                Object::Array(a) => Ok::<Array<'a>, ParseError>(a),
                _ => Err(ParseError::NotAnArray),
            }),
    {
        match self {
            Object::Array(a) => Ok(a),
            _ => Err(ParseError::NotAnArray),
        }
    }

    /// The object as a frame.
    pub fn as_frame(self) -> (r: Result<Frame<'a>, ParseError>)
        ensures
            r == (match self {
                Object::Frame(f) => Ok::<Frame<'a>, ParseError>(f),
                _ => Err(ParseError::NotAFrame),
            }),
    {
        match self {
            Object::Frame(f) => Ok(f),
            _ => Err(ParseError::NotAFrame),
        }
    }

    fn base(&self) -> (b: &ObjBase<'a>)
        ensures
            b@ == self@,
    {
        match self {
            Object::Binary(b) => &b.0,
            Object::Array(a) => &a.0,
            Object::Frame(f) => &f.0,
        }
    }
}

impl<'a> ObjBase<'a> {
    /// The word behind the header, NIL where it cannot be read.
    fn class_or_map(&self) -> (r: Ref)
        ensures
            r == self@.class(),
    {
        match read_word_u32(self.heap, self.offset.wrapping_add(8)) {
            Ok(w) => Ref(w),
            Err(_) => Ref(NIL),
        }
    }

    /// The bytes behind the class.
    fn body_len(&self) -> (n: u32)
        ensures
            n == self@.body_len(),
    {
        self.size.saturating_sub(12)
    }

    /// The number of slots.
    fn len(&self) -> (n: usize)
        ensures
            n == self@.slots(),
    {
        (self.body_len() / 4) as usize
    }

    /// The reference in slot `i`.
    fn slot(&self, i: usize) -> (r: Option<Ref>)
        ensures
            r == self@.slot(i as int),
    {
        if i >= self.len() {
            return None;
        }
        let off: u32 = self.offset.wrapping_add(12).wrapping_add((i as u32) * 4);
        match read_word_u32(self.heap, off) {
            Ok(w) => Some(Ref(w)),
            Err(_) => None,
        }
    }
}

/// The bytes before the first zero byte from `from` on, as a length.
pub open spec fn zero_at(s: Seq<u8>, from: int) -> int
    decreases s.len() - from,
{
    if from >= s.len() || s[from] == 0 {
        from
    } else {
        zero_at(s, from + 1)
    }
}

/// The name of a symbol: its data behind the hash, up to the terminator.
pub open spec fn symbol_bytes(data: Seq<u8>) -> Seq<u8> {
    if data.len() > 4 {
        data.subrange(4, zero_at(data, 4))
    } else {
        seq![]
    }
}

/// The name of a symbol as text, if it is UTF-8.
pub open spec fn symbol_text(o: ObjView) -> Option<Seq<char>> {
    if vstd::utf8::valid_utf8(symbol_bytes(o.data())) {
        Some(vstd::utf8::decode_utf8(symbol_bytes(o.data())))
    } else {
        None
    }
}

/// A byte with its case folded: the letters a to z to A to Z.
pub open spec fn folded(b: u8) -> int {
    if 0x61 <= b <= 0x7A {
        b - 0x20
    } else {
        b as int
    }
}

/// The sum of the folded bytes.
pub open spec fn folded_sum(s: Seq<u8>) -> int
    decreases s.len(),
{
    if s.len() == 0 {
        0
    } else {
        folded_sum(s.drop_last()) + folded(s.last())
    }
}

/// The hash of a symbol name.
pub open spec fn name_hash(s: Seq<u8>) -> u32 {
    (folded_sum(s) % 0x1_0000_0000 * 2_654_435_769 % 0x1_0000_0000) as u32
}

/// Names that differ in case alone have one hash.
pub proof fn hash_ignores_case(a: Seq<u8>, b: Seq<u8>)
    requires
        a.len() == b.len(),
        forall|i: int| 0 <= i < a.len() ==> folded(#[trigger] a[i]) == folded(b[i]),
    ensures
        name_hash(a) == name_hash(b),
{
    folded_sums_agree(a, b);
}

proof fn folded_sums_agree(a: Seq<u8>, b: Seq<u8>)
    requires
        a.len() == b.len(),
        forall|i: int| 0 <= i < a.len() ==> folded(#[trigger] a[i]) == folded(b[i]),
    ensures
        folded_sum(a) == folded_sum(b),
    decreases a.len(),
{
    if a.len() > 0 {
        folded_sums_agree(a.drop_last(), b.drop_last());
        assert(folded(a[a.len() - 1]) == folded(b[b.len() - 1]));
    }
}

impl<'a> Binary<'a> {
    /// The object is what its heap holds at its address.
    pub open spec fn wf(self) -> bool {
        self@.wf()
    }

    pub fn heap(&self) -> (h: Heap<'a>)
        ensures
            h == self.0.heap,
    {
        self.0.heap
    }

    pub fn offset(&self) -> (o: u32)
        ensures
            o == self@.offset,
    {
        self.0.offset
    }

    pub fn size(&self) -> (n: u32)
        ensures
            n == self@.size,
    {
        self.0.size
    }

    pub fn flags(&self) -> (f: u8)
        ensures
            f == self@.flags,
    {
        self.0.flags
    }

    /// The class reference.
    pub fn class(&self) -> (r: Ref)
        ensures
            r == self@.class(),
    {
        self.0.class_or_map()
    }

    /// The object's bytes, without header, class and padding.
    pub fn data(&self) -> (d: &'a [u8])
        requires
            self.wf(),
        ensures
            d@ == self@.data(),
    {
        let bytes = self.0.heap.bytes;
        let abs: u32 = self.0.offset.wrapping_add(12);
        let len: u64 = self.0.body_len() as u64;
        if abs >= self.0.heap.load_addr {
            let start: usize = (abs - self.0.heap.load_addr) as usize;
            if start as u64 + len <= bytes.len() as u64 {
                let end: usize = (start as u64 + len) as usize;
                return vstd::slice::slice_subrange(bytes, start, end);
            }
        }
        let none = vstd::slice::slice_subrange(bytes, 0, 0);
        assert(none@ =~= self@.data());
        none
    }

    /// The object as a symbol, if its class says so.
    pub fn as_symbol(&self) -> (s: Option<Symbol<'a>>)
        ensures
            s == (if self@.class().0 == SYMBOL_CLASS {
                Some(Symbol(*self))
            } else {
                None
            }),
    {
        if self.class().0 == SYMBOL_CLASS {
            Some(Symbol(*self))
        } else {
            None
        }
    }

    /// The characters of a string object.
    pub fn as_string_chars(&self) -> (it: StringChars<'a>)
        requires
            self.wf(),
        ensures
            it.wf(),
            it.data@ == self@.data(),
            it.i == 0,
            it.endian == self@.heap.endian,
    {
        StringChars { data: self.data(), i: 0, endian: self.0.heap.endian }
    }

    /// The bits of a real object's double: its first eight bytes, in the heap's byte order.
    pub fn as_real(&self) -> (bits: Option<u64>)
        requires
            self.wf(),
        ensures
            bits == real_bits(self@.data(), self@.heap.endian),
    {
        let d = self.data();
        if d.len() < 8 {
            return None;
        }
        let (high, low): (u32, u32) = match self.0.heap.endian {
            Endian::Big => (words::get_be32(d, 0), words::get_be32(d, 4)),
            Endian::Little => (words::get_le32(d, 4), words::get_le32(d, 0)),
        };
        Some(high as u64 * 0x1_0000_0000 + low as u64)
    }
}

/// The 64 bits at the start of `d`.
pub open spec fn real_bits(d: Seq<u8>, endian: Endian) -> Option<u64> {
    if d.len() < 8 {
        None
    } else {
        match endian {
            Endian::Big => Some(
                (words::be32(d, 0) * 0x1_0000_0000 + words::be32(d, 4)) as u64,
            ),
            Endian::Little => Some(
                (words::le32(d, 4) * 0x1_0000_0000 + words::le32(d, 0)) as u64,
            ),
        }
    }
}

/// A walk over the 16-bit characters of a string.
pub struct StringChars<'a> {
    pub data: &'a [u8],
    pub i: usize,
    pub endian: Endian,
}

/// The 16-bit unit at byte `i`.
pub open spec fn unit_at(data: Seq<u8>, i: int, endian: Endian) -> u16 {
    match endian {
        Endian::Big => (data[i] * 256 + data[i + 1]) as u16,
        Endian::Little => (data[i] + data[i + 1] * 256) as u16,
    }
}

impl<'a> StringChars<'a> {
    pub open spec fn wf(self) -> bool {
        self.i <= self.data@.len()
    }

    /// The next character. A zero ends the string, and so does the end of the data; the zero
    /// is passed over.
    pub fn next(&mut self) -> (c: Option<u16>)
        requires
            old(self).wf(),
        ensures
            final(self).wf(),
            final(self).data == old(self).data,
            final(self).endian == old(self).endian,
            old(self).i + 2 > old(self).data@.len() ==> c is None && final(self).i == old(self).i,
            old(self).i + 2 <= old(self).data@.len() ==> {
                let u = unit_at(old(self).data@, old(self).i as int, old(self).endian);
                &&& final(self).i == old(self).i + 2
                &&& c == (if u == 0 {
                    None
                } else {
                    Some(u)
                })
            },
    {
        if self.data.len() - self.i < 2 {
            return None;
        }
        let b0: u16 = self.data[self.i] as u16;
        let b1: u16 = self.data[self.i + 1] as u16;
        let c: u16 = match self.endian {
            Endian::Big => b0 * 256 + b1,
            Endian::Little => b0 + b1 * 256,
        };
        self.i = self.i + 2;
        if c == 0 {
            None
        } else {
            Some(c)
        }
    }
}

/// A symbol.
#[derive(Clone, Copy, Debug)]
pub struct Symbol<'a>(pub Binary<'a>);

impl<'a> View for Symbol<'a> {
    type V = ObjView;

    open spec fn view(&self) -> ObjView {
        self.0@
    }
}

/// A symbol in words.
pub open spec fn symbol_debug(o: ObjView) -> Seq<char> {
    match symbol_text(o) {
        Some(t) => "'"@ + t,
        None => "'<bad-utf8 @ 0x"@ + text::hex_pad(o.offset as nat, 8) + ">"@,
    }
}

/// What was read is a binary where its first flag is clear, and else a frame or an array, as its second flag
/// says; and it is an error where reading gives one.
pub proof fn objects_are_of_their_kind<'a>(r: Result<Object<'a>, ParseError>, v: Result<ObjView, ParseError>)
    requires
        reads_as(r, v),
    ensures
        r is Ok <==> v is Ok,
        r matches Err(e) ==> v == Err::<ObjView, ParseError>(e),
        r matches Ok(o) ==> o@ == v->Ok_0 && (o is Binary <==> o@.flags & 1 == 0) && (o is Frame
            <==> o@.flags & 1 != 0 && o@.flags & 2 != 0),
{
}

/// A symbol in words is its name behind a quote, and where that is no text the place of the symbol.
pub proof fn symbols_are_quoted(o: ObjView)
    ensures
        vstd::utf8::valid_utf8(symbol_bytes(o.data())) ==> symbol_debug(o) == "'"@ + vstd::utf8::decode_utf8(
            symbol_bytes(o.data()),
        ),
        !vstd::utf8::valid_utf8(symbol_bytes(o.data())) ==> text::within(
            text::hex_pad(o.offset as nat, 8),
            symbol_debug(o),
        ),
{
    if !vstd::utf8::valid_utf8(symbol_bytes(o.data())) {
        assert(symbol_debug(o) == "'<bad-utf8 @ 0x"@ + text::hex_pad(o.offset as nat, 8) + ">"@);
    }
}

impl<'a> Symbol<'a> {
    pub open spec fn wf(self) -> bool {
        self.0.wf()
    }

    /// The symbol as a binary.
    pub fn binary(&self) -> (b: Binary<'a>)
        ensures
            b == self.0,
    {
        self.0
    }

    pub fn offset(&self) -> (o: u32)
        ensures
            o == self@.offset,
    {
        self.0.offset()
    }

    /// The stored hash: the first word of the data, or zero where there is none.
    pub fn hash(&self) -> (h: u32)
        requires
            self.wf(),
        ensures
            ({
                let d = self@.data();
                h == (if d.len() < 4 {
                    0
                } else {
                    match self@.heap.endian {
                        Endian::Big => words::be32(d, 0),
                        Endian::Little => words::le32(d, 0),
                    }
                })
            }),
    {
        let d = self.0.data();
        if d.len() < 4 {
            return 0;
        }
        match self.0.heap().endian() {
            Endian::Big => get_be32(d, 0),
            Endian::Little => get_le32(d, 0),
        }
    }

    /// The name, without its terminator.
    pub fn name_bytes(&self) -> (n: &'a [u8])
        requires
            self.wf(),
        ensures
            n@ == symbol_bytes(self@.data()),
    {
        let d = self.0.data();
        if d.len() <= 4 {
            let none = vstd::slice::slice_subrange(d, 0, 0);
            assert(none@ =~= seq![]);
            return none;
        }
        let mut i: usize = 4;
        while i < d.len() && d[i] != 0
            invariant
                4 <= i <= d@.len(),
                zero_at(d@, 4) == zero_at(d@, i as int),
            decreases d.len() - i,
        {
            i = i + 1;
        }
        vstd::slice::slice_subrange(d, 4, i)
    }

    /// The name as text.
    pub fn name(&self) -> (r: Result<&'a str, ParseError>)
        requires
            self.wf(),
        ensures
            match symbol_text(self@) {
                Some(t) => r is Ok && r->Ok_0@ == t,
                None => r == Err::<&'a str, ParseError>(ParseError::BadUtf8),
            },
    {
        match utf8_text(self.name_bytes()) {
            Some(s) => Ok(s),
            None => Err(ParseError::BadUtf8),
        }
    }

    /// The symbol in words.
    pub fn text(&self) -> (out: String)
        requires
            self.wf(),
        ensures
            out@ == symbol_debug(self@),
    {
        let mut out = String::new();
        match self.name() {
            Ok(n) => {
                push_text(&mut out, "'");
                push_text(&mut out, n);
            },
            Err(_) => {
                push_text(&mut out, "'<bad-utf8 @ 0x");
                push_numeral(&mut out, self.offset() as u64, 16, 8);
                push_text(&mut out, ">");
            },
        }
        assert(out@ =~= symbol_debug(self@));
        out
    }

    /// The hash of a name.
    pub fn hash_of(name: &[u8]) -> (h: u32)
        ensures
            h == name_hash(name@),
    {
        let mut result: u32 = 0;
        let mut i: usize = 0;
        while i < name.len()
            invariant
                i <= name@.len(),
                result == folded_sum(name@.take(i as int)) % 0x1_0000_0000,
            decreases name.len() - i,
        {
            assert(name@.take(i + 1).drop_last() =~= name@.take(i as int));
            let b: u8 = name[i];
            let f: u8 = if 0x61 <= b && b <= 0x7A {
                b - 0x20
            } else {
                b
            };
            result = result.wrapping_add(f as u32);
            i = i + 1;
        }
        assert(name@.take(i as int) =~= name@);
        result.wrapping_mul(HASH_MUL)
    }
}

impl<'a> Array<'a> {
    pub fn heap(&self) -> (h: Heap<'a>)
        ensures
            h == self.0.heap,
    {
        self.0.heap
    }

    pub fn offset(&self) -> (o: u32)
        ensures
            o == self@.offset,
    {
        self.0.offset
    }

    pub fn size(&self) -> (n: u32)
        ensures
            n == self@.size,
    {
        self.0.size
    }

    pub fn flags(&self) -> (f: u8)
        ensures
            f == self@.flags,
    {
        self.0.flags
    }

    /// The class reference.
    pub fn class(&self) -> (r: Ref)
        ensures
            r == self@.class(),
    {
        self.0.class_or_map()
    }

    /// The number of slots.
    pub fn len(&self) -> (n: usize)
        ensures
            n == self@.slots(),
    {
        self.0.len()
    }

    pub fn is_empty(&self) -> (e: bool)
        ensures
            e == (self@.slots() == 0),
    {
        self.len() == 0
    }

    /// The reference in slot `i`.
    pub fn slot(&self, i: usize) -> (r: Option<Ref>)
        ensures
            r == self@.slot(i as int),
    {
        self.0.slot(i)
    }

    /// Walks the slots.
    pub fn iter(&self) -> (it: ArrayIter<'a>)
        ensures
            it.array == *self,
            it.i == 0,
    {
        ArrayIter { array: *self, i: 0 }
    }
}

/// A walk over slots.
pub struct ArrayIter<'a> {
    pub array: Array<'a>,
    pub i: usize,
}

impl<'a> ArrayIter<'a> {
    /// The next slot, up to the first that cannot be read.
    pub fn next(&mut self) -> (r: Option<Ref>)
        ensures
            r == old(self).array@.slot(old(self).i as int),
            final(self).array == old(self).array,
            final(self).i == old(self).i + (if r is Some {
                1int
            } else {
                0
            }),
    {
        match self.array.slot(self.i) {
            Some(r) => {
                self.i = self.i + 1;
                Some(r)
            },
            None => None,
        }
    }
}

/// The array that a map reference points at.
pub open spec fn map_array(h: HeapView, r: Ref) -> Option<ObjView> {
    if r.0 == NIL {
        None
    } else {
        match h.deref(r) {
            Ok(o) if o.kind() is Array => Some(o),
            _ => None,
        }
    }
}

/// The map that a map extends: its first slot.
pub open spec fn supermap(o: ObjView) -> Ref {
    match o.slot(0) {
        Some(r) => r,
        None => Ref(NIL),
    }
}

/// Whether a chain of maps ends after at most `n` of them.
pub open spec fn ends_within(h: HeapView, r: Ref, n: nat) -> bool
    decreases n,
{
    match map_array(h, r) {
        None => true,
        Some(o) => n > 0 && ends_within(h, supermap(o), (n - 1) as nat),
    }
}

/// Whether a chain of maps ends.
pub open spec fn ends(h: HeapView, r: Ref) -> bool {
    exists|n: nat| ends_within(h, r, n)
}

/// The symbol that a reference points at.
pub open spec fn symbol_at(h: HeapView, r: Ref) -> Option<ObjView> {
    match h.deref(r) {
        Ok(o) if o.kind() is Binary && o.class().0 == SYMBOL_CLASS => Some(o),
        _ => None,
    }
}

/// The symbols of one map: its slots from the second on. `None` stands for one that is not
/// a symbol.
pub open spec fn local_names(o: ObjView) -> Seq<Option<ObjView>> {
    Seq::new(
        (if o.slots() > 0 {
            o.slots() - 1
        } else {
            0
        }) as nat,
        |k: int|
            match o.slot(1 + k) {
                Some(r) if o.slot(0) is Some => symbol_at(o.heap, r),
                _ => None,
            },
    )
}

/// The symbols of a chain of at most `n` maps, those of a map behind those of the map that
/// it extends.
pub open spec fn chain_names(h: HeapView, r: Ref, n: nat) -> Seq<Option<ObjView>>
    decreases n,
{
    match map_array(h, r) {
        None => seq![],
        Some(o) => if n == 0 {
            seq![]
        } else {
            chain_names(h, supermap(o), (n - 1) as nat) + local_names(o)
        },
    }
}

/// The symbols that name the slots of a frame with map `r`, in slot order.
pub open spec fn slot_names(h: HeapView, r: Ref) -> Seq<Option<ObjView>> {
    chain_names(h, r, choose|n: nat| ends_within(h, r, n))
}

proof fn names_do_not_depend_on_bound(h: HeapView, r: Ref, n: nat, m: nat)
    requires
        ends_within(h, r, n),
        ends_within(h, r, m),
    ensures
        chain_names(h, r, n) == chain_names(h, r, m),
    decreases n,
{
    match map_array(h, r) {
        None => {},
        Some(o) => {
            names_do_not_depend_on_bound(h, supermap(o), (n - 1) as nat, (m - 1) as nat);
        },
    }
}

/// A frame's slots are named by the map that its map extends, and then by its own map.
pub proof fn supermap_names_come_first(h: HeapView, r: Ref)
    requires
        ends(h, r),
        map_array(h, r) is Some,
    ensures
        ({
            let o = map_array(h, r)->0;
            &&& ends(h, supermap(o))
            &&& slot_names(h, r) == slot_names(h, supermap(o)) + local_names(o)
        }),
{
    let n = choose|n: nat| ends_within(h, r, n);
    let o = map_array(h, r)->0;
    assert(ends_within(h, supermap(o), (n - 1) as nat));
    let m = choose|m: nat| ends_within(h, supermap(o), m);
    names_do_not_depend_on_bound(h, supermap(o), (n - 1) as nat, m);
}

/// Entry `i` of a list of names.
pub open spec fn nth_name(names: Seq<Option<ObjView>>, i: int) -> Option<ObjView> {
    if 0 <= i < names.len() {
        names[i]
    } else {
        None
    }
}

/// Slot by slot: the first slots have the names that the extended map gives them, the next ones
/// the symbols in the map's own slots from the second on, and no slot behind has a name. What is
/// no map names nothing.
pub proof fn names_by_slot(h: HeapView, r: Ref, i: int)
    requires
        ends(h, r),
        map_array(h, r) is Some,
        map_array(h, r)->0.slot(0) is Some,
        0 <= i,
    ensures
        ({
            let o = map_array(h, r)->0;
            let above = slot_names(h, supermap(o));
            let c = above.len();
            let n = o.slots() - 1;
            let names = slot_names(h, r);
            &&& o.slot(0) == Some(supermap(o))
            &&& names.len() == c + n
            &&& i < c ==> nth_name(names, i) == nth_name(above, i)
            &&& c <= i < c + n ==> nth_name(names, i) == (match o.slot(1 + i - c) {
                Some(s) => symbol_at(o.heap, s),
                None => None,
            })
            &&& i >= c + n ==> nth_name(names, i) is None
        }),
        nth_name(slot_names(h, Ref(NIL)), i) is None,
{
    supermap_names_come_first(h, r);
    assert(map_array(h, Ref(NIL)) is None);
    assert(slot_names(h, Ref(NIL)) =~= seq![]);
}

/// The array that a map reference points at.
fn deref_map<'a>(heap: Heap<'a>, map_ref: Ref) -> (a: Option<Array<'a>>)
    ensures
        match map_array(heap@, map_ref) {
            Some(o) => a is Some && a->0@ == o,
            None => a is None,
        },
{
    if map_ref.is_nil() {
        return None;
    }
    match heap.deref(map_ref) {
        Ok(Object::Array(a)) => Some(a),
        _ => None,
    }
}

/// The number of names of a chain of maps, if it is no more than `limit`.
pub fn count_map_names(heap: Heap<'_>, map_ref: Ref, limit: usize) -> (count: Option<usize>)
    requires
        ends(heap@, map_ref),
    ensures
        match count {
            Some(c) => c == slot_names(heap@, map_ref).len() && c <= limit,
            None => slot_names(heap@, map_ref).len() > limit,
        },
{
    let ghost total = slot_names(heap@, map_ref).len();
    let ghost mut n: nat = choose|n: nat| ends_within(heap@, map_ref, n);
    let mut cur: Ref = map_ref;
    let mut left: usize = limit;
    loop
        invariant
            left <= limit,
            ends_within(heap@, cur, n),
            total == slot_names(heap@, map_ref).len(),
            total == limit - left + chain_names(heap@, cur, n).len(),
        decreases n,
    {
        let arr = match deref_map(heap, cur) {
            Some(a) => a,
            None => {
                return Some(limit - left);
            },
        };
        let local: usize = arr.len().saturating_sub(1);
        if local > left {
            return None;
        }
        left = left - local;
        cur = match arr.slot(0) {
            Some(r) => r,
            None => Ref(NIL),
        };
        proof {
            n = (n - 1) as nat;
        }
    }
}

/// The symbol that names slot `i` of a frame with map `map_ref`.
pub fn map_name_at<'a>(heap: Heap<'a>, map_ref: Ref, i: usize) -> (s: Option<Symbol<'a>>)
    requires
        ends(heap@, map_ref),
    ensures
        match nth_name(slot_names(heap@, map_ref), i as int) {
            Some(o) => s is Some && s->0@ == o && o.wf(),
            None => s is None,
        },
{
    let mut cur: Ref = map_ref;
    let ghost mut n: nat = choose|n: nat| ends_within(heap@, map_ref, n);
    loop
        invariant
            ends_within(heap@, cur, n),
            nth_name(slot_names(heap@, map_ref), i as int) == nth_name(
                slot_names(heap@, cur),
                i as int,
            ),
        decreases n,
    {
        let arr = match deref_map(heap, cur) {
            Some(a) => a,
            None => {
                return None;
            },
        };
        proof {
            supermap_names_come_first(heap@, cur);
        }
        let ghost below = slot_names(heap@, supermap(arr@));
        let supermap_ref = match arr.slot(0) {
            Some(r) => r,
            None => {
                assert(below =~= seq![]);
                return None;
            },
        };
        match count_map_names(heap, supermap_ref, i) {
            None => {
                cur = supermap_ref;
                proof {
                    n = (n - 1) as nat;
                }
            },
            Some(super_count) => {
                let local_index: usize = i - super_count;
                let local_count: usize = arr.len().saturating_sub(1);
                if local_index >= local_count {
                    return None;
                }
                let name_ref = match arr.slot(1 + local_index) {
                    Some(r) => r,
                    None => {
                        return None;
                    },
                };
                return match heap.deref(name_ref) {
                    Ok(Object::Binary(b)) => b.as_symbol(),
                    _ => None,
                };
            },
        }
    }
}

/// Whether the name of slot `i` is the text `target`.
pub open spec fn named(names: Seq<Option<ObjView>>, i: int, target: Seq<char>) -> bool {
    match nth_name(names, i) {
        Some(o) => symbol_text(o) == Some(target),
        None => false,
    }
}

/// The value of the first slot, from `i` on, that is named `target`; the search ends at a
/// slot that cannot be read.
pub open spec fn find_slot(
    o: ObjView,
    names: Seq<Option<ObjView>>,
    target: Seq<char>,
    i: int,
) -> Option<Ref>
    decreases o.slots() - i,
{
    if i >= o.slots() || o.slot(i) is None {
        None
    } else if named(names, i, target) {
        o.slot(i)
    } else {
        find_slot(o, names, target, i + 1)
    }
}

/// Whether two byte strings are equal.
fn same_bytes(a: &[u8], b: &[u8]) -> (same: bool)
    ensures
        same == (a@ == b@),
{
    if a.len() != b.len() {
        return false;
    }
    let mut i: usize = 0;
    while i < a.len()
        invariant
            i <= a@.len(),
            a@.len() == b@.len(),
            forall|k: int| 0 <= k < i ==> a@[k] == b@[k],
        decreases a.len() - i,
    {
        if a[i] != b[i] {
            return false;
        }
        i = i + 1;
    }
    assert(a@ =~= b@);
    true
}

impl<'a> Frame<'a> {
    /// The chain of maps that name the frame's slots ends.
    pub open spec fn map_ends(self) -> bool {
        ends(self@.heap, self@.class())
    }

    /// The symbols that name the frame's slots.
    pub open spec fn names(self) -> Seq<Option<ObjView>> {
        slot_names(self@.heap, self@.class())
    }

    pub fn heap(&self) -> (h: Heap<'a>)
        ensures
            h == self.0.heap,
    {
        self.0.heap
    }

    pub fn offset(&self) -> (o: u32)
        ensures
            o == self@.offset,
    {
        self.0.offset
    }

    pub fn size(&self) -> (n: u32)
        ensures
            n == self@.size,
    {
        self.0.size
    }

    pub fn flags(&self) -> (f: u8)
        ensures
            f == self@.flags,
    {
        self.0.flags
    }

    /// The map reference.
    pub fn map(&self) -> (r: Ref)
        ensures
            r == self@.class(),
    {
        self.0.class_or_map()
    }

    /// Whether the chain of maps has at most `limit` of them: only such a chain can be
    /// searched for names.
    pub fn map_ends_within(&self, limit: usize) -> (b: bool)
        ensures
            b == ends_within(self@.heap, self@.class(), limit as nat),
            b ==> self.map_ends(),
    {
        let mut cur: Ref = self.map();
        let mut left: usize = limit;
        loop
            invariant
                ends_within(self@.heap, self@.class(), limit as nat) == ends_within(
                    self@.heap,
                    cur,
                    left as nat,
                ),
            decreases left,
        {
            let arr = match deref_map(self.0.heap, cur) {
                Some(a) => a,
                None => {
                    return true;
                },
            };
            if left == 0 {
                return false;
            }
            left = left - 1;
            cur = match arr.slot(0) {
                Some(r) => r,
                None => Ref(NIL),
            };
        }
    }

    /// The number of slots.
    pub fn len(&self) -> (n: usize)
        ensures
            n == self@.slots(),
    {
        self.0.len()
    }

    pub fn is_empty(&self) -> (e: bool)
        ensures
            e == (self@.slots() == 0),
    {
        self.len() == 0
    }

    /// The value in slot `i`.
    pub fn slot(&self, i: usize) -> (r: Option<Ref>)
        ensures
            r == self@.slot(i as int),
    {
        self.0.slot(i)
    }

    /// The symbol that names slot `i`.
    pub fn name(&self, i: usize) -> (s: Option<Symbol<'a>>)
        requires
            self.map_ends(),
        ensures
            match nth_name(self.names(), i as int) {
                Some(o) => s is Some && s->0@ == o && o.wf(),
                None => s is None,
            },
    {
        map_name_at(self.0.heap, self.map(), i)
    }

    /// The value of the slot with the given name.
    pub fn lookup(&self, name: &str) -> (r: Option<Ref>)
        requires
            self.map_ends(),
        ensures
            r == find_slot(self@, self.names(), name@, 0),
    {
        let target = name.as_bytes();
        let mut i: usize = 0;
        loop
            invariant
                i <= self@.slots(),
                self.map_ends(),
                target@ == vstd::utf8::encode_utf8(name@),
                find_slot(self@, self.names(), name@, 0) == find_slot(
                    self@,
                    self.names(),
                    name@,
                    i as int,
                ),
            decreases self@.slots() - i,
        {
            let value = match self.slot(i) {
                Some(v) => v,
                None => {
                    return None;
                },
            };
            if let Some(sym) = self.name(i) {
                let ghost bytes = symbol_bytes(sym@.data());
                proof {
                    vstd::utf8::encode_utf8_valid_utf8(name@);
                    vstd::utf8::encode_utf8_decode_utf8(name@);
                    if vstd::utf8::valid_utf8(bytes) {
                        vstd::utf8::decode_utf8_encode_utf8(bytes);
                    }
                }
                if same_bytes(sym.name_bytes(), target) {
                    return Some(value);
                }
            }
            i = i + 1;
        }
    }

    /// Walks the values.
    pub fn iter_slots(&self) -> (it: ArrayIter<'a>)
        ensures
            it.array@ == self@,
            it.i == 0,
    {
        ArrayIter { array: Array(self.0), i: 0 }
    }

    /// Walks the names and values.
    pub fn iter(&self) -> (it: FrameIter<'a>)
        ensures
            it.frame == *self,
            it.i == 0,
    {
        FrameIter { frame: *self, i: 0 }
    }
}

/// A walk over the names and values of a frame.
pub struct FrameIter<'a> {
    pub frame: Frame<'a>,
    pub i: usize,
}

impl<'a> FrameIter<'a> {
    /// The next name and value.
    pub fn next(&mut self) -> (item: Option<(Option<Symbol<'a>>, Ref)>)
        requires
            old(self).frame.map_ends(),
        ensures
            final(self).frame == old(self).frame,
            match (item, old(self).frame@.slot(old(self).i as int)) {
                (None, None) => final(self).i == old(self).i,
                (Some((name, value)), Some(v)) => {
                    &&& value == v
                    &&& final(self).i == old(self).i + 1
                    &&& match (name, nth_name(old(self).frame.names(), old(self).i as int)) {
                        (Some(sym), Some(o)) => sym@ == o && o.wf(),
                        (None, None) => true,
                        _ => false,
                    }
                },
                _ => false,
            },
    {
        match self.frame.slot(self.i) {
            Some(value) => {
                let name = self.frame.name(self.i);
                self.i = self.i + 1;
                Some((name, value))
            },
            None => None,
        }
    }
}

/// A look-up finds the first slot of a name, whatever the slots hold: where slot `i` and those before
/// it can be read, the symbol of slot `i` has the text looked for, and no earlier slot's symbol has
/// it, the look-up gives the value of slot `i`.
pub proof fn lookup_finds_the_first_slot_of_a_name(
    o: ObjView,
    names: Seq<Option<ObjView>>,
    target: Seq<char>,
    i: int,
)
    requires
        0 <= i < o.slots(),
        i < names.len(),
        forall|j: int| 0 <= j <= i ==> #[trigger] o.slot(j) is Some,
        names[i] is Some,
        symbol_text(names[i]->0) == Some(target),
        forall|j: int|
            0 <= j < i && #[trigger] names[j] is Some ==> symbol_text(names[j]->0) != Some(target),
    ensures
        find_slot(o, names, target, 0) == o.slot(i),
{
    search_reaches(o, names, target, 0, i);
}

proof fn search_reaches(
    o: ObjView,
    names: Seq<Option<ObjView>>,
    target: Seq<char>,
    from: int,
    i: int,
)
    requires
        0 <= from <= i < o.slots(),
        i < names.len(),
        forall|j: int| 0 <= j <= i ==> #[trigger] o.slot(j) is Some,
        names[i] is Some,
        symbol_text(names[i]->0) == Some(target),
        forall|j: int|
            0 <= j < i && #[trigger] names[j] is Some ==> symbol_text(names[j]->0) != Some(target),
    ensures
        find_slot(o, names, target, from) == o.slot(i),
    decreases i - from,
{
    assert(o.slot(from) is Some);
    if from < i {
        assert(!named(names, from, target));
        search_reaches(o, names, target, from + 1, i);
    }
}

/// A look-up finds nothing else: where no slot that can be read, with all slots before it, has a
/// symbol with the text looked for, there is no value.
pub proof fn lookup_of_an_unknown_name_finds_nothing(
    o: ObjView,
    names: Seq<Option<ObjView>>,
    target: Seq<char>,
)
    requires
        forall|i: int|
            0 <= i < o.slots() && i < names.len() && #[trigger] names[i] is Some && (forall|j: int|
                0 <= j <= i ==> #[trigger] o.slot(j) is Some) ==> symbol_text(names[i]->0) != Some(
                target,
            ),
    ensures
        find_slot(o, names, target, 0) is None,
{
    search_fails(o, names, target, 0);
}

proof fn search_fails(o: ObjView, names: Seq<Option<ObjView>>, target: Seq<char>, from: int)
    requires
        0 <= from,
        forall|j: int| 0 <= j < from ==> #[trigger] o.slot(j) is Some,
        forall|i: int|
            0 <= i < o.slots() && i < names.len() && #[trigger] names[i] is Some && (forall|j: int|
                0 <= j <= i ==> #[trigger] o.slot(j) is Some) ==> symbol_text(names[i]->0) != Some(
                target,
            ),
    ensures
        find_slot(o, names, target, from) is None,
    decreases o.slots() - from,
{
    if from < o.slots() && o.slot(from) is Some {
        if from < names.len() && names[from] is Some {
            assert(symbol_text(names[from]->0) != Some(target));
        }
        search_fails(o, names, target, from + 1);
    }
}

/// The word at index `i` of a byte string, the most significant byte first or last.
pub open spec fn ordered_word(s: Seq<u8>, i: int, endian: Endian) -> int {
    if endian == Endian::Big {
        0x100_0000 * s[i] + 0x1_0000 * s[i + 1] + 0x100 * s[i + 2] + s[i + 3]
    } else {
        0x100_0000 * s[i + 3] + 0x1_0000 * s[i + 2] + 0x100 * s[i + 1] + s[i]
    }
}

/// What a header says. An object is there exactly where its two header words lie in the heap and its
/// size, the upper three bytes of the first, covers them and stays in the heap; the lowest byte holds
/// the flags. Bit 0 makes it slotted, and bit 1 makes a slotted object a frame.
pub proof fn headers_are_read(h: HeapView, off: u32)
    requires
        h.load_addr + h.bytes.len() < 0x1_0000_0000,
    ensures
        ({
            let i = off - h.load_addr;
            let w = ordered_word(h.bytes, i, h.endian);
            let there = 0 <= i && i + 8 <= h.bytes.len();
            let sound = w / 256 >= 8 && i + w / 256 <= h.bytes.len();
            &&& there && sound <==> h.object(off) is Ok
            &&& there && !sound ==> h.object(off) == Err::<ObjView, ParseError>(
                ParseError::BadHeader {
                    offset: off,
                    size: (w / 256) as u32,
                    flags: (w % 256) as u8,
                },
            )
            &&& !there ==> h.object(off) is Err && h.object(off)->Err_0 is OutOfBounds
            &&& h.object(off) matches Ok(o) ==> {
                &&& o.heap == h
                &&& o.offset == off
                &&& o.size == w / 256
                &&& o.flags == w % 256
                &&& o.kind() is Binary <==> o.flags & 1u8 == 0
                &&& o.kind() is Frame <==> o.flags & 1u8 != 0 && o.flags & 2u8 != 0
                &&& o.kind() is Array <==> o.flags & 1u8 != 0 && o.flags & 2u8 == 0
            }
        }),
{
    reveal(words::be32);
    reveal(words::le32);
}

/// Behind the header of an object lies its class, or its map, and behind that its body: the bytes of
/// a binary, or four bytes for each slot of an array or a frame. Every slot can be read, and no slot
/// lies behind them.
pub proof fn bodies_lie_behind_headers(o: ObjView, k: int)
    requires
        o.wf(),
        o.heap.load_addr + o.heap.bytes.len() <= 0x1_0000_0000,
        o.size >= 12,
        0 <= k,
    ensures
        ({
            let i = o.offset - o.heap.load_addr;
            &&& o.class().0 == ordered_word(o.heap.bytes, i + 8, o.heap.endian)
            &&& o.data() == o.heap.bytes.subrange(i + 12, i + o.size)
            &&& o.slots() == (o.size - 12) / 4
            &&& 16 + 4 * k <= o.size ==> o.slot(k) is Some && (o.slot(k)->0).0 == ordered_word(
                o.heap.bytes,
                i + 12 + 4 * k,
                o.heap.endian,
            )
            &&& 16 + 4 * k > o.size ==> o.slot(k) is None
        }),
{
    reveal(words::be32);
    reveal(words::le32);
}

/// The name of a symbol starts behind the four bytes of its hash, holds no zero byte, and goes on to
/// the first zero byte or to the end of the data.
pub proof fn names_end_at_the_first_zero(data: Seq<u8>)
    ensures
        ({
            let n = symbol_bytes(data);
            let end = 4 + n.len() as int;
            &&& data.len() <= 4 ==> n.len() == 0
            &&& data.len() > 4 ==> {
                &&& end <= data.len()
                &&& n == data.subrange(4, end)
                &&& forall|i: int| 4 <= i < end ==> #[trigger] data[i] != 0
                &&& end < data.len() ==> data[end] == 0
            }
        }),
{
    if data.len() > 4 {
        first_zero(data, 4);
    }
}

proof fn first_zero(s: Seq<u8>, from: int)
    requires
        0 <= from <= s.len(),
    ensures
        from <= zero_at(s, from) <= s.len(),
        forall|i: int| from <= i < zero_at(s, from) ==> #[trigger] s[i] != 0,
        zero_at(s, from) < s.len() ==> s[zero_at(s, from)] == 0,
    decreases s.len() - from,
{
    if from < s.len() && s[from] != 0 {
        first_zero(s, from + 1);
    }
}

/// Every reference is one of five kinds, and its kind and value give it back: four times an integer,
/// an address and one, sixteen times a character and ten, four times any other immediate and two, or
/// a table and an index of a magic pointer with three. NIL is an immediate and TRUE is a character.
pub proof fn kinds_give_references_back(r: u32)
    ensures
        match kind_of(r) {
            RefKind::Integer(i) => r == (if i < 0 {
                4 * i + 0x1_0000_0000
            } else {
                4 * i
            }),
            RefKind::Pointer(p) => r == p + 1 && p % 4 == 0,
            RefKind::Character(c) => r % 0x10_0000 == 16 * c + 10,
            RefKind::Special(s) => r == 4 * s + 2 && s % 4 != 2,
            RefKind::MagicPointer { table, index } => r == 0x1_0000 * table + 4 * index + 3,
        },
        kind_of(NIL) == RefKind::Special(0),
        kind_of(TRUE) == RefKind::Character(1),
        pointer_of(r) is Some <==> r % 4 == 1,
        pointer_of(r) is Some ==> pointer_of(r)->0 == r - 1,
{
    if r % 4 == 0 && r >= 0x8000_0000 {
        assert((r - 0x1_0000_0000) % 4 == 0);
    }
}

/// The hash of a name is the sum of its bytes times 2654435769, modulo two to the 32; the letters a
/// to z count as A to Z.
pub proof fn hash_sums_bytes(s: Seq<u8>, b: u8)
    ensures
        name_hash(Seq::empty()) == 0,
        name_hash(s.push(b)) == (name_hash(s) + (if 97 <= b <= 122 {
            b - 32
        } else {
            b as int
        }) * 2_654_435_769) % 0x1_0000_0000,
{
    let m = 0x1_0000_0000int;
    let k = 2_654_435_769int;
    let f = folded_sum(s);
    let d = folded(b);
    assert(s.push(b).drop_last() =~= s);
    assert(folded_sum(s.push(b)) == f + d);
    assert(folded_sum(Seq::<u8>::empty()) == 0);
    vstd::arithmetic::div_mod::lemma_mul_mod_noop(f, k, m);
    vstd::arithmetic::div_mod::lemma_mul_mod_noop(f + d, k, m);
    vstd::arithmetic::div_mod::lemma_mul_mod_noop_left(f, k, m);
    vstd::arithmetic::div_mod::lemma_mul_mod_noop_left(f + d, k, m);
    assert(name_hash(s) == (f * k) % m);
    assert(name_hash(s.push(b)) == ((f + d) * k) % m);
    assert((f + d) * k == f * k + d * k) by (nonlinear_arith);
    vstd::arithmetic::div_mod::lemma_add_mod_noop(f * k, d * k, m);
    vstd::arithmetic::div_mod::lemma_add_mod_noop((f * k) % m, d * k, m);
}

/// A reference names a symbol exactly where it points at a binary object whose class is that of
/// symbols.
pub proof fn symbols_are_binaries_of_their_class(h: HeapView, r: Ref)
    ensures
        symbol_at(h, r) is Some <==> r.0 % 4 == 1 && (h.object((r.0 - 1) as u32) matches Ok(o)
            && o.flags & 1u8 == 0 && o.class().0 == 0x55552),
        symbol_at(h, r) is Some ==> Ok::<ObjView, ParseError>(symbol_at(h, r)->0) == h.object(
            (r.0 - 1) as u32,
        ),
{
}

/// The 64 bits of a real are its eight bytes, the most significant first in a big-endian heap and
/// last in a little-endian one; a character of a string is two bytes in the same order.
pub proof fn reals_and_characters_follow_the_byte_order(d: Seq<u8>, i: int)
    ensures
        d.len() < 8 <==> real_bits(d, Endian::Big) is None,
        d.len() < 8 <==> real_bits(d, Endian::Little) is None,
        d.len() >= 8 ==> real_bits(d, Endian::Big)->0 == ordered_word(d, 0, Endian::Big)
            * 0x1_0000_0000 + ordered_word(d, 4, Endian::Big),
        d.len() >= 8 ==> real_bits(d, Endian::Little)->0 == ordered_word(d, 4, Endian::Little)
            * 0x1_0000_0000 + ordered_word(d, 0, Endian::Little),
        unit_at(d, i, Endian::Big) == 256 * d[i] + d[i + 1],
        unit_at(d, i, Endian::Little) == d[i] + 256 * d[i + 1],
{
    reveal(words::be32);
    reveal(words::le32);
}

/// Where a heap was loaded only shifts its addresses: the same bytes loaded at `load` hold
/// at `off + load` what they hold at `off` when loaded at zero.
pub proof fn load_address_only_shifts(bytes: Seq<u8>, endian: Endian, load: u32, off: u32)
    requires
        off + load + 4 <= u32::MAX,
    ensures
        ({
            let there = HeapView { bytes, load_addr: load, endian };
            let here = HeapView { bytes, load_addr: 0, endian };
            match (there.object((off + load) as u32), here.object(off)) {
                (Ok(a), Ok(b)) => {
                    &&& a.size == b.size
                    &&& a.flags == b.flags
                    &&& a.offset == b.offset + load
                },
                (Err(_), Err(_)) => true,
                _ => false,
            }
        }),
{
}

/// Below the address that a heap was loaded at there is nothing.
pub proof fn nothing_below_load_address(h: HeapView, off: u32)
    requires
        off < h.load_addr,
    ensures
        h.object(off) == Err::<ObjView, ParseError>(ParseError::OutOfBounds { offset: off, len: 4 }),
{
}

/// With a power-of-two alignment, a walk goes on at the next multiple of it that is not
/// inside the object.
pub proof fn rounding_is_to_alignment(size: u32)
    requires
        size < 0x100_0000,
    ensures
        rounded(size, 4) == (size + 3) / 4 * 4,
        rounded(size, 8) == (size + 7) / 8 * 8,
{
    alignment_bits((size + 3) as u32, (size + 7) as u32);
}

proof fn alignment_bits(a: u32, b: u32)
    by (bit_vector)
    ensures
        a & !3u32 == a / 4 * 4,
        b & !7u32 == b / 8 * 8,
{
}

} // verus!

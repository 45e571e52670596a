use newton_hypervisor::newton_objects::{
    count_map_names, flags, map_name_at, Endian, Heap, Object, ParseError, Ref, RefKind, Symbol,
    NIL, SYMBOL_CLASS, TRUE,
};

#[test]
fn ref_integers() {
    assert_eq!(Ref(0x14).kind(), RefKind::Integer(5));
    assert_eq!(Ref(0xFFFFFFFC).kind(), RefKind::Integer(-1));
    assert_eq!(Ref(0x00000000).kind(), RefKind::Integer(0));
}

#[test]
fn ref_pointer() {
    let r = Ref(0x0001_2345);
    assert_eq!(r.kind(), RefKind::Pointer(0x0001_2344));
    assert_eq!(r.pointer_offset(), Some(0x0001_2344));
    assert!(r.is_pointer());
}

#[test]
fn ref_nil_and_special() {
    assert_eq!(Ref(NIL).kind(), RefKind::Special(0));
    assert!(Ref(NIL).is_nil());
    assert_eq!(Ref(0x06).kind(), RefKind::Special(1));
}

#[test]
fn ref_character() {
    let r = Ref(0x41A);
    assert_eq!(r.kind(), RefKind::Character(0x41));
    assert_eq!(Ref(TRUE).kind(), RefKind::Character(1));
}

#[test]
fn ref_magic_pointer() {
    let raw = (2u32 << 16) | (42u32 << 2) | 0b11;
    let r = Ref(raw);
    assert_eq!(r.kind(), RefKind::MagicPointer { table: 2, index: 42 });
}

#[test]
fn symbol_hash_matches_spec() {
    let h_foo = Symbol::hash_of(b"foo");
    let folded: u32 = (b'F' as u32) + (b'O' as u32) + (b'O' as u32);
    assert_eq!(h_foo, folded.wrapping_mul(2_654_435_769));

    assert_eq!(Symbol::hash_of(b"Foo"), Symbol::hash_of(b"FOO"));
    assert_eq!(Symbol::hash_of(b"Foo"), Symbol::hash_of(b"foo"));

    let expected: u32 = (b'_' as u32)
        + (b'P' as u32)
        + (b'R' as u32)
        + (b'O' as u32)
        + (b'T' as u32)
        + (b'O' as u32);
    assert_eq!(Symbol::hash_of(b"_proto"), expected.wrapping_mul(2_654_435_769));
}

/// Assembles a packed heap of objects.
struct Builder {
    bytes: Vec<u8>,
}

impl Builder {
    fn new() -> Self {
        Self { bytes: Vec::new() }
    }

    fn align4(&mut self) {
        while self.bytes.len() % 4 != 0 {
            self.bytes.push(0);
        }
    }

    fn ptr(off: u32) -> Ref {
        assert!(off & 0b11 == 0, "object offsets must be 4-byte aligned");
        Ref(off | 0b01)
    }

    fn header(&mut self, size: u32, flags: u8) {
        let w0 = (size << 8) | flags as u32;
        self.bytes.extend_from_slice(&w0.to_be_bytes());
        self.bytes.extend_from_slice(&[0u8; 4]);
    }

    fn binary(&mut self, class: Ref, data: &[u8]) -> u32 {
        self.align4();
        let off = self.bytes.len() as u32;
        let size = 8 + 4 + data.len() as u32;
        self.header(size, flags::HEADER_BASE);
        self.bytes.extend_from_slice(&class.0.to_be_bytes());
        self.bytes.extend_from_slice(data);
        self.align4();
        off
    }

    fn symbol(&mut self, name: &str) -> u32 {
        let mut data = Vec::new();
        let hash = Symbol::hash_of(name.as_bytes());
        data.extend_from_slice(&hash.to_be_bytes());
        data.extend_from_slice(name.as_bytes());
        data.push(0);
        self.binary(Ref(SYMBOL_CLASS), &data)
    }

    fn slotted(&mut self, flags_byte: u8, class: Ref, slots: &[Ref]) -> u32 {
        self.align4();
        let off = self.bytes.len() as u32;
        let size = 8 + 4 + (slots.len() as u32) * 4;
        self.header(size, flags_byte);
        self.bytes.extend_from_slice(&class.0.to_be_bytes());
        for s in slots {
            self.bytes.extend_from_slice(&s.0.to_be_bytes());
        }
        off
    }

    fn array(&mut self, class: Ref, slots: &[Ref]) -> u32 {
        self.slotted(flags::HEADER_BASE | flags::KOBJ_SLOTTED, class, slots)
    }

    fn frame(&mut self, map: Ref, slots: &[Ref]) -> u32 {
        let flags_byte = flags::HEADER_BASE | flags::KOBJ_SLOTTED | flags::KOBJ_FRAME;
        self.slotted(flags_byte, map, slots)
    }
}

#[test]
fn walk_simple_frame() {
    let mut b = Builder::new();
    let world_off = b.symbol("world");
    let name_sym_off = b.symbol("name");
    let count_sym_off = b.symbol("count");

    let map_off = b.array(
        Ref(0),
        &[Ref(NIL), Builder::ptr(name_sym_off), Builder::ptr(count_sym_off)],
    );
    let frame_off = b.frame(Builder::ptr(map_off), &[Builder::ptr(world_off), Ref(42 << 2)]);

    let heap = Heap::new(&b.bytes);
    let frame = heap.object_at(frame_off).unwrap().as_frame().unwrap();

    assert_eq!(frame.len(), 2);

    let n0 = frame.name(0).unwrap();
    assert_eq!(n0.name().unwrap(), "name");
    let n1 = frame.name(1).unwrap();
    assert_eq!(n1.name().unwrap(), "count");

    let v0 = frame.slot(0).unwrap();
    let world_obj = heap.deref(v0).unwrap().as_binary().unwrap();
    let world_sym = world_obj.as_symbol().unwrap();
    assert_eq!(world_sym.name().unwrap(), "world");

    let v1 = frame.slot(1).unwrap();
    assert_eq!(v1.kind(), RefKind::Integer(42));

    let count = frame.lookup("count").unwrap();
    assert_eq!(count.kind(), RefKind::Integer(42));
    let missing = frame.lookup("nope");
    assert!(missing.is_none());

    let mut pairs: Vec<(&str, Ref)> = Vec::new();
    let mut it = frame.iter();
    while let Some((s, r)) = it.next() {
        pairs.push((s.unwrap().name().unwrap(), r));
    }
    assert_eq!(pairs.len(), 2);
    assert_eq!(pairs[0].0, "name");
    assert_eq!(pairs[1].0, "count");
}

#[test]
fn walk_supermap_frame() {
    let mut b = Builder::new();
    let sym_a = b.symbol("a");
    let sym_b = b.symbol("b");
    let supermap_off = b.array(Ref(0), &[Ref(NIL), Builder::ptr(sym_a)]);
    let localmap_off = b.array(Ref(0), &[Builder::ptr(supermap_off), Builder::ptr(sym_b)]);
    let frame_off = b.frame(Builder::ptr(localmap_off), &[Ref(1 << 2), Ref(2 << 2)]);

    let heap = Heap::new(&b.bytes);
    let frame = heap.object_at(frame_off).unwrap().as_frame().unwrap();

    assert_eq!(frame.name(0).unwrap().name().unwrap(), "a");
    assert_eq!(frame.name(1).unwrap().name().unwrap(), "b");

    assert_eq!(frame.lookup("a").unwrap().kind(), RefKind::Integer(1));
    assert_eq!(frame.lookup("b").unwrap().kind(), RefKind::Integer(2));
}

#[test]
fn names_of_a_chain_of_maps() {
    let mut b = Builder::new();
    let sym_a = b.symbol("a");
    let sym_b = b.symbol("b");
    let above = b.array(Ref(0), &[Ref(NIL), Builder::ptr(sym_a)]);
    let map = b.array(Ref(0), &[Builder::ptr(above), Builder::ptr(sym_b), Ref(4)]);
    let heap = Heap::new(&b.bytes);
    let map = Builder::ptr(map);
    assert_eq!(count_map_names(heap, map, 10), Some(3));
    assert_eq!(count_map_names(heap, map, 2), None);
    assert_eq!(count_map_names(heap, Ref(NIL), 0), Some(0));
    assert_eq!(map_name_at(heap, map, 0).unwrap().name().unwrap(), "a");
    assert_eq!(map_name_at(heap, map, 1).unwrap().name().unwrap(), "b");
    assert!(map_name_at(heap, map, 2).is_none());
    assert!(map_name_at(heap, map, 3).is_none());
    assert!(map_name_at(heap, Ref(NIL), 0).is_none());
}

#[test]
fn array_iter_yields_all_slots() {
    let mut b = Builder::new();
    let arr_off = b.array(Ref(NIL), &[Ref(1 << 2), Ref(2 << 2), Ref(3 << 2)]);
    let heap = Heap::new(&b.bytes);
    let arr = heap.object_at(arr_off).unwrap().as_array().unwrap();
    assert_eq!(arr.len(), 3);
    let mut v: Vec<i32> = Vec::new();
    let mut it = arr.iter();
    while let Some(r) = it.next() {
        match r.kind() {
            RefKind::Integer(i) => v.push(i),
            other => panic!("expected integer, got {other:?}"),
        }
    }
    assert_eq!(v, vec![1, 2, 3]);
}

#[test]
fn binary_data_roundtrip() {
    let mut b = Builder::new();
    let off = b.binary(Ref(NIL), b"hello, newton");
    let heap = Heap::new(&b.bytes);
    let bin = heap.object_at(off).unwrap().as_binary().unwrap();
    assert_eq!(bin.class(), Ref(NIL));
    assert_eq!(bin.data(), b"hello, newton");
}

#[test]
fn bad_header_rejected() {
    let bytes: [u8; 8] = [0x00, 0x00, 0x04, 0x40, 0, 0, 0, 0];
    let heap = Heap::new(&bytes);
    let err = heap.object_at(0).unwrap_err();
    assert!(matches!(err, ParseError::BadHeader { .. }));
}

#[test]
fn iter_from_walks_sequential_objects() {
    let mut b = Builder::new();
    let s1 = b.symbol("alpha");
    let s2 = b.symbol("beta");
    let arr = b.array(Ref(NIL), &[Builder::ptr(s1), Builder::ptr(s2)]);
    let heap = Heap::new(&b.bytes);

    let mut collected: Vec<u32> = Vec::new();
    let mut it = heap.iter_from(0, 4);
    while let Some(r) = it.next() {
        collected.push(r.expect("packed objects should all parse").0);
    }
    assert_eq!(collected, vec![s1, s2, arr]);
}

#[test]
fn out_of_bounds_offset_rejected() {
    let bytes: [u8; 4] = [0, 0, 0, 0];
    let heap = Heap::new(&bytes);
    let err = heap.object_at(0).unwrap_err();
    assert!(matches!(err, ParseError::OutOfBounds { .. }));
}

#[test]
fn load_addr_translates_pointer_refs() {
    const LOAD: u32 = 0x0100_0000;

    let mut b = Builder::new();
    let world_off = b.symbol("world");
    let name_sym_off = b.symbol("name");
    let map_off = b.array(Ref(0), &[Ref(NIL), Builder::ptr(name_sym_off + LOAD)]);
    let frame_off = b.frame(Builder::ptr(map_off + LOAD), &[Builder::ptr(world_off + LOAD)]);

    let heap = Heap::with_load_addr(&b.bytes, LOAD);

    let frame = heap.object_at(frame_off + LOAD).unwrap().as_frame().unwrap();
    assert_eq!(frame.offset(), frame_off + LOAD);
    assert_eq!(frame.name(0).unwrap().name().unwrap(), "name");
    let v0 = frame.slot(0).unwrap();
    assert_eq!(v0.pointer_offset(), Some(world_off + LOAD));
    let world = heap.deref(v0).unwrap().as_binary().unwrap();
    assert_eq!(world.as_symbol().unwrap().name().unwrap(), "world");

    let mut offsets: Vec<u32> = Vec::new();
    let mut it = heap.iter_from(LOAD, 4);
    while let Some(r) = it.next() {
        offsets.push(r.expect("packed objects parse").0);
    }
    assert_eq!(offsets.first().copied(), Some(world_off + LOAD));
    assert_eq!(offsets.last().copied(), Some(frame_off + LOAD));

    assert!(matches!(
        heap.object_at(LOAD - 4).unwrap_err(),
        ParseError::OutOfBounds { .. }
    ));
}

#[test]
fn references_come_back_from_their_words() {
    assert_eq!(Ref(0x8000_0000).kind(), RefKind::Integer(-0x2000_0000));
    assert_eq!(Ref(0x7FFF_FFFC).kind(), RefKind::Integer(0x1FFF_FFFF));
    assert_eq!(Ref(0x12345 * 16 + 10).kind(), RefKind::Character(0x2345));
    assert_eq!(Ref(0x14).pointer_offset(), None);
    assert!(!Ref(0x06).is_nil());
    assert_eq!(Ref(0x55).raw(), 0x55);
}

#[test]
fn references_and_errors_have_words() {
    assert_eq!(Ref(0xFFFF_FFFC).text(), "Ref::Integer(-1)");
    assert_eq!(Ref(0x12345).text(), "Ref::Pointer(0x00012344)");
    assert_eq!(Ref(0x41A).text(), "Ref::Character(0x0041)");
    assert_eq!(Ref(NIL).text(), "Ref::NIL");
    assert_eq!(Ref(0x06).text(), "Ref::Special(0x1)");
    assert_eq!(Ref((2 << 16) | (42 << 2) | 3).text(), "Ref::Magic(2:42)");

    assert_eq!(
        ParseError::OutOfBounds { offset: 0x10, len: 4 }.text(),
        "read of 4 bytes at 0x00000010 is out of bounds"
    );
    assert_eq!(ParseError::NotAPointer(Ref(NIL)).text(), "Ref::NIL is not a pointer Ref");
    assert_eq!(ParseError::NotABinary.text(), "object is not a binary");
    assert_eq!(ParseError::NotAnArray.text(), "object is not an array");
    assert_eq!(ParseError::NotAFrame.text(), "object is not a frame");
    assert_eq!(
        ParseError::BadHeader { offset: 8, size: 4, flags: 0x40 }.text(),
        "bad object header at 0x00000008: size=4 flags=0x40"
    );
    assert_eq!(ParseError::BadUtf8.text(), "symbol name is not valid UTF-8");
}

#[test]
fn each_parse_error_has_an_input() {
    let mut b = Builder::new();
    let bin = b.binary(Ref(NIL), b"abcd");
    let arr = b.array(Ref(NIL), &[Ref(4)]);
    let frame = b.frame(Ref(NIL), &[Ref(4)]);
    let heap = Heap::new(&b.bytes);
    assert_eq!(heap.deref(Ref(0x14)).unwrap_err(), ParseError::NotAPointer(Ref(0x14)));
    assert_eq!(heap.object_at(arr).unwrap().as_binary().unwrap_err(), ParseError::NotABinary);
    assert_eq!(heap.object_at(bin).unwrap().as_array().unwrap_err(), ParseError::NotAnArray);
    assert_eq!(heap.object_at(arr).unwrap().as_frame().unwrap_err(), ParseError::NotAFrame);
    let o = heap.object_at(frame).unwrap();
    assert_eq!((o.offset(), o.size(), o.flags()), (frame, 16, 0x43));

    let mut data = vec![0u8; 4];
    data.extend_from_slice(&[0xFF, 0xFE, 0]);
    let mut c = Builder::new();
    let off = c.binary(Ref(SYMBOL_CLASS), &data);
    let heap = Heap::new(&c.bytes);
    let sym = heap.object_at(off).unwrap().as_binary().unwrap().as_symbol().unwrap();
    assert_eq!(sym.name().unwrap_err(), ParseError::BadUtf8);
    assert_eq!(sym.name_bytes(), &[0xFF, 0xFE]);
    assert_eq!(sym.text(), "'<bad-utf8 @ 0x00000000>");
}

#[test]
fn header_errors_name_the_word() {
    let bytes: [u8; 7] = [0, 0, 0x10, 0x40, 0, 0, 0];
    let heap = Heap::new(&bytes);
    assert_eq!(
        heap.object_at(0).unwrap_err(),
        ParseError::OutOfBounds { offset: 4, len: 4 }
    );
    let long: [u8; 12] = [0, 0, 13, 0x40, 0, 0, 0, 0, 0, 0, 0, 2];
    assert_eq!(
        Heap::new(&long).object_at(0).unwrap_err(),
        ParseError::BadHeader { offset: 0, size: 13, flags: 0x40 }
    );
}

#[test]
fn little_endian_heaps_read_the_same() {
    let mut bytes: Vec<u8> = Vec::new();
    for w in [(20u32 << 8) | 0x41, 0, 2, 4, 8] {
        bytes.extend_from_slice(&w.to_le_bytes());
    }
    let heap = Heap::new(&bytes).with_endian(Endian::Little);
    assert_eq!(heap.endian(), Endian::Little);
    assert_eq!(heap.load_addr(), 0);
    assert_eq!(heap.bytes().len(), 20);
    let arr = heap.object_at(0).unwrap().as_array().unwrap();
    assert_eq!((arr.len(), arr.is_empty(), arr.class()), (2, false, Ref(2)));
    assert_eq!(arr.slot(1), Some(Ref(8)));
    assert_eq!(arr.slot(2), None);
}

#[test]
fn strings_end_at_the_terminator() {
    let mut b = Builder::new();
    let off = b.binary(Ref(NIL), &[0, 0x48, 0, 0x69, 0, 0, 0, 0x21]);
    let heap = Heap::new(&b.bytes);
    let bin = heap.object_at(off).unwrap().as_binary().unwrap();
    let mut it = bin.as_string_chars();
    assert_eq!(it.next(), Some(0x48));
    assert_eq!(it.next(), Some(0x69));
    assert_eq!(it.next(), None);
    let odd = b.binary(Ref(NIL), &[0, 0x48, 0]);
    let heap = Heap::new(&b.bytes);
    let mut it = heap.object_at(odd).unwrap().as_binary().unwrap().as_string_chars();
    assert_eq!(it.next(), Some(0x48));
    assert_eq!(it.next(), None);
}

#[test]
fn symbols_keep_their_hash() {
    let mut b = Builder::new();
    let off = b.symbol("proto");
    let heap = Heap::new(&b.bytes);
    let sym = heap.object_at(off).unwrap().as_binary().unwrap().as_symbol().unwrap();
    assert_eq!(sym.hash(), Symbol::hash_of(b"PROTO"));
    assert_eq!(sym.text(), "'proto");
    assert_eq!(sym.binary().size(), 8 + 4 + 4 + 6);
    let short = b.binary(Ref(SYMBOL_CLASS), &[1, 2]);
    let heap = Heap::new(&b.bytes);
    let sym = heap.object_at(short).unwrap().as_binary().unwrap().as_symbol().unwrap();
    assert_eq!(sym.hash(), 0);
    assert_eq!(sym.name().unwrap(), "");
}

#[test]
fn map_chains_can_be_measured() {
    let mut b = Builder::new();
    let sym_a = b.symbol("a");
    let top = b.array(Ref(0), &[Ref(NIL), Builder::ptr(sym_a)]);
    let low = b.array(Ref(0), &[Builder::ptr(top)]);
    let frame_off = b.frame(Builder::ptr(low), &[Ref(4), Ref(8)]);
    let heap = Heap::new(&b.bytes);
    let frame = heap.object_at(frame_off).unwrap().as_frame().unwrap();
    assert!(!frame.map_ends_within(1));
    assert!(frame.map_ends_within(2));
    assert_eq!(frame.name(0).unwrap().name().unwrap(), "a");
    assert!(frame.name(1).is_none());
    assert_eq!(frame.map(), Builder::ptr(low));

    let own = b.bytes.len() as u32;
    let cyclic = b.array(Ref(0), &[Builder::ptr(own)]);
    let frame_off = b.frame(Builder::ptr(cyclic), &[Ref(4)]);
    let heap = Heap::new(&b.bytes);
    let frame = heap.object_at(frame_off).unwrap().as_frame().unwrap();
    assert!(!frame.map_ends_within(1000));
}

#[test]
fn walks_round_up_and_stop_at_errors() {
    let mut b = Builder::new();
    b.binary(Ref(NIL), b"a");
    while b.bytes.len() % 8 != 0 {
        b.bytes.push(0);
    }
    let second = b.array(Ref(NIL), &[]);
    b.bytes.extend_from_slice(&[0; 4]);
    let heap = Heap::new(&b.bytes);
    let mut it = heap.iter_from(0, 8);
    assert_eq!(it.next().unwrap().unwrap().0, 0);
    assert_eq!(it.next().unwrap().unwrap().0, second);
    assert!(it.next().is_none());
    let mut it = heap.iter_from(second + 4, 1);
    assert!(it.next().unwrap().is_err());
    assert!(it.next().is_none());
    let above = Heap::with_load_addr(&b.bytes, 0x100);
    assert!(above.iter_from(0xFF, 4).next().is_none());
}

#[test]
fn reals_are_read_in_the_heaps_byte_order() {
    let mut bytes = vec![0u8, 0, 20, 0x40, 0, 0, 0, 0, 0, 0, 0, 2];
    bytes.extend_from_slice(&1.5f64.to_be_bytes());
    bytes.resize(24, 0);
    match Heap::new(&bytes).object_at(0) {
        Ok(Object::Binary(b)) => assert_eq!(b.as_real().map(f64::from_bits), Some(1.5)),
        _ => panic!("not a binary"),
    }
    bytes[2] = 19;
    match Heap::new(&bytes).object_at(0) {
        Ok(Object::Binary(b)) => assert_eq!(b.as_real(), None),
        _ => panic!("not a binary"),
    }
    let mut little = vec![0x40u8, 20, 0, 0, 0, 0, 0, 0, 2, 0, 0, 0];
    little.extend_from_slice(&(-0.25f64).to_le_bytes());
    let heap = Heap::new(&little).with_endian(Endian::Little);
    match heap.object_at(0) {
        Ok(Object::Binary(b)) => assert_eq!(b.as_real().map(f64::from_bits), Some(-0.25)),
        _ => panic!("not a binary"),
    }
}

//! The image container: a header page with magic, payload length, payload CRC and header
//! CRC, then the payload, in a file of fixed size.

use crate::nhboot::crc;
use crate::words;
use vstd::prelude::*;

verus! {

/// Where the firmware places the file.
pub const IMAGE_ADDR: usize = 0x0200_0000;

/// Header bytes before the payload.
pub const HDR_SIZE: usize = 4096;

/// Size of the container file, always.
pub const FILE_SIZE: usize = 0x0100_0000;

/// Largest payload the container can hold.
pub const MAX_PAYLOAD: usize = FILE_SIZE - HDR_SIZE;

/// Where the payload is linked and expects to run.
pub const LOAD_ADDR: usize = 0x8_0000;

/// Staging area for an image that arrives over the serial link.
pub const NEW_BASE: usize = 0x0300_0000;

/// Where the boot loader itself is linked.
pub const LOADER_BASE: usize = 0x1000_0000;

pub const OFF_LEN: usize = 8;

pub const OFF_CRC: usize = 12;

pub const OFF_HDR_CRC: usize = 16;

/// The magic at the start of a container: `NHIMG001`.
pub open spec fn magic() -> Seq<u8> {
    seq![0x4Eu8, 0x48, 0x49, 0x4D, 0x47, 0x30, 0x30, 0x31]
}

/// The payload copied down never reaches into its own source, and the two containers
/// overlap neither each other nor the boot loader.
pub proof fn areas_are_disjoint()
    ensures
        LOAD_ADDR + MAX_PAYLOAD <= IMAGE_ADDR,
        IMAGE_ADDR + FILE_SIZE <= NEW_BASE,
        NEW_BASE + FILE_SIZE <= LOADER_BASE,
{
}

/// What the check of a container finds.
#[derive(Debug, Clone, Copy, PartialEq, Eq, Structural)]
pub enum ImageState {
    Valid { len: u32, crc: u32 },
    NoMagic,
    BadHeaderCrc,
    BadLength,
    BadPayloadCrc { expected: u32, actual: u32 },
}

/// The state of the container `c`: magic, header CRC, length and payload CRC are held
/// against it in this order.
pub open spec fn state_of(c: Seq<u8>) -> ImageState {
    let len = words::le32(c, OFF_LEN as int);
    let expected = words::le32(c, OFF_CRC as int);
    let actual = crc::crc32_of(c.subrange(HDR_SIZE as int, HDR_SIZE + len));
    if c.subrange(0, 8) != magic() {
        ImageState::NoMagic
    } else if crc::crc32_of(c.subrange(0, 16)) != words::le32(c, OFF_HDR_CRC as int) {
        ImageState::BadHeaderCrc
    } else if len == 0 || len > MAX_PAYLOAD {
        ImageState::BadLength
    } else if actual != expected {
        ImageState::BadPayloadCrc { expected, actual }
    } else {
        ImageState::Valid { len, crc: expected }
    }
}

/// The header of a container for a payload of `len` bytes with CRC `crc`.
pub open spec fn header(len: u32, crc: u32) -> Seq<u8> {
    let h = magic() + words::le_bytes(len) + words::le_bytes(crc);
    h + words::le_bytes(crc::crc32_of(h)) + Seq::new((HDR_SIZE - 20) as nat, |i: int| 0u8)
}

/// The container with its header replaced.
pub open spec fn with_header(c: Seq<u8>, len: u32, crc: u32) -> Seq<u8> {
    header(len, crc) + c.skip(HDR_SIZE as int)
}

fn magic_at(c: &[u8]) -> (yes: bool)
    requires
        c@.len() >= 8,
    ensures
        yes == (c@.subrange(0, 8) == magic()),
{
    let yes = c[0] == 0x4E && c[1] == 0x48 && c[2] == 0x49 && c[3] == 0x4D && c[4] == 0x47 && c[5]
        == 0x30 && c[6] == 0x30 && c[7] == 0x31;
    proof {
        let s = c@.subrange(0, 8);
        if yes {
            assert(s =~= magic());
        } else if s == magic() {
            assert(s[0] == 0x4E && s[1] == 0x48 && s[2] == 0x49 && s[3] == 0x4D && s[4] == 0x47
                && s[5] == 0x30 && s[6] == 0x30 && s[7] == 0x31);
        }
    }
    yes
}

/// Checks a container.
pub fn inspect(c: &[u8]) -> (state: ImageState)
    requires
        c@.len() == FILE_SIZE,
    ensures
        state == state_of(c@),
{
    if !magic_at(c) {
        return ImageState::NoMagic;
    }
    if crc::crc32(vstd::slice::slice_subrange(c, 0, 16)) != words::get_le32(c, OFF_HDR_CRC) {
        return ImageState::BadHeaderCrc;
    }
    let len = words::get_le32(c, OFF_LEN);
    if len == 0 || len as usize > MAX_PAYLOAD {
        return ImageState::BadLength;
    }
    let expected = words::get_le32(c, OFF_CRC);
    let actual = crc::crc32(
        vstd::slice::slice_subrange(c, HDR_SIZE, HDR_SIZE + len as usize),
    );
    if actual != expected {
        return ImageState::BadPayloadCrc { expected, actual };
    }
    ImageState::Valid { len, crc: expected }
}

/// Writes the header for a payload of `len` bytes with CRC `crc`; the rest of the header
/// page is zero.
pub fn write_header(c: &mut Vec<u8>, len: u32, crc: u32)
    requires
        old(c)@.len() >= HDR_SIZE,
    ensures
        final(c)@ == with_header(old(c)@, len, crc),
{
    let ghost c0 = c@;
    let mut i: usize = 0;
    while i < HDR_SIZE
        invariant
            i <= HDR_SIZE,
            c@.len() == c0.len(),
            c0.len() >= HDR_SIZE,
            forall|k: int| 0 <= k < i ==> #[trigger] c@[k] == 0,
            forall|k: int| i <= k < c0.len() ==> #[trigger] c@[k] == c0[k],
        decreases HDR_SIZE - i,
    {
        c.set(i, 0);
        i = i + 1;
    }
    c.set(0, 0x4E);
    c.set(1, 0x48);
    c.set(2, 0x49);
    c.set(3, 0x4D);
    c.set(4, 0x47);
    c.set(5, 0x30);
    c.set(6, 0x30);
    c.set(7, 0x31);
    let ghost c1 = c@;
    words::set_le32(c, OFF_LEN, len);
    proof {
        words::put_le32_reads_back(c1, OFF_LEN as int, len);
    }
    let ghost c2 = c@;
    words::set_le32(c, OFF_CRC, crc);
    proof {
        words::put_le32_reads_back(c2, OFF_CRC as int, crc);
    }
    let ghost c3 = c@;
    let ghost h = magic() + words::le_bytes(len) + words::le_bytes(crc);
    assert(c3.subrange(0, 16) =~= h);
    let hdr_crc = crc::crc32(vstd::slice::slice_subrange(c.as_slice(), 0, 16));
    words::set_le32(c, OFF_HDR_CRC, hdr_crc);
    proof {
        words::put_le32_reads_back(c3, OFF_HDR_CRC as int, hdr_crc);
        assert(c@ =~= with_header(c0, len, crc));
    }
}

/// A container whose header was written for its payload is valid, with that length and
/// CRC; with another CRC the check names both.
pub proof fn written_header_is_valid(c: Seq<u8>, len: u32, crc: u32)
    requires
        c.len() == FILE_SIZE,
        0 < len <= MAX_PAYLOAD,
    ensures
        with_header(c, len, crc).len() == FILE_SIZE,
        ({
            let actual = crc::crc32_of(c.subrange(HDR_SIZE as int, HDR_SIZE + len));
            state_of(with_header(c, len, crc)) == if actual == crc {
                ImageState::Valid { len, crc }
            } else {
                ImageState::BadPayloadCrc { expected: crc, actual }
            }
        }),
{
    let d = with_header(c, len, crc);
    let h = magic() + words::le_bytes(len) + words::le_bytes(crc);
    assert(header(len, crc).len() == HDR_SIZE);
    assert(d.subrange(0, 8) =~= magic());
    assert(d.subrange(0, 16) =~= h);
    assert(d.subrange(HDR_SIZE as int, HDR_SIZE + len) =~= c.subrange(
        HDR_SIZE as int,
        HDR_SIZE + len,
    ));
    words::le_bytes_read(d, 8, len);
    words::le_bytes_read(d, 12, crc);
    words::le_bytes_read(d, 16, crc::crc32_of(h));
}

/// The number of bytes moved to the load address: the payload in whole doublewords.
pub open spec fn boot_bytes(len: int) -> int {
    (len + 7) / 8 * 8
}

/// A container is valid exactly where it starts with `NHIMG001`, the word at 16 is the CRC of the
/// 16 bytes before it, the length at 8 is that of a payload, and the word at 12 is the CRC of that
/// many bytes behind the header page. The check names the first of these that fails.
pub proof fn container_states(c: Seq<u8>)
    requires
        c.len() == FILE_SIZE,
    ensures
        ({
            let magical = c[0] == 0x4E && c[1] == 0x48 && c[2] == 0x49 && c[3] == 0x4D && c[4] == 0x47
                && c[5] == 0x30 && c[6] == 0x30 && c[7] == 0x31;
            let headed = crc::crc32_of(c.subrange(0, 16)) == words::le32(c, 16);
            let len = words::le32(c, 8);
            let expected = words::le32(c, 12);
            let ranged = 0 < len <= 0x00FF_F000;
            let actual = crc::crc32_of(c.subrange(4096, 4096 + len));
            &&& state_of(c) is NoMagic <==> !magical
            &&& state_of(c) is BadHeaderCrc <==> magical && !headed
            &&& state_of(c) is BadLength <==> magical && headed && !ranged
            &&& state_of(c) == (ImageState::BadPayloadCrc { expected, actual }) <==> magical && headed
                && ranged && actual != expected
            &&& state_of(c) == (ImageState::Valid { len, crc: expected }) <==> magical && headed
                && ranged && actual == expected
            &&& state_of(c) matches ImageState::Valid { len: l, crc: k } ==> l == len && k == expected
        }),
{
    let s = c.subrange(0, 8);
    if s == magic() {
        assert(s[0] == 0x4E && s[1] == 0x48 && s[2] == 0x49 && s[3] == 0x4D && s[4] == 0x47 && s[5]
            == 0x30 && s[6] == 0x30 && s[7] == 0x31);
    }
    if c[0] == 0x4E && c[1] == 0x48 && c[2] == 0x49 && c[3] == 0x4D && c[4] == 0x47 && c[5] == 0x30
        && c[6] == 0x30 && c[7] == 0x31 {
        assert(s =~= magic());
    }
}

/// The header that is written holds the length at 8 and the CRC at 12, its page is otherwise zero
/// behind the header's own CRC, and nothing behind the page changes.
pub proof fn header_fields(c: Seq<u8>, len: u32, crc: u32, i: int)
    requires
        c.len() == FILE_SIZE,
        0 <= i < FILE_SIZE,
    ensures
        ({
            let d = with_header(c, len, crc);
            &&& d.len() == FILE_SIZE
            &&& words::le32(d, 8) == len
            &&& words::le32(d, 12) == crc
            &&& words::le32(d, 16) == crc::crc32_of(d.subrange(0, 16))
            &&& d[0] == 0x4E && d[1] == 0x48 && d[2] == 0x49 && d[3] == 0x4D && d[4] == 0x47 && d[5]
                == 0x30 && d[6] == 0x30 && d[7] == 0x31
            &&& 20 <= i < 4096 ==> d[i] == 0
            &&& 4096 <= i ==> d[i] == c[i]
        }),
{
    let d = with_header(c, len, crc);
    let h = magic() + words::le_bytes(len) + words::le_bytes(crc);
    assert(header(len, crc).len() == HDR_SIZE);
    assert(d.subrange(0, 16) =~= h);
    words::le_bytes_read(d, 8, len);
    words::le_bytes_read(d, 12, crc);
    words::le_bytes_read(d, 16, crc::crc32_of(h));
}

/// Booting moves the whole payload, and less than a doubleword more.
pub proof fn whole_payload_is_booted(len: int)
    requires
        0 <= len,
    ensures
        len <= boot_bytes(len) < len + 8,
        boot_bytes(len) % 8 == 0,
{
}

/// The bytes that booting places at the load address. A payload whose length is not a
/// multiple of eight takes up to seven bytes of the pad with it.
pub fn boot(c: &[u8], len: u32) -> (loaded: Vec<u8>)
    requires
        c@.len() == FILE_SIZE,
        len <= MAX_PAYLOAD,
    ensures
        loaded@ == c@.subrange(HDR_SIZE as int, HDR_SIZE + boot_bytes(len as int)),
{
    let n: usize = (len as usize + 7) / 8 * 8;
    let mut loaded: Vec<u8> = Vec::new();
    let mut i: usize = 0;
    while i < n
        invariant
            i <= n <= MAX_PAYLOAD,
            c@.len() == FILE_SIZE,
            loaded@ == c@.subrange(HDR_SIZE as int, HDR_SIZE + i),
        decreases n - i,
    {
        loaded.push(c[HDR_SIZE + i]);
        assert(loaded@ =~= c@.subrange(HDR_SIZE as int, HDR_SIZE + i + 1));
        i = i + 1;
    }
    loaded
}

} // verus!

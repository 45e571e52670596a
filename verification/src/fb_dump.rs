//! Screenshots of the guest's screen: when one is due, and its picture as a PNG file with
//! the pixels stored uncompressed.

use crate::nhboot::crc;
use crate::nhboot::crc::{adler32, crc32};
use crate::words;
use crate::words::nth_byte;
use vstd::prelude::*;

verus! {

pub const SCREEN_WIDTH: u32 = 320;

pub const SCREEN_HEIGHT: u32 = 480;

/// Bytes of a row, eight pixels to a byte.
pub const ROW_BYTES: usize = 40;

/// Bytes of the screen.
pub const FB_BYTES: usize = 19_200;

/// Bytes of the picture data: a filter byte and a row, for each row.
pub const PAYLOAD_LEN: usize = 19_680;

/// Bytes of the file.
pub const PNG_LEN: usize = 19_748;

/// Milliseconds from the last change of the screen to the screenshot.
pub const DUMP_DELAY_MS: u64 = 1_000;

/// When a screenshot is due.
#[derive(Clone, Copy, PartialEq, Eq, Structural)]
pub struct FbDump {
    pub dirty: bool,
    pub deadline_ticks: u64,
    pub dump_seq: u32,
    /// Whether the directory for the files has been asked for.
    pub dir_made: bool,
    /// Whether this is a test guest, which has no screenshots.
    pub guest_test: bool,
}

/// The screen has changed: a screenshot is due once it has rested for a while.
pub fn mark_dirty(d: &mut FbDump, now: u64, freq: u64)
    requires
        DUMP_DELAY_MS * freq <= u64::MAX,
    ensures
        *final(d) == (if old(d).guest_test {
            *old(d)
        } else {
            FbDump { dirty: true, deadline_ticks: now.wrapping_add(freq), ..*old(d) }
        }),
{
    if d.guest_test {
        return ;
    }
    let interval: u64 = (DUMP_DELAY_MS * freq) / 1_000;
    d.deadline_ticks = now.wrapping_add(interval);
    d.dirty = true;
}

/// Whether a screenshot is due at `now`.
pub open spec fn due(d: FbDump, now: u64) -> bool {
    !d.guest_test && d.dirty && now >= d.deadline_ticks
}

/// Takes the screenshot that is due, if one is.
pub fn maybe_dump(d: &mut FbDump, now: u64, fb: &[u8]) -> (job: Option<PngJob>)
    requires
        fb@.len() == FB_BYTES,
    ensures
        !due(*old(d), now) ==> job is None && *final(d) == *old(d),
        due(*old(d), now) ==> {
            &&& job is Some
            &&& job->0@ == screenshot(*old(d), fb@, path_of(old(d).dump_seq))
            &&& *final(d) == (FbDump {
                dirty: false,
                dump_seq: old(d).dump_seq.wrapping_add(1),
                dir_made: true,
                ..*old(d)
            })
        },
{
    if d.guest_test || !d.dirty {
        return None;
    }
    if now < d.deadline_ticks {
        return None;
    }
    d.dirty = false;
    let seq: u32 = d.dump_seq;
    d.dump_seq = seq.wrapping_add(1);
    Some(write_png(d, fb, format_path(seq)))
}

/// Takes a screenshot whether one is due or not, into `/tmp/newton-fb-99999.png`.
pub fn force_dump_now(d: &mut FbDump, fb: &[u8]) -> (job: Option<PngJob>)
    requires
        fb@.len() == FB_BYTES,
    ensures
        old(d).guest_test ==> job is None && *final(d) == *old(d),
        !old(d).guest_test ==> {
            &&& job is Some
            &&& job->0@ == screenshot(*old(d), fb@, forced_path())
            &&& *final(d) == (FbDump { dir_made: true, ..*old(d) })
        },
{
    if d.guest_test {
        return None;
    }
    let path: Vec<u8> = vec![
        0x2F, 0x74, 0x6D, 0x70, 0x2F, 0x6E, 0x65, 0x77, 0x74, 0x6F, 0x6E, 0x2D, 0x66, 0x62, 0x2D,
        0x39, 0x39, 0x39, 0x39, 0x39, 0x2E, 0x70, 0x6E, 0x67, 0,
    ];
    assert(path@ =~= forced_path());
    Some(write_png(d, fb, path))
}

/// A burst of changes gives one screenshot: each change puts it off, and once it is taken
/// nothing is due until the next change.
pub proof fn bursts_collapse(d: FbDump, now: u64, later: u64)
    requires
        due(d, now),
    ensures
        !due(
            FbDump {
                dirty: false,
                dump_seq: d.dump_seq.wrapping_add(1),
                dir_made: true,
                ..d
            },
            later,
        ),
{
}

/// What has to be done for a screenshot: make the directory, if it was not yet asked for,
/// and write a file.
pub struct PngJob {
    pub make_dir: bool,
    /// The path, with a zero byte behind it.
    pub path: Vec<u8>,
    pub data: Vec<u8>,
}

/// A screenshot job, its bytes as sequences.
#[verifier::ext_equal]
pub struct PngJobView {
    pub make_dir: bool,
    pub path: Seq<u8>,
    pub data: Seq<u8>,
}

impl View for PngJob {
    type V = PngJobView;

    open spec fn view(&self) -> PngJobView {
        PngJobView { make_dir: self.make_dir, path: self.path@, data: self.data@ }
    }
}

/// The job of a screenshot into `path`.
pub open spec fn screenshot(d: FbDump, fb: Seq<u8>, path: Seq<u8>) -> PngJobView {
    PngJobView { make_dir: !d.dir_made, path, data: png(fb) }
}

/// A screenshot is the picture of the framebuffer, for its path, and makes the directory where none was made.
pub proof fn screenshots_hold_the_picture(d: FbDump, fb: Seq<u8>, path: Seq<u8>)
    ensures
        screenshot(d, fb, path).path == path,
        screenshot(d, fb, path).data == png(fb),
        screenshot(d, fb, path).make_dir <==> !d.dir_made,
{
}

fn write_png(d: &mut FbDump, fb: &[u8], path: Vec<u8>) -> (job: PngJob)
    requires
        fb@.len() == FB_BYTES,
    ensures
        job@ == screenshot(*old(d), fb@, path@),
        *final(d) == (FbDump { dir_made: true, ..*old(d) }),
{
    let make_dir: bool = !d.dir_made;
    d.dir_made = true;
    PngJob { make_dir, path, data: encode_png(fb) }
}

/// Why a screenshot was not written.
#[derive(Clone, Copy, PartialEq, Eq, Structural, Debug)]
pub enum PngError {
    OpenFailed,
    ShortWrite,
}

/// What came of writing `len` bytes, by what opening the file and writing to it answered.
pub fn png_outcome(handle: i64, unwritten: i64, len: usize) -> (r: Result<usize, PngError>)
    ensures
        r == (if handle < 0 {
            Err::<usize, PngError>(PngError::OpenFailed)
        } else if unwritten != 0 {
            Err(PngError::ShortWrite)
        } else {
            Ok(len)
        }),
{
    if handle < 0 {
        Err(PngError::OpenFailed)
    } else if unwritten != 0 {
        Err(PngError::ShortWrite)
    } else {
        Ok(len)
    }
}

/// Digit `k` of `n`, counted from the right.
pub open spec fn ascii_digit(n: u32, k: int) -> u8 {
    (0x30 + (if k == 0 {
        n as int
    } else if k == 1 {
        n as int / 10
    } else if k == 2 {
        n as int / 100
    } else if k == 3 {
        n as int / 1000
    } else {
        n as int / 10000
    }) % 10) as u8
}

/// The path of screenshot `seq`: its last five decimal digits, in the screenshot directory.
pub open spec fn path_of(seq: u32) -> Seq<u8> {
    seq![
        0x2Fu8, 0x74, 0x6D, 0x70, 0x2F, 0x6E, 0x65, 0x77, 0x74, 0x6F, 0x6E, 0x2D, 0x66, 0x62, 0x2F,
        ascii_digit(seq, 4), ascii_digit(seq, 3), ascii_digit(seq, 2), ascii_digit(seq, 1),
        ascii_digit(seq, 0), 0x2E, 0x70, 0x6E, 0x67, 0,
    ]
}

/// The path of the screenshot that is taken on demand, `/tmp/newton-fb-99999.png`, with a zero
/// byte behind it.
pub open spec fn forced_path() -> Seq<u8> {
    seq![
        0x2Fu8, 0x74, 0x6D, 0x70, 0x2F, 0x6E, 0x65, 0x77, 0x74, 0x6F, 0x6E, 0x2D, 0x66, 0x62, 0x2D,
        0x39, 0x39, 0x39, 0x39, 0x39, 0x2E, 0x70, 0x6E, 0x67, 0,
    ]
}

/// The path of screenshot `seq`, `/tmp/newton-fb/NNNNN.png`, with a zero byte behind it.
pub fn format_path(seq: u32) -> (path: Vec<u8>)
    ensures
        path@ == path_of(seq),
{
    let d0: u8 = (seq % 10) as u8;
    let d1: u8 = (seq / 10 % 10) as u8;
    let d2: u8 = (seq / 100 % 10) as u8;
    let d3: u8 = (seq / 1000 % 10) as u8;
    let d4: u8 = (seq / 10000 % 10) as u8;
    let path: Vec<u8> = vec![
        0x2F, 0x74, 0x6D, 0x70, 0x2F, 0x6E, 0x65, 0x77, 0x74, 0x6F, 0x6E, 0x2D, 0x66, 0x62, 0x2F,
        0x30 + d4, 0x30 + d3, 0x30 + d2, 0x30 + d1, 0x30 + d0, 0x2E, 0x70, 0x6E, 0x67, 0,
    ];
    assert(path@ =~= path_of(seq));
    path
}

/// A chunk of a PNG file: the length of its data, its type, its data, and the checksum of
/// the two.
pub open spec fn chunk(ty: Seq<u8>, data: Seq<u8>) -> Seq<u8> {
    words::be_bytes(data.len() as u32) + ty + data + words::be_bytes(crc::crc32_of(ty + data))
}

pub open spec fn signature() -> Seq<u8> {
    seq![0x89u8, 0x50, 0x4E, 0x47, 0x0D, 0x0A, 0x1A, 0x0A]
}

/// The picture header: 320 by 480 pixels, one bit each, gray.
pub open spec fn header_data() -> Seq<u8> {
    seq![0u8, 0, 1, 0x40, 0, 0, 1, 0xE0, 1, 0, 0, 0, 0]
}

/// The picture data: each row behind a filter byte of zero, inverted, for a set bit is black
/// on the guest's screen and white in a PNG.
pub open spec fn payload(fb: Seq<u8>) -> Seq<u8> {
    Seq::new(
        PAYLOAD_LEN as nat,
        |i: int|
            if i % 41 == 0 {
                0u8
            } else {
                !fb[i / 41 * 40 + i % 41 - 1]
            },
    )
}

/// A zlib stream of one stored block: header, last-block mark, length and its complement,
/// the data, and the Adler-32 checksum.
pub open spec fn stored_stream(data: Seq<u8>) -> Seq<u8> {
    seq![0x78u8, 0x01, 0x01, 0xE0, 0x4C, 0x1F, 0xB3] + data + words::be_bytes(
        crc::adler32_of(data),
    )
}

pub open spec fn ihdr() -> Seq<u8> {
    seq![0x49u8, 0x48, 0x44, 0x52]
}

pub open spec fn idat() -> Seq<u8> {
    seq![0x49u8, 0x44, 0x41, 0x54]
}

pub open spec fn iend() -> Seq<u8> {
    seq![0x49u8, 0x45, 0x4E, 0x44]
}

/// The PNG file of a screen.
pub open spec fn png(fb: Seq<u8>) -> Seq<u8> {
    signature() + chunk(ihdr(), header_data()) + chunk(idat(), stored_stream(payload(fb)))
        + chunk(iend(), seq![])
}

/// The file is 19748 bytes long.
pub proof fn png_length(fb: Seq<u8>)
    ensures
        png(fb).len() == PNG_LEN,
{
}

/// Each byte of the screen stands in the file inverted, at its row and place.
pub proof fn png_holds_the_screen(fb: Seq<u8>, row: int, j: int)
    requires
        fb.len() == FB_BYTES,
        0 <= row < 480,
        0 <= j < 40,
    ensures
        png(fb)[48 + 41 * row + 1 + j] == !fb[40 * row + j],
{
    let i = 41 * row + 1 + j;
    assert(i / 41 == row && i % 41 == 1 + j);
    assert(payload(fb)[i] == !fb[40 * row + j]);
    let head = signature() + chunk(ihdr(), header_data());
    assert(head.len() == 33);
    let data = stored_stream(payload(fb));
    assert(data[7 + i] == payload(fb)[i]);
    assert(chunk(idat(), data)[8 + 7 + i] == data[7 + i]);
}

/// The stored block's length field is its length, and the next field the complement.
pub proof fn stored_length_fields(fb: Seq<u8>)
    ensures
        ({
            let s = stored_stream(payload(fb));
            &&& s[3] + 256 * s[4] == payload(fb).len()
            &&& s[3] + s[5] == 255
            &&& s[4] + s[6] == 255
        }),
{
}

/// A screenshot is due on a Newton guest whose screen has changed, once the time of the last change is
/// over, and never on a test guest.
pub proof fn due_after_the_delay(d: FbDump, now: u64)
    ensures
        due(d, now) <==> d.dirty && !d.guest_test && d.deadline_ticks <= now,
{
}

/// The path of a screenshot numbers it: its five digits, behind `/tmp/newton-fb/` and before `.png`
/// and a zero byte, write its number modulo a hundred thousand; the screenshot on demand has a path of
/// its own beside that directory.
pub proof fn paths_number_screenshots(n: u32)
    ensures
        ({
            let p = path_of(n);
            &&& p.len() == 25
            &&& p.take(15) == seq![
                0x2Fu8, 0x74, 0x6D, 0x70, 0x2F, 0x6E, 0x65, 0x77, 0x74, 0x6F, 0x6E, 0x2D, 0x66,
                0x62, 0x2F,
            ]
            &&& 10000 * (p[15] - 48) + 1000 * (p[16] - 48) + 100 * (p[17] - 48) + 10 * (p[18] - 48) + (
            p[19] - 48) == n as int % 100000
            &&& forall|i: int| 15 <= i < 20 ==> 48 <= #[trigger] p[i] <= 57
            &&& p[20] == 0x2E && p[21] == 0x70 && p[22] == 0x6E && p[23] == 0x67 && p[24] == 0
        }),
        forced_path().len() == 25,
        forced_path()[14] == 0x2D,
        forced_path().take(14) == path_of(n).take(14),
        forced_path().skip(20) == path_of(n).skip(20),
        forall|i: int| 15 <= i < 20 ==> #[trigger] forced_path()[i] == 57,
{
    assert(path_of(n).take(15) =~= seq![
        0x2Fu8, 0x74, 0x6D, 0x70, 0x2F, 0x6E, 0x65, 0x77, 0x74, 0x6F, 0x6E, 0x2D, 0x66, 0x62, 0x2F,
    ]);
    assert(forced_path().take(14) =~= path_of(n).take(14));
    assert(forced_path().skip(20) =~= path_of(n).skip(20));
    five_digits(n as int);
}

proof fn five_digits(n: int)
    requires
        0 <= n,
    ensures
        10000 * (n / 10000 % 10) + 1000 * (n / 1000 % 10) + 100 * (n / 100 % 10) + 10 * (n / 10 % 10) + n
            % 10 == n % 100000,
{
    let a = n / 10;
    let b = n / 100;
    let c = n / 1000;
    let d = n / 10000;
    let e = n / 100000;
    assert(a / 10 == b && b / 10 == c && c / 10 == d && d / 10 == e);
    assert(n == 100000 * e + n % 100000);
}

/// The file is a PNG: the signature; a header chunk for 320 by 480 pixels of one bit, gray, neither
/// filtered nor interlaced; one data chunk with a stored zlib stream; an end chunk. Each chunk has its
/// length in front and the CRC-32 of its type and data behind, and the stream ends with the Adler-32
/// of its rows, each row with a filter byte of zero in front.
pub proof fn png_is_well_formed(fb: Seq<u8>, row: int)
    requires
        fb.len() == FB_BYTES,
        0 <= row < 480,
    ensures
        ({
            let p = png(fb);
            &&& p.len() == 19_748
            &&& p.take(8) == seq![0x89u8, 0x50, 0x4E, 0x47, 0x0D, 0x0A, 0x1A, 0x0A]
            &&& words::be32(p, 8) == 13
            &&& p.subrange(12, 16) == seq![0x49u8, 0x48, 0x44, 0x52]
            &&& words::be32(p, 16) == 320
            &&& words::be32(p, 20) == 480
            &&& p[24] == 1 && p[25] == 0 && p[26] == 0 && p[27] == 0 && p[28] == 0
            &&& words::be32(p, 29) == crc::crc32_of(p.subrange(12, 29))
            &&& words::be32(p, 33) == 19_691
            &&& p.subrange(37, 41) == seq![0x49u8, 0x44, 0x41, 0x54]
            &&& p[41] == 0x78 && p[42] == 1 && p[43] == 1
            &&& p[48 + 41 * row] == 0
            &&& words::be32(p, 19_728) == crc::adler32_of(p.subrange(48, 19_728))
            &&& words::be32(p, 19_732) == crc::crc32_of(p.subrange(37, 19_732))
            &&& words::be32(p, 19_736) == 0
            &&& p.subrange(19_740, 19_744) == seq![0x49u8, 0x45, 0x4E, 0x44]
            &&& words::be32(p, 19_744) == crc::crc32_of(p.subrange(19_740, 19_744))
        }),
{
    let p = png(fb);
    let rows = payload(fb);
    let stream = stored_stream(rows);
    let head = chunk(ihdr(), header_data());
    let data = chunk(idat(), stream);
    let end = chunk(iend(), seq![]);
    assert(p.len() == 19_748 && stream.len() == 19_691);
    assert(p.take(8) =~= signature());
    assert(p.subrange(8, 33) =~= head);
    assert(p.subrange(33, 19_736) =~= data);
    assert(p.subrange(19_736, 19_748) =~= end);
    assert(p.subrange(12, 16) =~= ihdr());
    assert(p.subrange(12, 29) =~= ihdr() + header_data());
    assert(p.subrange(37, 41) =~= idat());
    assert(p.subrange(37, 19_732) =~= idat() + stream);
    assert(p.subrange(48, 19_728) =~= rows);
    assert(p.subrange(19_740, 19_744) =~= iend());
    assert(iend() + Seq::<u8>::empty() =~= iend());
    assert(head[0] == p[8] && head[1] == p[9] && head[2] == p[10] && head[3] == p[11]) by {
        let h = p.subrange(8, 33);
        assert(h[0] == p[8] && h[1] == p[9] && h[2] == p[10] && h[3] == p[11]);
    }
    be_bytes_read(p, 8, 13);
    be_bytes_read(p, 29, crc::crc32_of(ihdr() + header_data()));
    be_bytes_read(p, 33, 19_691);
    be_bytes_read(p, 19_728, crc::adler32_of(rows));
    be_bytes_read(p, 19_732, crc::crc32_of(idat() + stream));
    be_bytes_read(p, 19_736, 0);
    be_bytes_read(p, 19_744, crc::crc32_of(iend()));
    reveal(words::be32);
    assert((41 * row) % 41 == 0);
    assert(rows[41 * row] == 0);
    assert(p.subrange(48, 19_728)[41 * row] == p[48 + 41 * row]);
}

proof fn be_bytes_read(s: Seq<u8>, off: int, w: u32)
    requires
        s[off] == words::be_bytes(w)[0],
        s[off + 1] == words::be_bytes(w)[1],
        s[off + 2] == words::be_bytes(w)[2],
        s[off + 3] == words::be_bytes(w)[3],
    ensures
        words::be32(s, off) == w,
{
    reveal(words::be32);
    words::bytes_compose(w);
}

fn push_bytes(out: &mut Vec<u8>, data: &[u8])
    ensures
        final(out)@ == old(out)@ + data@,
{
    let mut i: usize = 0;
    while i < data.len()
        invariant
            i <= data@.len(),
            out@ =~= old(out)@ + data@.take(i as int),
        decreases data.len() - i,
    {
        out.push(data[i]);
        i = i + 1;
    }
    assert(data@.take(i as int) =~= data@);
}

fn push_be32(out: &mut Vec<u8>, w: u32)
    ensures
        final(out)@ == old(out)@ + words::be_bytes(w),
{
    out.push(nth_byte(w, 3));
    out.push(nth_byte(w, 2));
    out.push(nth_byte(w, 1));
    out.push(nth_byte(w, 0));
    assert(out@ =~= old(out)@ + words::be_bytes(w));
}

/// Appends a chunk.
pub fn write_chunk_at(out: &mut Vec<u8>, ty: &[u8], data: &[u8])
    requires
        data@.len() <= u32::MAX,
    ensures
        final(out)@ == old(out)@ + chunk(ty@, data@),
{
    push_be32(out, data.len() as u32);
    let mut body: Vec<u8> = Vec::new();
    push_bytes(&mut body, ty);
    push_bytes(&mut body, data);
    assert(body@ =~= ty@ + data@);
    push_bytes(out, &body);
    push_be32(out, crc32(&body));
    assert(out@ =~= old(out)@ + chunk(ty@, data@));
}

/// Appends the chunk with the picture data.
pub fn write_idat_at(out: &mut Vec<u8>, fb: &[u8])
    requires
        fb@.len() == FB_BYTES,
    ensures
        final(out)@ == old(out)@ + chunk(idat(), stored_stream(payload(fb@))),
{
    let mut rows: Vec<u8> = Vec::new();
    let mut row: usize = 0;
    while row < 480
        invariant
            row <= 480,
            fb@.len() == FB_BYTES,
            rows@ =~= payload(fb@).take(41 * row),
        decreases 480 - row,
    {
        rows.push(0);
        let mut j: usize = 0;
        while j < 40
            invariant
                j <= 40,
                row < 480,
                fb@.len() == FB_BYTES,
                rows@ =~= payload(fb@).take(41 * row + 1 + j),
            decreases 40 - j,
        {
            let ghost i = 41 * row + 1 + j;
            assert(i / 41 == row && i % 41 == 1 + j);
            rows.push(!fb[row * 40 + j]);
            assert(payload(fb@).take(i + 1) =~= payload(fb@).take(i).push(payload(fb@)[i]));
            j = j + 1;
        }
        row = row + 1;
    }
    assert(rows@ =~= payload(fb@));
    let mut data: Vec<u8> = vec![0x78, 0x01, 0x01, 0xE0, 0x4C, 0x1F, 0xB3];
    push_bytes(&mut data, &rows);
    push_be32(&mut data, adler32(&rows));
    assert(data@ =~= stored_stream(payload(fb@)));
    let ty: [u8; 4] = [0x49, 0x44, 0x41, 0x54];
    assert(ty@ =~= idat());
    write_chunk_at(out, &ty, &data);
}

/// The PNG file of a screen.
pub fn encode_png(fb: &[u8]) -> (out: Vec<u8>)
    requires
        fb@.len() == FB_BYTES,
    ensures
        out@ == png(fb@),
{
    let mut out: Vec<u8> = vec![0x89, 0x50, 0x4E, 0x47, 0x0D, 0x0A, 0x1A, 0x0A];
    assert(out@ =~= signature());
    let header: [u8; 13] = [0, 0, 1, 0x40, 0, 0, 1, 0xE0, 1, 0, 0, 0, 0];
    assert(header@ =~= header_data());
    let ty: [u8; 4] = [0x49, 0x48, 0x44, 0x52];
    assert(ty@ =~= ihdr());
    write_chunk_at(&mut out, &ty, &header);
    write_idat_at(&mut out, fb);
    let end: [u8; 4] = [0x49, 0x45, 0x4E, 0x44];
    assert(end@ =~= iend());
    let none: Vec<u8> = Vec::new();
    assert(none@ =~= seq![]);
    write_chunk_at(&mut out, &end, &none);
    out
}

} // verus!

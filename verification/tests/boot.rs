//! The boot loader: checksums, container, mailbox, card plan, serial link and upload.

use newton_hypervisor::nhboot::crc::{
    adler32, build_crc_table, crc32, crc32_bytewise, crc32_sw, crc32_update, Adler32,
};
use newton_hypervisor::nhboot::image::{
    boot, inspect, write_header, ImageState, FILE_SIZE, HDR_SIZE, IMAGE_ADDR, MAX_PAYLOAD, NEW_BASE,
};
use newton_hypervisor::nhboot::mailbox::{
    clock_rate_request, get_clock_rate, mailbox_call, post_word, send_one_tag, tag_reply,
    MailboxError, MailboxPoll, POLL_LIMIT, STATUS_EMPTY, STATUS_FULL,
};
use newton_hypervisor::nhboot::persist::{
    create_full_file, file_plan, persist, Chain, Chunk, FilePlan, Opened, PersistError, Stats,
};
use newton_hypervisor::nhboot::start::{choose_image, old_image, state_line, Start};
use newton_hypervisor::nhboot::time::{elapsed_us, now_us};
use newton_hypervisor::nhboot::uart::{
    divisors, flush, getc_nonblock, init, putc, set_baud, BaudStep, Writer, UART_CR, UART_FBRD,
    UART_IBRD, UART_LCRH,
};
use newton_hypervisor::nhboot::xfer::{
    ack, build_table, drain_until_quiet, handshake_window, nak, parse_handshake, put_u32,
    read_exact, receive, send_table, Handshake, HandshakeAction, LineEvent, Phase, ReadExact,
    ReadState, Receiver, RxAction, RxEvent, NAK_BAD_CRC, NAK_BAD_RANGE, NAK_NO_OLD_IMAGE,
    NAK_RX_TIMEOUT, NAK_UNKNOWN_TAG, TAG_COMMIT, TAG_COPY, TAG_DATA,
};

fn container(payload: &[u8]) -> Vec<u8> {
    let mut c = vec![0u8; FILE_SIZE];
    c[HDR_SIZE..HDR_SIZE + payload.len()].copy_from_slice(payload);
    write_header(&mut c, payload.len() as u32, crc32(payload));
    c
}

fn words(ws: &[u32]) -> Vec<u8> {
    let mut out = Vec::new();
    for w in ws {
        put_u32(&mut out, *w);
    }
    out
}

#[test]
fn checksum_values() {
    assert_eq!(crc32(b"123456789"), 0xCBF4_3926);
    assert_eq!(crc32(b""), 0);
    assert_eq!(adler32(b"Wikipedia"), 0x11E6_0398);
    assert_eq!(adler32(b""), 1);
    assert_eq!(crc32_sw(0xFFFF_FFFF, b"123456789") ^ 0xFFFF_FFFF, 0xCBF4_3926);
    let table = build_crc_table();
    assert_eq!(table[1], 0x7707_3096);
    assert_eq!(table[255], 0x2D02_EF8D);
    assert_eq!(crc32_bytewise(&table, b"123456789"), 0xCBF4_3926);
}

#[test]
fn checksums_carry_on() {
    let r = crc32_update(0xFFFF_FFFF, b"1234");
    assert_eq!(crc32_update(r, b"56789") ^ 0xFFFF_FFFF, 0xCBF4_3926);
    let mut a = Adler32::new();
    a.update(b"Wiki");
    a.update(b"pedia");
    assert_eq!(a.finish(), 0x11E6_0398);
    let long = vec![0xFFu8; 100_000];
    let mut parts = Adler32::new();
    parts.update(&long[..60_000]);
    parts.update(&long[60_000..]);
    assert_eq!(parts.finish(), adler32(&long));
}

#[test]
fn one_changed_byte_changes_the_crc() {
    let data: Vec<u8> = (0..64).collect();
    for i in 0..64 {
        let mut other = data.clone();
        other[i] ^= 0x80;
        assert_ne!(crc32(&other), crc32(&data));
    }
}

#[test]
fn container_checks() {
    let good = container(b"payload");
    assert_eq!(inspect(&good), ImageState::Valid { len: 7, crc: crc32(b"payload") });
    let mut c = good.clone();
    c[0] = b'X';
    assert_eq!(inspect(&c), ImageState::NoMagic);
    let mut c = good.clone();
    c[8] = 6;
    assert_eq!(inspect(&c), ImageState::BadHeaderCrc);
    let mut c = good.clone();
    write_header(&mut c, 0, 0);
    assert_eq!(inspect(&c), ImageState::BadLength);
    write_header(&mut c, MAX_PAYLOAD as u32 + 1, 0);
    assert_eq!(inspect(&c), ImageState::BadLength);
    let mut c = good.clone();
    c[HDR_SIZE] = b'P';
    assert_eq!(
        inspect(&c),
        ImageState::BadPayloadCrc { expected: crc32(b"payload"), actual: crc32(b"Payload") }
    );
    assert_eq!(&good[..8], b"NHIMG001");
    assert_eq!(boot(&good, 7), b"payload\0".to_vec());
    assert_eq!(boot(&good, 0), Vec::<u8>::new());
}

#[test]
fn image_choice() {
    let valid = ImageState::Valid { len: 100, crc: 0xAB };
    assert_eq!(old_image(valid), Some(100));
    assert_eq!(old_image(ImageState::NoMagic), None);
    assert_eq!(state_line(valid), "image: valid, 100 bytes, crc32 000000ab");
    assert_eq!(
        state_line(ImageState::BadPayloadCrc { expected: 1, actual: 0xFFFF_FFFF }),
        "image: BadPayloadCrc (header says 00000001, payload is ffffffff)"
    );
    assert_eq!(state_line(ImageState::NoMagic), "image: NoMagic");
    assert_eq!(state_line(ImageState::BadHeaderCrc), "image: BadHeaderCrc");
    assert_eq!(state_line(ImageState::BadLength), "image: BadLength");
    assert_eq!(choose_image(Some(5), None), Start::Boot { base: IMAGE_ADDR, len: 5 });
    assert_eq!(choose_image(None, None), Start::Wait);
    assert_eq!(choose_image(None, Some((100, valid))), Start::Boot { base: NEW_BASE, len: 100 });
    assert_eq!(choose_image(Some(5), Some((99, valid))), Start::Park);
    assert_eq!(choose_image(Some(5), Some((99, ImageState::NoMagic))), Start::Park);
}

#[test]
fn property_requests() {
    let buf = send_one_tag(0x0003_0002, &[4, 0]);
    assert_eq!(&buf[..9], &[32, 0, 0x0003_0002, 8, 0, 4, 0, 0, 0]);
    assert_eq!(clock_rate_request(4), buf);
    assert_eq!(send_one_tag(1, &[7; 10])[0], 64);
    assert_eq!(post_word(0x0008_0040), 0xC008_0048);
}

#[test]
fn mailbox_polling() {
    let p = mailbox_call(MailboxPoll::Room(3), STATUS_FULL, 0);
    assert!(p == MailboxPoll::Room(2));
    assert!(mailbox_call(MailboxPoll::Room(0), STATUS_FULL, 0) == MailboxPoll::TimedOut);
    assert!(mailbox_call(MailboxPoll::Room(0), 0, 0) == MailboxPoll::Post);
    assert!(mailbox_call(MailboxPoll::Post, 0, 0) == MailboxPoll::Reply(POLL_LIMIT));
    assert!(mailbox_call(MailboxPoll::Reply(9), STATUS_EMPTY, 8) == MailboxPoll::Reply(8));
    assert!(mailbox_call(MailboxPoll::Reply(9), 0, 1) == MailboxPoll::Reply(8));
    assert!(mailbox_call(MailboxPoll::Reply(9), 0, 0x1238) == MailboxPoll::Answered);
    assert!(mailbox_call(MailboxPoll::Reply(0), 0, 8) == MailboxPoll::TimedOut);
}

#[test]
fn property_replies() {
    let mut buf = clock_rate_request(4);
    assert!(tag_reply(&buf, 2) == Err(MailboxError::FirmwareError));
    buf[1] = 0x8000_0000;
    assert!(get_clock_rate(Some(&buf)) == Err(MailboxError::TagNotHandled));
    buf[4] = 0x8000_0008;
    buf[6] = 400_000_000;
    assert!(tag_reply(&buf, 2) == Ok(vec![4, 400_000_000]));
    assert!(get_clock_rate(Some(&buf)) == Ok(400_000_000));
    assert!(get_clock_rate(None) == Err(MailboxError::Timeout));
}

#[test]
fn card_plan_writes_what_changed_header_last() {
    let old = container(&[1u8; 5000]);
    let mut payload = vec![1u8; 5000];
    payload[600] = 2;
    payload[4999] = 9;
    let new = container(&payload);
    let chain = Chain { num_clusters: 512, bpc: 64, lbas: (0..512).map(|i| 8192 + 64 * i).collect() };
    let job = persist(&new, 5000, Some(&old), false, Some(&chain)).unwrap();
    assert_eq!(
        job.finished(1_000, 8_999),
        Stats { sectors_written: 3, sectors_total: 18, created: false, ms: 7 }
    );
    assert_eq!(job.progress(0), None);
    let writes = job.writes;
    assert_eq!(writes, vec![(9, 8201), (17, 8209), (0, 8192)]);
    let mut stored = old.clone();
    for (s, _) in &writes {
        let at = *s as usize * 512;
        stored[at..at + 512].copy_from_slice(&new[at..at + 512]);
    }
    assert_eq!(inspect(&stored), inspect(&new));
    // Without an old copy everything goes out, the header from its last sector down.
    let writes = persist(&new, 5000, None, false, Some(&chain)).unwrap().writes;
    assert_eq!(writes.len(), 18);
    assert_eq!(writes[0], (8, 8200));
    assert_eq!(writes[10], (7, 8199));
    assert_eq!(writes[17], (0, 8192));
    // A file that was just created needs its header only.
    let job = persist(&new, 5000, Some(&old), true, Some(&chain)).unwrap();
    assert_eq!(
        job.finished(0, 0),
        Stats { sectors_written: 8, sectors_total: 18, created: true, ms: 0 }
    );
    // Progress is noted every 2048 payload sectors.
    let big = vec![1u8; 2100 * 512];
    let job = persist(&container(&big), 2100 * 512, None, false, Some(&chain)).unwrap();
    assert_eq!((job.progress(2046), job.progress(2047)), (None, Some((2048, 2108))));
}

#[test]
fn blocks_follow_the_cluster_chain() {
    let new = container(&[3u8; 512]);
    let chain = Chain { num_clusters: 2, bpc: 8, lbas: vec![100, 900] };
    let writes = persist(&new, 512, None, false, Some(&chain)).unwrap().writes;
    assert_eq!(writes[0], (8, 900));
    assert_eq!(writes[1], (7, 107));
}

#[test]
fn card_plan_errors() {
    let new = container(&[1u8; 600]);
    assert_eq!(persist(&new, 600, None, false, None), Err(PersistError::NoLbaMap));
    let many = Chain { num_clusters: 32769, bpc: 1, lbas: vec![0; 32768] };
    assert_eq!(persist(&new, 600, None, false, Some(&many)), Err(PersistError::TooManyClusters));
    let short = Chain { num_clusters: 1, bpc: 9, lbas: vec![0] };
    assert_eq!(persist(&new, 600, None, false, Some(&short)), Err(PersistError::ShortChain));
    assert_eq!(PersistError::NoLbaMap.text(), "no cluster map for HYPERV.IMG");
    assert_eq!(PersistError::TooManyClusters.text(), "HYPERV.IMG has more clusters than the map");
    assert_eq!(
        PersistError::ShortChain.text(),
        "HYPERV.IMG's cluster chain is shorter than its size"
    );
}

#[test]
fn created_file_has_its_size() {
    let chunks = create_full_file(&[7u8; 5000]);
    let mut len = 0;
    for c in &chunks {
        len += match c {
            Chunk::Zeros(n) => *n,
            Chunk::Payload(a, b) => *b - *a,
        };
    }
    assert_eq!(len, FILE_SIZE);
    assert!(matches!(chunks[0], Chunk::Zeros(4096)));
    assert!(matches!(chunks[1], Chunk::Payload(0, 4096)));
    assert!(matches!(chunks[2], Chunk::Payload(4096, 5000)));
    assert!(file_plan(Opened::Found(FILE_SIZE as u32)) == FilePlan::InPlace);
    assert!(file_plan(Opened::Found(1)) == FilePlan::Create);
    assert!(file_plan(Opened::NotFound) == FilePlan::Create);
    assert!(file_plan(Opened::Failed) == FilePlan::Fail);
}

#[test]
fn microseconds() {
    assert_eq!(now_us(19_200_000, 19_200_000), 1_000_000);
    assert_eq!(now_us(19_200_000, 0), 1_000_000);
    assert_eq!(now_us(54_000_000, 54_000_000), 1_000_000);
    assert_eq!(elapsed_us(5, 2), 3);
    assert_eq!(elapsed_us(1, u64::MAX), 2);
}

#[test]
fn uart_programs() {
    assert_eq!(divisors(115_200), (26, 2));
    assert_eq!(divisors(1_500_000), (2, 0));
    assert_eq!(divisors(3_000_000), (1, 0));
    let w = init(115_200);
    assert_eq!(w[0], (UART_CR, 0));
    assert_eq!(w[2], (UART_IBRD, 26));
    assert_eq!(w[3], (UART_FBRD, 2));
    assert_eq!(w[4], (UART_LCRH, 0x70));
    assert_eq!(w[6], (UART_CR, 0x301));
    let steps = set_baud(115_200);
    assert_eq!(steps.len(), 8);
    assert!(steps[0] == BaudStep::Drain);
    assert!(steps[7] == BaudStep::Write(UART_CR, 0x301));
    assert!(flush(0x10));
    assert!(!flush(0x08));
    assert_eq!(putc(0x20, b'a'), None);
    assert_eq!(putc(0, b'a'), Some(0x61));
    assert_eq!(getc_nonblock(0x10, 0x41), None);
    assert_eq!(getc_nonblock(0, 0xF41), Some(0x41));
    assert_eq!(Writer.write_str(b"a\nb\n"), b"a\r\nb\r\n".to_vec());
}

#[test]
fn handshake_lines() {
    assert_eq!(parse_handshake(b"NHUP 115200"), Some(115_200));
    assert_eq!(parse_handshake(b"NHUP 00000001"), Some(1));
    assert_eq!(parse_handshake(b"NHUP 123456789"), None);
    assert_eq!(parse_handshake(b"NHUP "), None);
    assert_eq!(parse_handshake(b"NHUP 12a"), None);
    assert_eq!(parse_handshake(b"nhup 115200"), None);
    assert_eq!(parse_handshake(b"NHU"), None);
}

fn feed(h: &mut Handshake, bytes: &[u8]) -> Vec<HandshakeAction> {
    bytes.iter().map(|b| handshake_window(h, true, LineEvent::Byte(*b))).collect()
}

#[test]
fn handshake_is_heard_after_noise() {
    let mut h = Handshake::new(0);
    let acts = feed(&mut h, b"\xFF\x00garbage\x01NH\x01NHUP 3000000\n");
    assert!(*acts.last().unwrap() == HandshakeAction::Accept(3_000_000));
    let acts = feed(&mut h, b"\x01NHUP 9600\r");
    assert!(*acts.last().unwrap() == HandshakeAction::RejectBaud);
    let acts = feed(&mut h, b"NHUP 115200\n");
    assert!(acts.iter().all(|a| *a == HandshakeAction::Continue));
    let acts = feed(&mut h, b"\x01aaaaaaaaaaaaaaaaaaaaaaaaaaaaaaaaaNHUP 115200\n");
    assert!(acts.iter().all(|a| *a == HandshakeAction::Continue));
}

#[test]
fn handshake_window_closes() {
    let mut h = Handshake::new(1000);
    assert!(handshake_window(&mut h, true, LineEvent::Idle(1_000_999)) == HandshakeAction::Continue);
    assert!(handshake_window(&mut h, true, LineEvent::Idle(1_001_000)) == HandshakeAction::GiveUp);
    assert!(
        handshake_window(&mut h, false, LineEvent::Idle(5_001_000)) == HandshakeAction::NoteWaiting
    );
    assert!(
        handshake_window(&mut h, false, LineEvent::Idle(5_001_001)) == HandshakeAction::Continue
    );
}

#[test]
fn replies() {
    assert_eq!(ack(0x0102_0304), vec![b'A', 4, 3, 2, 1]);
    assert_eq!(nak(1, NAK_BAD_CRC), vec![b'N', 1, 0, 0, 0, 1]);
}

#[test]
fn fingerprint_table() {
    let mut old = vec![0u8; 4096];
    old.extend_from_slice(&[1u8; 4096]);
    old.extend_from_slice(&[2u8; 10]);
    let table = build_table(Some(&old));
    assert_eq!(table.len(), 2);
    assert_eq!(table[1], (adler32(&[1u8; 4096]), crc32(&[1u8; 4096])));
    assert_eq!(build_table(None).len(), 0);
    let message = send_table(&table);
    let entries = words(&[table[0].0, table[0].1, table[1].0, table[1].1]);
    let mut want = vec![b'T', 2, 0, 0, 0];
    want.extend_from_slice(&entries);
    want.extend_from_slice(&words(&[crc32(&entries)]));
    assert_eq!(message, want);
}

fn reply_of(a: RxAction) -> Vec<u8> {
    match a {
        RxAction::Reply(r) => r,
        RxAction::ReplyResync(r) => r,
        RxAction::Read(_) => panic!("a read"),
        RxAction::Commit { .. } => panic!("a commit"),
    }
}

fn message(r: &mut Receiver, tag: u8, header: &[u32]) -> RxAction {
    match receive(r, RxEvent::Tag(tag)) {
        RxAction::Read(n) => assert_eq!(n, 4 * header.len()),
        _ => panic!("no header wanted"),
    }
    receive(r, RxEvent::Bytes(words(header)))
}

#[test]
fn upload_is_put_together() {
    let old: Vec<u8> = (0..9000).map(|i| (i % 256) as u8).collect();
    let mut r = Receiver::new(vec![0xEEu8; FILE_SIZE], Some(old.clone()));
    let fresh = vec![5u8; 100];
    assert!(matches!(message(&mut r, TAG_DATA, &[0, 100, crc32(&fresh)]), RxAction::Read(100)));
    assert_eq!(reply_of(receive(&mut r, RxEvent::Bytes(fresh.clone()))), ack(0));
    let head = words(&[100, 50, 4000]);
    let a = message(&mut r, TAG_COPY, &[100, 50, 4000, crc32(&head)]);
    assert_eq!(reply_of(a), ack(100));
    let mut payload = fresh;
    payload.extend_from_slice(&old[50..4050]);
    let sum = crc32(&payload);
    match message(&mut r, TAG_COMMIT, &[4100, sum]) {
        RxAction::Commit { reply, len, crc } => {
            assert_eq!(reply, ack(4100));
            assert_eq!((len, crc), (4100, sum));
        }
        _ => panic!("not committed"),
    }
    assert_eq!(inspect(&r.new), ImageState::Valid { len: 4100, crc: sum });
    assert_eq!(&r.new[HDR_SIZE..HDR_SIZE + 4100], payload.as_slice());
    assert_eq!(r.new[HDR_SIZE + 4100], 0);
    assert_eq!(r.new[HDR_SIZE + 8191], 0);
    assert_eq!(r.new[HDR_SIZE + 8192], 0xEE);
}

#[test]
fn refused_messages() {
    let mut r = Receiver::new(vec![0u8; FILE_SIZE], None);
    match receive(&mut r, RxEvent::Tag(b'?')) {
        RxAction::ReplyResync(reply) => assert_eq!(reply, nak(b'?' as u32, NAK_UNKNOWN_TAG)),
        _ => panic!("unknown tag"),
    }
    let bad_ranges: [[u32; 3]; 4] =
        [[0, 0, 0], [0, 65_537, 0], [MAX_PAYLOAD as u32, 1, 0], [0xFFFF_FFFF, 2, 0]];
    for h in bad_ranges {
        assert_eq!(reply_of(message(&mut r, TAG_DATA, &h)), nak(h[0], NAK_BAD_RANGE));
    }
    assert_eq!(reply_of(message(&mut r, TAG_COPY, &[7, 0, 1, 0])), nak(7, NAK_BAD_CRC));
    let sum = crc32(&words(&[7, 0, 1]));
    assert_eq!(reply_of(message(&mut r, TAG_COPY, &[7, 0, 1, sum])), nak(7, NAK_NO_OLD_IMAGE));
    assert_eq!(reply_of(message(&mut r, TAG_COMMIT, &[0, 0])), nak(0, NAK_BAD_RANGE));
    assert_eq!(reply_of(message(&mut r, TAG_COMMIT, &[8, 1])), nak(8, NAK_BAD_CRC));
    assert!(r.new.iter().all(|b| *b == 0));
    r.old = Some(vec![1; 10]);
    let sum = crc32(&words(&[7, 5, 6]));
    assert_eq!(reply_of(message(&mut r, TAG_COPY, &[7, 5, 6, sum])), nak(7, NAK_BAD_RANGE));
    assert!(r.new.iter().all(|b| *b == 0));
    assert!(r.phase == Phase::Tag);
}

#[test]
fn damaged_or_late_data() {
    let mut r = Receiver::new(vec![0u8; FILE_SIZE], None);
    message(&mut r, TAG_DATA, &[16, 4, crc32(b"good")]);
    assert_eq!(reply_of(receive(&mut r, RxEvent::Bytes(b"goof".to_vec()))), nak(16, NAK_BAD_CRC));
    message(&mut r, TAG_DATA, &[16, 4, crc32(b"good")]);
    assert_eq!(reply_of(receive(&mut r, RxEvent::Timeout(b"go".to_vec()))), nak(16, NAK_RX_TIMEOUT));
    receive(&mut r, RxEvent::Tag(TAG_COPY));
    assert_eq!(reply_of(receive(&mut r, RxEvent::Timeout(vec![1]))), nak(0, NAK_RX_TIMEOUT));
    message(&mut r, TAG_DATA, &[16, 4, crc32(b"good")]);
    assert_eq!(reply_of(receive(&mut r, RxEvent::Bytes(b"good".to_vec()))), ack(16));
    assert_eq!(&r.new[HDR_SIZE + 15..HDR_SIZE + 21], b"\0good\0");
}

#[test]
fn reads_with_a_deadline() {
    let mut r = ReadExact::new(2);
    assert!(read_exact(&mut r, LineEvent::Idle(100)) == ReadState::Pending);
    assert!(read_exact(&mut r, LineEvent::Idle(2_000_100)) == ReadState::Pending);
    assert!(read_exact(&mut r, LineEvent::Byte(7)) == ReadState::Pending);
    assert!(read_exact(&mut r, LineEvent::Idle(9_000_000)) == ReadState::Pending);
    assert!(read_exact(&mut r, LineEvent::Idle(11_000_001)) == ReadState::TimedOut);
    assert!(read_exact(&mut r, LineEvent::Byte(8)) == ReadState::Done);
    assert_eq!(r.got, vec![7, 8]);
    let mut since = 0u64;
    assert!(!drain_until_quiet(&mut since, 100, true, 50));
    assert!(!drain_until_quiet(&mut since, 100, false, 149));
    assert!(drain_until_quiet(&mut since, 100, false, 150));
}

//! The firmware's property mailbox: requests of one tag, the poll of the mailbox, and what
//! the reply says.

use vstd::prelude::*;

verus! {

pub const MAILBOX_BASE: usize = 0x3F00_B880;

/// Mailbox full: cannot write.
pub const STATUS_FULL: u32 = 0x8000_0000;

/// Mailbox empty: cannot read.
pub const STATUS_EMPTY: u32 = 0x4000_0000;

pub const CHANNEL_PROPERTY: u32 = 8;

pub const REQUEST_CODE: u32 = 0;

pub const RESPONSE_SUCCESS: u32 = 0x8000_0000;

/// Bus-address bits of the uncached alias.
pub const BUS_UNCACHED: u32 = 0xC000_0000;

/// Property tag: get a clock's rate.
pub const TAG_GET_CLOCK_RATE: u32 = 0x0003_0002;

/// The SoC core clock.
pub const CLOCK_ID_CORE: u32 = 4;

/// How often the mailbox is polled before giving up.
pub const POLL_LIMIT: u32 = 10_000_000;

/// Why a request failed.
#[derive(Debug, Clone, Copy, PartialEq, Eq, Structural)]
pub enum MailboxError {
    /// The firmware did not answer in time.
    Timeout,
    /// The firmware answered with an error.
    FirmwareError,
    /// The firmware did not fill the tag in.
    TagNotHandled,
}

/// The request buffer for tag `tag_id` with arguments `args`: total size padded to sixteen
/// bytes, request code, tag, argument size, request code, arguments, end tag.
pub open spec fn request_words(tag_id: u32, args: Seq<u32>) -> Seq<u32> {
    Seq::new(
        16,
        |i: int|
            if i == 0 {
                ((4 * (6 + args.len()) + 15) / 16 * 16) as u32
            } else if i == 2 {
                tag_id
            } else if i == 3 {
                (4 * args.len()) as u32
            } else if 5 <= i < 5 + args.len() {
                args[i - 5]
            } else {
                0
            },
    )
}

proof fn round_to_sixteen_bits(n: u32)
    by (bit_vector)
    requires
        n <= 64,
    ensures
        ((n + 15) as u32) & !15u32 == (n + 15) / 16 * 16,
{
}

/// Builds the request buffer for one tag.
pub fn send_one_tag(tag_id: u32, args: &[u32]) -> (buf: [u32; 16])
    requires
        args@.len() <= 10,
    ensures
        buf@ == request_words(tag_id, args@),
{
    let payload_bytes: u32 = (args.len() as u32) * 4;
    let total_bytes: u32 = (6 + args.len() as u32) * 4;
    proof {
        round_to_sixteen_bits(total_bytes);
    }
    let padded: u32 = (total_bytes + 15) & !15u32;
    let mut buf: [u32; 16] = [0u32;16];
    buf[0] = padded;
    buf[1] = REQUEST_CODE;
    buf[2] = tag_id;
    buf[3] = payload_bytes;
    buf[4] = REQUEST_CODE;
    let mut i: usize = 0;
    while i < args.len()
        invariant
            i <= args@.len() <= 10,
            buf[0] == padded,
            buf[1] == 0,
            buf[2] == tag_id,
            buf[3] == payload_bytes,
            buf[4] == 0,
            forall|k: int| 0 <= k < i ==> #[trigger] buf[5 + k] == args@[k],
            forall|k: int| 5 + i <= k < 16 ==> #[trigger] buf[k] == 0,
        decreases args@.len() - i,
    {
        buf[5 + i] = args[i];
        assert forall|k: int| 0 <= k < i + 1 implies #[trigger] buf[5 + k] == args@[k] by {}
        i = i + 1;
    }
    proof {
        assert forall|k: int| 0 <= k < 16 implies buf@[k] == request_words(tag_id, args@)[k] by {
            if 5 <= k < 5 + args@.len() {
                assert(buf[5 + (k - 5)] == args@[k - 5]);
            }
        }
        assert(buf@ =~= request_words(tag_id, args@));
    }
    buf
}

/// The word that posts the buffer at physical address `pa`, which is a multiple of sixteen.
pub fn post_word(pa: u32) -> (w: u32)
    ensures
        w == pa | BUS_UNCACHED | CHANNEL_PROPERTY,
{
    pa | BUS_UNCACHED | CHANNEL_PROPERTY
}

/// How a mailbox call stands.
#[derive(Clone, Copy, PartialEq, Eq, Structural)]
pub enum MailboxPoll {
    /// Waiting for room, this many looks left.
    Room(u32),
    /// There is room: post the buffer.
    Post,
    /// Waiting for the reply, this many looks left.
    Reply(u32),
    /// The reply has come.
    Answered,
    /// Too many looks.
    TimedOut,
}

/// The poll after a look at the status register and, where the mailbox holds something, at
/// the message `msg`.
pub open spec fn poll_step(p: MailboxPoll, status: u32, msg: u32) -> MailboxPoll {
    match p {
        MailboxPoll::Room(left) => if status & STATUS_FULL == 0 {
            MailboxPoll::Post
        } else if left == 0 {
            MailboxPoll::TimedOut
        } else {
            MailboxPoll::Room((left - 1) as u32)
        },
        MailboxPoll::Post => MailboxPoll::Reply(POLL_LIMIT),
        MailboxPoll::Reply(left) => if left == 0 {
            MailboxPoll::TimedOut
        } else if status & STATUS_EMPTY == 0 && msg & 0xF == CHANNEL_PROPERTY {
            MailboxPoll::Answered
        } else {
            MailboxPoll::Reply((left - 1) as u32)
        },
        MailboxPoll::Answered => p,
        MailboxPoll::TimedOut => p,
    }
}

/// Takes one look at the mailbox. A call starts at `Room(POLL_LIMIT)`; messages for other
/// channels are skipped.
pub fn mailbox_call(p: MailboxPoll, status: u32, msg: u32) -> (next: MailboxPoll)
    ensures
        next == poll_step(p, status, msg),
{
    match p {
        MailboxPoll::Room(left) => {
            if status & STATUS_FULL == 0 {
                MailboxPoll::Post
            } else if left == 0 {
                MailboxPoll::TimedOut
            } else {
                MailboxPoll::Room(left - 1)
            }
        },
        MailboxPoll::Post => MailboxPoll::Reply(POLL_LIMIT),
        MailboxPoll::Reply(left) => {
            if left == 0 {
                MailboxPoll::TimedOut
            } else if status & STATUS_EMPTY == 0 && msg & 0xF == CHANNEL_PROPERTY {
                MailboxPoll::Answered
            } else {
                MailboxPoll::Reply(left - 1)
            }
        },
        MailboxPoll::Answered => p,
        MailboxPoll::TimedOut => p,
    }
}

/// What the reply buffer says: an error of the firmware, a tag it did not fill in, or the
/// `n` words of the tag's value.
pub open spec fn reply_value(buf: Seq<u32>, n: int) -> Result<Seq<u32>, MailboxError> {
    if buf[1] != RESPONSE_SUCCESS {
        Err(MailboxError::FirmwareError)
    } else if buf[4] & 0x8000_0000 == 0 {
        Err(MailboxError::TagNotHandled)
    } else {
        Ok(buf.subrange(5, 5 + n))
    }
}

/// Reads the value of the tag out of the reply buffer.
pub fn tag_reply(buf: &[u32; 16], n: usize) -> (r: Result<Vec<u32>, MailboxError>)
    requires
        n <= 10,
    ensures
        match r {
            Ok(v) => reply_value(buf@, n as int) == Ok::<Seq<u32>, MailboxError>(v@),
            Err(e) => reply_value(buf@, n as int) == Err::<Seq<u32>, MailboxError>(e),
        },
{
    if buf[1] != RESPONSE_SUCCESS {
        return Err(MailboxError::FirmwareError);
    }
    if buf[4] & 0x8000_0000 == 0 {
        return Err(MailboxError::TagNotHandled);
    }
    let mut v: Vec<u32> = Vec::new();
    let mut i: usize = 0;
    while i < n
        invariant
            i <= n <= 10,
            v@ == buf@.subrange(5, 5 + i),
        decreases n - i,
    {
        v.push(buf[5 + i]);
        assert(v@ =~= buf@.subrange(5, 5 + i + 1));
        i = i + 1;
    }
    Ok(v)
}

/// The request for the rate of clock `clock_id`.
pub fn clock_rate_request(clock_id: u32) -> (buf: [u32; 16])
    ensures
        buf@ == request_words(TAG_GET_CLOCK_RATE, seq![clock_id, 0u32]),
{
    let args: [u32; 2] = [clock_id, 0];
    assert(args@ =~= seq![clock_id, 0u32]);
    send_one_tag(TAG_GET_CLOCK_RATE, &args)
}

/// The rate in hertz out of the reply to `clock_rate_request`: the tag's second word.
/// `reply` is `None` where the mailbox timed out.
pub fn get_clock_rate(reply: Option<&[u32; 16]>) -> (r: Result<u32, MailboxError>)
    ensures
        r == (match reply {
            None => Err(MailboxError::Timeout),
            Some(buf) => match reply_value(buf@, 2) {
                Ok(v) => Ok(v[1]),
                Err(e) => Err(e),
            },
        }),
{
    match reply {
        None => Err(MailboxError::Timeout),
        Some(buf) => {
            match tag_reply(buf, 2) {
                Ok(v) => Ok(v[1]),
                Err(e) => Err(e),
            }
        },
    }
}

/// A request is the padded size of its words, at least as large as they are and a multiple of
/// sixteen, the request code, the tag, the size of its arguments, the request code again, the
/// arguments, and a zero word behind them that ends the tags.
pub proof fn request_layout(tag_id: u32, args: Seq<u32>, k: int)
    requires
        args.len() <= 10,
        0 <= k < args.len(),
    ensures
        ({
            let r = request_words(tag_id, args);
            &&& r.len() == 16
            &&& r[0] % 16 == 0
            &&& 4 * (6 + args.len()) <= r[0] < 4 * (6 + args.len()) + 16
            &&& r[1] == 0 && r[2] == tag_id && r[3] == 4 * args.len() && r[4] == 0
            &&& r[5 + k] == args[k]
            &&& r[5 + args.len() as int] == 0
        }),
{
}

/// A reply is taken exactly where the firmware reports success and has filled the tag in; its value
/// is the words behind the tag's header, as many as are asked for.
pub proof fn replies_are_checked(buf: Seq<u32>, n: int, k: int)
    requires
        buf.len() == 16,
        0 <= k < n <= 10,
    ensures
        buf[1] != 0x8000_0000 ==> reply_value(buf, n) == Err::<Seq<u32>, MailboxError>(
            MailboxError::FirmwareError,
        ),
        buf[1] == 0x8000_0000 && buf[4] & 0x8000_0000 == 0 ==> reply_value(buf, n) == Err::<
            Seq<u32>,
            MailboxError,
        >(MailboxError::TagNotHandled),
        buf[1] == 0x8000_0000 && buf[4] & 0x8000_0000 != 0 ==> reply_value(buf, n) is Ok
            && reply_value(buf, n)->Ok_0.len() == n && reply_value(buf, n)->Ok_0[k] == buf[5 + k],
{
}

/// A look posts as soon as the mailbox has room, and takes the first message that is there and is for
/// the property channel. Otherwise each look uses up one of those left, and with none left the call
/// times out. A call that has ended stays ended.
pub proof fn looks_are_counted(p: MailboxPoll, status: u32, msg: u32)
    ensures
        ({
            let q = poll_step(p, status, msg);
            match p {
                MailboxPoll::Room(left) => {
                    &&& q is Post <==> status & 0x8000_0000 == 0
                    &&& status & 0x8000_0000 != 0 && left > 0 ==> q == MailboxPoll::Room(
                        (left - 1) as u32,
                    )
                    &&& status & 0x8000_0000 != 0 && left == 0 ==> q is TimedOut
                },
                MailboxPoll::Post => q == MailboxPoll::Reply(10_000_000),
                MailboxPoll::Reply(left) => {
                    &&& q is Answered <==> left > 0 && status & 0x4000_0000 == 0 && msg & 0xF == 8
                    &&& q is TimedOut <==> left == 0
                    &&& !(q is Answered) && !(q is TimedOut) ==> q == MailboxPoll::Reply(
                        (left - 1) as u32,
                    )
                },
                _ => q == p,
            }
        }),
{
}

/// A buffer that the firmware hands back as it was sent is an error: no request passes for
/// its own reply.
pub proof fn unanswered_request_is_refused(tag_id: u32, args: Seq<u32>, n: int)
    ensures
        reply_value(request_words(tag_id, args), n) == Err::<Seq<u32>, MailboxError>(
            MailboxError::FirmwareError,
        ),
{
}

} // verus!

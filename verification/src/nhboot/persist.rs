//! Writing an uploaded container to its file on the card.
//!
//! The file has a fixed size, so it is rewritten in place: every sector has a known block
//! address through the file's cluster chain. Only sectors that differ from the copy the
//! firmware loaded are written, the payload first and the header last, so that an
//! interrupted write never leaves a new header before an unfinished payload.

use crate::nhboot::image::{FILE_SIZE, HDR_SIZE, MAX_PAYLOAD};
use crate::nhboot::time::elapsed_us;
use vstd::prelude::*;

verus! {

pub const SECTOR: usize = 512;

/// Header sectors.
pub const HDR_SECTORS: u32 = 8;

/// Clusters of the file if a cluster is one sector.
pub const MAX_CLUSTERS: usize = 32768;

/// Sectors between two progress notes.
pub const PROGRESS_EVERY: u32 = 2048;

/// Bytes per write where the file is created.
pub const CREATE_CHUNK: usize = 4096;

/// Why the container cannot be placed in its file.
#[derive(Debug, Clone, Copy, PartialEq, Eq, Structural)]
pub enum PersistError {
    /// The file has no cluster chain.
    NoLbaMap,
    /// The chain has more clusters than a file of this size can have.
    TooManyClusters,
    /// The chain covers fewer bytes than the container.
    ShortChain,
}

impl PersistError {
    /// The error in words.
    pub open spec fn words(self) -> Seq<char> {
        match self {
            PersistError::NoLbaMap => "no cluster map for HYPERV.IMG"@,
            PersistError::TooManyClusters => "HYPERV.IMG has more clusters than the map"@,
            PersistError::ShortChain => "HYPERV.IMG's cluster chain is shorter than its size"@,
        }
    }

    /// The error in words.
    pub fn text(&self) -> (t: &'static str)
        ensures
            t@ == self.words(),
    {
        match self {
            PersistError::NoLbaMap => "no cluster map for HYPERV.IMG",
            PersistError::TooManyClusters => "HYPERV.IMG has more clusters than the map",
            PersistError::ShortChain => "HYPERV.IMG's cluster chain is shorter than its size",
        }
    }
}

/// What a finished write did.
#[derive(Debug, Clone, Copy, PartialEq, Eq, Structural)]
pub struct Stats {
    pub sectors_written: u32,
    pub sectors_total: u32,
    pub created: bool,
    pub ms: u64,
}

/// Sector `s` of a container.
pub open spec fn sector_of(c: Seq<u8>, s: int) -> Seq<u8> {
    c.subrange(SECTOR * s, SECTOR * (s + 1))
}

/// The sectors that a container with `len` payload bytes occupies.
pub open spec fn total_sectors(len: int) -> int {
    (HDR_SIZE + len + 511) / 512
}

/// Whether sector `s` need not be written: there is an old copy, and it has the same bytes.
pub open spec fn unchanged(new: Seq<u8>, old: Option<Seq<u8>>, s: int) -> bool {
    old matches Some(o) && sector_of(new, s) == sector_of(o, s)
}

/// The payload sectors below `n` that are to be written, in order.
pub open spec fn payload_plan(new: Seq<u8>, old: Option<Seq<u8>>, n: int) -> Seq<u32>
    decreases n,
{
    if n <= HDR_SECTORS {
        Seq::empty()
    } else if unchanged(new, old, n - 1) {
        payload_plan(new, old, n - 1)
    } else {
        payload_plan(new, old, n - 1).push((n - 1) as u32)
    }
}

/// The header sectors from the last down to `n` that are to be written, in this order. A
/// file that was just created has all of them written.
pub open spec fn header_plan(new: Seq<u8>, old: Option<Seq<u8>>, created: bool, n: int) -> Seq<u32>
    decreases HDR_SECTORS - n,
{
    if n >= HDR_SECTORS {
        Seq::empty()
    } else if !created && unchanged(new, old, n) {
        header_plan(new, old, created, n + 1)
    } else {
        header_plan(new, old, created, n + 1).push(n as u32)
    }
}

/// The sectors to write, in order: the payload of a file that was there, then the header
/// from its last sector to its first.
pub open spec fn plan(new: Seq<u8>, len: int, old: Option<Seq<u8>>, created: bool) -> Seq<u32> {
    (if created {
        Seq::empty()
    } else {
        payload_plan(new, old, total_sectors(len))
    }) + header_plan(new, old, created, 0)
}

/// The block address of sector `s` in a file with `bpc` blocks per cluster.
pub open spec fn lba_of(lbas: Seq<u32>, bpc: u32, s: int) -> int {
    lbas[s / (bpc as int)] + s % (bpc as int)
}

/// The file's cluster chain, as far as it is known.
pub struct Chain {
    /// Clusters in the chain.
    pub num_clusters: usize,
    /// Blocks per cluster.
    pub bpc: u32,
    /// The first block of each cluster.
    pub lbas: Vec<u32>,
}

impl Chain {
    /// A cluster holds a block. Where the chain has no more clusters than a file can have, the
    /// map holds every one of them, and no block address is past the largest.
    pub open spec fn wf(self) -> bool {
        &&& self.bpc > 0
        &&& self.num_clusters <= MAX_CLUSTERS ==> {
            &&& self.num_clusters <= self.lbas@.len()
            &&& forall|i: int|
                0 <= i < self.num_clusters ==> #[trigger] self.lbas@[i] + self.bpc <= 0x1_0000_0000
        }
    }
}

/// Which error keeps a container of `total` sectors out of the file.
pub open spec fn chain_error(chain: Option<Chain>, total: int) -> Option<PersistError> {
    match chain {
        None => Some(PersistError::NoLbaMap),
        Some(c) => if c.num_clusters > MAX_CLUSTERS {
            Some(PersistError::TooManyClusters)
        } else if c.num_clusters * c.bpc < total {
            Some(PersistError::ShortChain)
        } else {
            None
        },
    }
}

fn sector_unchanged(new: &[u8], old: Option<&Vec<u8>>, s: u32) -> (same: bool)
    requires
        SECTOR * (s + 1) <= new@.len() == FILE_SIZE,
        old matches Some(o) ==> o@.len() == FILE_SIZE,
    ensures
        same == unchanged(
            new@,
            match old {
                Some(o) => Some(o@),
                None => None,
            },
            s as int,
        ),
{
    match old {
        None => false,
        Some(o) => {
            let base: usize = SECTOR * s as usize;
            let mut i: usize = 0;
            while i < SECTOR
                invariant
                    i <= SECTOR,
                    base == SECTOR * s,
                    old == Some(o),
                    SECTOR * (s + 1) <= new@.len() == FILE_SIZE,
                    o@.len() == FILE_SIZE,
                    forall|k: int| 0 <= k < i ==> #[trigger] new@[base + k] == o@[base + k],
                decreases SECTOR - i,
            {
                if new[base + i] != o[base + i] {
                    proof {
                        assert(sector_of(new@, s as int)[i as int] != sector_of(
                            o@,
                            s as int,
                        )[i as int]);
                    }
                    return false;
                }
                i = i + 1;
            }
            proof {
                let a = sector_of(new@, s as int);
                let b = sector_of(o@, s as int);
                assert forall|k: int| 0 <= k < SECTOR implies a[k] == b[k] by {
                    assert(new@[base + k] == o@[base + k]);
                }
                assert(a =~= b);
            }
            true
        },
    }
}

/// The block address of a sector.
fn block_of(chain: &Chain, s: u32) -> (lba: u32)
    requires
        chain.wf(),
        chain.num_clusters <= MAX_CLUSTERS,
        s < chain.num_clusters * chain.bpc,
    ensures
        lba == lba_of(chain.lbas@, chain.bpc, s as int),
{
    let bpc = chain.bpc;
    proof {
        vstd::arithmetic::div_mod::lemma_fundamental_div_mod(s as int, bpc as int);
        assert((s as int) / (bpc as int) < chain.num_clusters) by (nonlinear_arith)
            requires
                bpc > 0,
                s < chain.num_clusters * bpc,
                s == bpc * ((s as int) / (bpc as int)) + (s as int) % (bpc as int),
                (s as int) % (bpc as int) >= 0,
        ;
        assert((s as int) % (bpc as int) < bpc);
        assert((s as int) / (bpc as int) >= 0) by (nonlinear_arith)
            requires
                bpc > 0,
                s >= 0,
        ;
    }
    chain.lbas[(s / bpc) as usize] + s % bpc
}

/// The sectors to write for a container, each with its block, in order.
#[derive(Debug, PartialEq, Eq)]
pub struct PersistJob {
    pub writes: Vec<(u32, u32)>,
    /// The sectors of the container.
    pub sectors_total: u32,
    /// Whether the file has just been created.
    pub created: bool,
}

impl PersistJob {
    /// No more sectors are written than there are.
    pub open spec fn wf(self) -> bool {
        self.writes@.len() <= self.sectors_total
    }

    /// The progress to note once write `i` is done: the sectors written, of how many. The
    /// header is not worth a note.
    pub fn progress(&self, i: usize) -> (note: Option<(u32, u32)>)
        requires
            self.wf(),
            i < self.writes@.len(),
        ensures
            note == (if self.writes@[i as int].0 >= HDR_SECTORS && (i + 1) % (PROGRESS_EVERY as int)
                == 0 {
                Some(((i + 1) as u32, self.sectors_total))
            } else {
                None
            }),
    {
        let written: u32 = (i + 1) as u32;
        if self.writes[i].0 >= HDR_SECTORS && written % PROGRESS_EVERY == 0 {
            Some((written, self.sectors_total))
        } else {
            None
        }
    }

    /// What the write did, once every sector is written; it lasted from `started` to `now`, in
    /// microseconds.
    pub fn finished(&self, started: u64, now: u64) -> (st: Stats)
        requires
            self.wf(),
        ensures
            st == (Stats {
                sectors_written: self.writes@.len() as u32,
                sectors_total: self.sectors_total,
                created: self.created,
                ms: now.wrapping_sub(started) / 1000,
            }),
            st.sectors_written == self.writes@.len(),
    {
        Stats {
            sectors_written: self.writes.len() as u32,
            sectors_total: self.sectors_total,
            created: self.created,
            ms: elapsed_us(now, started) / 1000,
        }
    }
}

/// Decides which sectors of the new container go to which blocks, in what order. `old` is
/// the container the firmware loaded, if it is valid; `created` tells that the payload has
/// just been written with the file; `chain` is the file's cluster chain, if it has one.
pub fn persist(
    new: &[u8],
    payload_len: u32,
    old: Option<&Vec<u8>>,
    created: bool,
    chain: Option<&Chain>,
) -> (r: Result<PersistJob, PersistError>)
    requires
        new@.len() == FILE_SIZE,
        payload_len <= MAX_PAYLOAD,
        old matches Some(o) ==> o@.len() == FILE_SIZE,
        chain matches Some(c) ==> c.wf(),
    ensures
        ({
            let o = match old {
                Some(o) => Some(o@),
                None => None,
            };
            let c = match chain {
                Some(c) => Some(*c),
                None => None,
            };
            match r {
                Err(e) => chain_error(c, total_sectors(payload_len as int)) == Some(e),
                Ok(job) => {
                    let p = plan(new@, payload_len as int, o, created);
                    &&& chain_error(c, total_sectors(payload_len as int)) is None
                    &&& job.wf()
                    &&& job.sectors_total == total_sectors(payload_len as int)
                    &&& job.created == created
                    &&& job.writes@.len() == p.len()
                    &&& forall|i: int|
                        0 <= i < p.len() ==> #[trigger] job.writes@[i] == (
                            p[i],
                            lba_of(c->0.lbas@, c->0.bpc, p[i] as int) as u32,
                        )
                },
            }
        }),
{
    let ghost o = match old {
        Some(o) => Some(o@),
        None => None,
    };
    let ch: &Chain = match chain {
        None => {
            return Err(PersistError::NoLbaMap);
        },
        Some(c) => c,
    };
    if ch.num_clusters > MAX_CLUSTERS {
        return Err(PersistError::TooManyClusters);
    }
    let total: u32 = ((HDR_SIZE + payload_len as usize + 511) / 512) as u32;
    assert(ch.num_clusters * ch.bpc <= MAX_CLUSTERS * u32::MAX) by (nonlinear_arith)
        requires
            ch.num_clusters <= MAX_CLUSTERS,
            0 <= ch.bpc <= u32::MAX,
    ;
    if ch.num_clusters as u64 * (ch.bpc as u64) < total as u64 {
        return Err(PersistError::ShortChain);
    }
    let mut writes: Vec<(u32, u32)> = Vec::new();
    let ghost mut p: Seq<u32> = Seq::empty();
    if !created {
        let mut s: u32 = HDR_SECTORS;
        while s < total
            invariant
                HDR_SECTORS <= s <= total <= 32768,
                total == total_sectors(payload_len as int),
                new@.len() == FILE_SIZE,
                old matches Some(x) ==> x@.len() == FILE_SIZE,
                o == (match old {
                    Some(x) => Some(x@),
                    None => None,
                }),
                ch.wf(),
                ch.num_clusters <= MAX_CLUSTERS,
                ch.num_clusters * ch.bpc >= total,
                p == payload_plan(new@, o, s as int),
                p.len() <= s - HDR_SECTORS,
                writes@.len() == p.len(),
                forall|i: int|
                    0 <= i < p.len() ==> #[trigger] writes@[i] == (
                        p[i],
                        lba_of(ch.lbas@, ch.bpc, p[i] as int) as u32,
                    ),
            decreases total - s,
        {
            if !sector_unchanged(new, old, s) {
                let lba = block_of(ch, s);
                writes.push((s, lba));
                proof {
                    p = p.push(s);
                }
            }
            s = s + 1;
        }
    }
    let ghost front = p;
    let ghost mut q: Seq<u32> = Seq::empty();
    let mut s: u32 = HDR_SECTORS;
    while s > 0
        invariant
            s <= HDR_SECTORS <= total <= 32768,
            new@.len() == FILE_SIZE,
            old matches Some(x) ==> x@.len() == FILE_SIZE,
            o == (match old {
                Some(x) => Some(x@),
                None => None,
            }),
            ch.wf(),
            ch.num_clusters <= MAX_CLUSTERS,
            ch.num_clusters * ch.bpc >= total,
            q == header_plan(new@, o, created, s as int),
            front.len() <= total - HDR_SECTORS,
            q.len() <= HDR_SECTORS - s,
            writes@.len() == (front + q).len(),
            forall|i: int|
                0 <= i < (front + q).len() ==> #[trigger] writes@[i] == (
                    (front + q)[i],
                    lba_of(ch.lbas@, ch.bpc, (front + q)[i] as int) as u32,
                ),
        decreases s,
    {
        s = s - 1;
        if created || !sector_unchanged(new, old, s) {
            let lba = block_of(ch, s);
            writes.push((s, lba));
            proof {
                assert(front + q.push(s) =~= (front + q).push(s));
                q = q.push(s);
            }
        }
    }
    Ok(PersistJob { writes, sectors_total: total, created })
}

/// Where sector `s` stands in a payload plan, and that only sectors that differ are in it.
proof fn payload_plan_members(new: Seq<u8>, old: Option<Seq<u8>>, n: int, s: int)
    requires
        n <= 32768,
    ensures
        payload_plan(new, old, n).contains(s as u32) && 0 <= s <= u32::MAX ==> HDR_SECTORS <= s < n
            && !unchanged(new, old, s),
        HDR_SECTORS <= s < n && !unchanged(new, old, s) ==> payload_plan(new, old, n).contains(
            s as u32,
        ),
    decreases n,
{
    if n > HDR_SECTORS {
        payload_plan_members(new, old, n - 1, s);
        let p = payload_plan(new, old, n - 1);
        let q = payload_plan(new, old, n);
        if HDR_SECTORS <= s < n && !unchanged(new, old, s) {
            if s == n - 1 {
                assert(q[q.len() - 1] == s as u32);
            } else {
                let i = choose|i: int| 0 <= i < p.len() && p[i] == s as u32;
                assert(q[i] == s as u32);
            }
        }
        if q.contains(s as u32) && 0 <= s <= u32::MAX {
            let i = choose|i: int| 0 <= i < q.len() && q[i] == s as u32;
            if i < p.len() {
                assert(p[i] == s as u32);
                assert(p.contains(s as u32));
            }
        }
    }
}

proof fn header_plan_members(new: Seq<u8>, old: Option<Seq<u8>>, created: bool, n: int, s: int)
    requires
        0 <= n <= HDR_SECTORS,
    ensures
        header_plan(new, old, created, n).contains(s as u32) && 0 <= s <= u32::MAX ==> n <= s
            < HDR_SECTORS,
        n <= s < HDR_SECTORS && (created || !unchanged(new, old, s)) ==> header_plan(
            new,
            old,
            created,
            n,
        ).contains(s as u32),
    decreases HDR_SECTORS - n,
{
    if n < HDR_SECTORS {
        header_plan_members(new, old, created, n + 1, s);
        let p = header_plan(new, old, created, n + 1);
        let q = header_plan(new, old, created, n);
        if n <= s < HDR_SECTORS && (created || !unchanged(new, old, s)) {
            if s == n {
                assert(q[q.len() - 1] == s as u32);
            } else {
                let i = choose|i: int| 0 <= i < p.len() && p[i] == s as u32;
                assert(q[i] == s as u32);
            }
        }
        if q.contains(s as u32) && 0 <= s <= u32::MAX {
            let i = choose|i: int| 0 <= i < q.len() && q[i] == s as u32;
            if i < p.len() {
                assert(p[i] == s as u32);
                assert(p.contains(s as u32));
            }
        }
    }
}

/// The card's sectors of the file after the first `n` writes of a plan.
pub open spec fn written(
    card: Seq<Seq<u8>>,
    new: Seq<u8>,
    p: Seq<u32>,
    n: int,
) -> Seq<Seq<u8>>
    decreases n,
{
    if n <= 0 {
        card
    } else {
        written(card, new, p, n - 1).update(p[n - 1] as int, sector_of(new, p[n - 1] as int))
    }
}

proof fn written_sector(card: Seq<Seq<u8>>, new: Seq<u8>, p: Seq<u32>, n: int, s: int)
    requires
        0 <= n <= p.len(),
        0 <= s < card.len(),
        forall|i: int| 0 <= i < p.len() ==> #[trigger] p[i] < card.len(),
    ensures
        written(card, new, p, n).len() == card.len(),
        written(card, new, p, n)[s] == (if p.take(n).contains(s as u32) && s <= u32::MAX {
            sector_of(new, s)
        } else {
            card[s]
        }),
    decreases n,
{
    if n > 0 {
        written_sector(card, new, p, n - 1, s);
        assert(p[n - 1] < card.len());
        let a = p.take(n - 1);
        let b = p.take(n);
        if p[n - 1] == s {
            assert(b[n - 1] == s as u32);
        } else if b.contains(s as u32) && s <= u32::MAX {
            let i = choose|i: int| 0 <= i < b.len() && b[i] == s as u32;
            assert(a[i] == s as u32);
        } else if a.contains(s as u32) {
            let i = choose|i: int| 0 <= i < a.len() && a[i] == s as u32;
            assert(b[i] == s as u32);
        }
    }
}

/// After the whole plan the file holds the new container, provided that it held the old one
/// before, or, where it was created, that the payload was written with it.
pub proof fn plan_stores_the_container(
    card: Seq<Seq<u8>>,
    new: Seq<u8>,
    len: int,
    old: Option<Seq<u8>>,
    created: bool,
    s: int,
)
    requires
        0 <= len <= MAX_PAYLOAD,
        card.len() == 32768,
        0 <= s < total_sectors(len),
        old matches Some(o) ==> !created ==> card[s] == sector_of(o, s),
        created && s >= HDR_SECTORS ==> card[s] == sector_of(new, s),
    ensures
        ({
            let p = plan(new, len, old, created);
            written(card, new, p, p.len() as int)[s] == sector_of(new, s)
        }),
{
    let p = plan(new, len, old, created);
    let front: Seq<u32> = if created {
        Seq::empty()
    } else {
        payload_plan(new, old, total_sectors(len))
    };
    let back = header_plan(new, old, created, 0);
    payload_plan_members(new, old, total_sectors(len), s);
    header_plan_members(new, old, created, 0, s);
    assert forall|i: int| 0 <= i < p.len() implies #[trigger] p[i] < card.len() by {
        if i < front.len() {
            payload_plan_members(new, old, total_sectors(len), p[i] as int);
            assert(front[i] == p[i]);
            assert(front.contains(p[i]));
        } else {
            header_plan_members(new, old, created, 0, p[i] as int);
            assert(back[i - front.len()] == p[i]);
            assert(back.contains(p[i]));
        }
    }
    written_sector(card, new, p, p.len() as int, s);
    assert(p.take(p.len() as int) =~= p);
    if front.contains(s as u32) {
        let i = choose|i: int| 0 <= i < front.len() && front[i] == s as u32;
        assert(p[i] == s as u32);
    }
    if back.contains(s as u32) {
        let i = choose|i: int| 0 <= i < back.len() && back[i] == s as u32;
        assert(p[front.len() + i] == s as u32);
    }
}

/// The header's first sector, with the magic, the length and the checksums, is written last
/// or not at all: until the last write the file keeps the header it had.
pub proof fn header_goes_last(
    new: Seq<u8>,
    len: int,
    old: Option<Seq<u8>>,
    created: bool,
    i: int,
)
    requires
        0 <= len <= MAX_PAYLOAD,
        0 <= i < plan(new, len, old, created).len(),
        plan(new, len, old, created)[i] == 0,
    ensures
        i == plan(new, len, old, created).len() - 1,
{
    let front: Seq<u32> = if created {
        Seq::empty()
    } else {
        payload_plan(new, old, total_sectors(len))
    };
    let back = header_plan(new, old, created, 0);
    let later = header_plan(new, old, created, 1);
    if i < front.len() {
        payload_plan_members(new, old, total_sectors(len), 0);
        assert(front[i] == 0u32);
        assert(front.contains(0u32));
    } else {
        let j = i - front.len();
        assert(back[j] == 0);
        if j < later.len() {
            assert(later[j] == 0u32);
            assert(later.contains(0u32));
            header_plan_members(new, old, created, 1, 0);
        }
    }
}

/// The sectors of a container are just enough for its header page and its payload.
pub proof fn sectors_cover_the_container(len: int)
    requires
        0 <= len,
    ensures
        512 * total_sectors(len) >= 4096 + len,
        512 * (total_sectors(len) - 1) < 4096 + len,
{
}

/// A file takes a container exactly where its chain is known, has at most 32768 clusters, and its
/// clusters have as many blocks as the container has sectors; else the first that fails is named.
pub proof fn chains_are_checked(chain: Option<Chain>, total: int)
    ensures
        chain_error(chain, total) is None <==> (chain matches Some(c) && c.num_clusters <= 32768
            && c.num_clusters * c.bpc >= total),
        chain is None <==> chain_error(chain, total) == Some(PersistError::NoLbaMap),
        chain matches Some(c) ==> (chain_error(chain, total) == Some(PersistError::TooManyClusters)
            <==> c.num_clusters > 32768),
        chain matches Some(c) ==> (chain_error(chain, total) == Some(PersistError::ShortChain)
            <==> c.num_clusters <= 32768 && c.num_clusters * c.bpc < total),
{
}

/// Sector `r` of cluster `c` goes to block `r` of that cluster.
pub proof fn sectors_follow_their_cluster(lbas: Seq<u32>, bpc: u32, c: int, r: int)
    requires
        0 <= c < lbas.len(),
        0 <= r < bpc,
    ensures
        lba_of(lbas, bpc, c * bpc + r) == lbas[c] + r,
{
    let b = bpc as int;
    vstd::arithmetic::div_mod::lemma_fundamental_div_mod_converse(c * b + r, b, c, r);
}

/// Each sector is in a payload plan at most once, in rising order.
proof fn payload_plan_rises(new: Seq<u8>, old: Option<Seq<u8>>, n: int)
    requires
        n <= 32768,
    ensures
        ({
            let p = payload_plan(new, old, n);
            &&& forall|i: int, j: int| 0 <= i < j < p.len() ==> #[trigger] p[i] < #[trigger] p[j]
            &&& forall|i: int| 0 <= i < p.len() ==> HDR_SECTORS <= #[trigger] p[i] < n
        }),
    decreases n,
{
    if n > HDR_SECTORS {
        payload_plan_rises(new, old, n - 1);
        let q = payload_plan(new, old, n - 1);
        let p = payload_plan(new, old, n);
        assert forall|i: int| 0 <= i < p.len() implies HDR_SECTORS <= #[trigger] p[i] < n by {
            if i < q.len() {
                assert(p[i] == q[i]);
            }
        }
        assert forall|i: int, j: int| 0 <= i < j < p.len() implies #[trigger] p[i]
            < #[trigger] p[j] by {
            assert(p[i] == q[i]);
            if j < q.len() {
                assert(p[j] == q[j]);
            }
        }
    }
}

proof fn header_plan_falls(new: Seq<u8>, old: Option<Seq<u8>>, created: bool, n: int)
    requires
        0 <= n <= HDR_SECTORS,
    ensures
        ({
            let p = header_plan(new, old, created, n);
            &&& forall|i: int, j: int| 0 <= i < j < p.len() ==> #[trigger] p[i] > #[trigger] p[j]
            &&& forall|i: int| 0 <= i < p.len() ==> n <= #[trigger] p[i] < HDR_SECTORS
            &&& forall|i: int|
                0 <= i < p.len() ==> created || !unchanged(new, old, #[trigger] p[i] as int)
        }),
    decreases HDR_SECTORS - n,
{
    if n < HDR_SECTORS {
        header_plan_falls(new, old, created, n + 1);
        let q = header_plan(new, old, created, n + 1);
        let p = header_plan(new, old, created, n);
        assert forall|i: int| 0 <= i < p.len() implies n <= #[trigger] p[i] < HDR_SECTORS && (created
            || !unchanged(new, old, p[i] as int)) by {
            if i < q.len() {
                assert(p[i] == q[i]);
            }
        }
        assert forall|i: int, j: int| 0 <= i < j < p.len() implies #[trigger] p[i]
            > #[trigger] p[j] by {
            assert(p[i] == q[i]);
            if j < q.len() {
                assert(p[j] == q[j]);
            }
        }
    }
}

/// A plan writes what has changed, each sector once: a sector of the container is written exactly
/// where there is no old copy of it or a byte of it differs from that copy, but that a file which has
/// just been created has its header sectors written and no others. Payload sectors go first, in
/// rising order; the header's follow, from the last to the first.
pub proof fn plan_writes_what_changed(
    new: Seq<u8>,
    len: int,
    old: Option<Seq<u8>>,
    created: bool,
    s: u32,
)
    requires
        0 <= len <= MAX_PAYLOAD,
        new.len() == FILE_SIZE,
        old matches Some(o) ==> o.len() == FILE_SIZE,
    ensures
        ({
            let p = plan(new, len, old, created);
            let differs = old matches Some(o) ==> exists|i: int|
                512 * s <= i < 512 * (s + 1) && #[trigger] new[i] != o[i];
            &&& created ==> (p.contains(s) <==> s < 8)
            &&& !created && 512 * s < 4096 + len ==> (p.contains(s) <==> differs)
            &&& 512 * s >= 4096 + len ==> !p.contains(s)
            &&& forall|i: int, j: int|
                0 <= i < j < p.len() ==> if #[trigger] p[j] >= 8 {
                    8 <= #[trigger] p[i] < p[j]
                } else {
                    p[i] > p[j]
                }
        }),
{
    let p = plan(new, len, old, created);
    let n = total_sectors(len);
    let front: Seq<u32> = if created {
        Seq::empty()
    } else {
        payload_plan(new, old, n)
    };
    let back = header_plan(new, old, created, 0);
    payload_plan_rises(new, old, n);
    header_plan_falls(new, old, created, 0);
    payload_plan_members(new, old, n, s as int);
    header_plan_members(new, old, created, 0, s as int);
    assert forall|i: int, j: int| 0 <= i < j < p.len() implies if #[trigger] p[j] >= 8 {
        8 <= #[trigger] p[i] < p[j]
    } else {
        p[i] > p[j]
    } by {
        if i < front.len() {
            assert(p[i] == front[i]);
        } else {
            assert(p[i] == back[i - front.len()]);
        }
        if j < front.len() {
            assert(p[j] == front[j]);
        } else {
            assert(p[j] == back[j - front.len()]);
        }
    }
    if p.contains(s) {
        let i = choose|i: int| 0 <= i < p.len() && p[i] == s;
        if i < front.len() {
            assert(front[i] == s);
            assert(front.contains(s));
        } else {
            assert(back[i - front.len()] == s);
            assert(back.contains(s));
        }
    }
    if front.contains(s) {
        let i = choose|i: int| 0 <= i < front.len() && front[i] == s;
        assert(p[i] == s);
    }
    if back.contains(s) {
        let i = choose|i: int| 0 <= i < back.len() && back[i] == s;
        assert(p[front.len() + i] == s);
    }
    if 512 * s < 4096 + len {
        if let Some(o) = old {
            let a = sector_of(new, s as int);
            let b = sector_of(o, s as int);
            if forall|i: int| 512 * s <= i < 512 * (s + 1) ==> #[trigger] new[i] == o[i] {
                assert forall|k: int| 0 <= k < 512 implies a[k] == b[k] by {
                    assert(new[512 * s + k] == o[512 * s + k]);
                }
                assert(a =~= b);
            } else {
                let i = choose|i: int| 512 * s <= i < 512 * (s + 1) && #[trigger] new[i] != o[i];
                assert(a[i - 512 * s] != b[i - 512 * s]);
            }
        }
    }
}

/// A piece of the file where it is created.
#[derive(Clone, Copy, PartialEq, Eq, Structural)]
pub enum Chunk {
    /// This many zero bytes.
    Zeros(usize),
    /// Payload bytes from the first offset to before the second.
    Payload(usize, usize),
}

/// The bytes of one chunk.
pub open spec fn chunk_bytes(payload: Seq<u8>, c: Chunk) -> Seq<u8> {
    match c {
        Chunk::Zeros(n) => Seq::new(n as nat, |i: int| 0u8),
        Chunk::Payload(a, b) => payload.subrange(a as int, b as int),
    }
}

/// The bytes of the first `n` chunks.
pub open spec fn chunks_bytes(payload: Seq<u8>, cs: Seq<Chunk>, n: int) -> Seq<u8>
    decreases n,
{
    if n <= 0 {
        Seq::empty()
    } else {
        chunks_bytes(payload, cs, n - 1) + chunk_bytes(payload, cs[n - 1])
    }
}

proof fn chunks_bytes_of_prefix(payload: Seq<u8>, a: Seq<Chunk>, c: Chunk, n: int)
    requires
        0 <= n <= a.len(),
    ensures
        chunks_bytes(payload, a.push(c), n) == chunks_bytes(payload, a, n),
    decreases n,
{
    if n > 0 {
        chunks_bytes_of_prefix(payload, a, c, n - 1);
        assert(a.push(c)[n - 1] == a[n - 1]);
    }
}

/// A file that is created holds a zero header, the payload, and zeros up to its size.
pub open spec fn fresh_file(payload: Seq<u8>) -> Seq<u8> {
    Seq::new(HDR_SIZE as nat, |i: int| 0u8) + payload + Seq::new(
        (FILE_SIZE - HDR_SIZE - payload.len()) as nat,
        |i: int| 0u8,
    )
}

/// A file that is created has its size, a payload behind a header page of zeros, and zeros behind the
/// payload.
pub proof fn fresh_file_holds_the_payload(payload: Seq<u8>, i: int)
    requires
        payload.len() <= 0x00FF_F000,
        0 <= i < 0x0100_0000,
    ensures
        fresh_file(payload).len() == 0x0100_0000,
        fresh_file(payload)[i] == (if 4096 <= i < 4096 + payload.len() {
            payload[i - 4096]
        } else {
            0
        }),
{
}

/// What a row of chunks writes: one chunk behind the other, zeros for zeros, and for a part of the payload
/// the bytes of that part.
pub proof fn chunks_are_written_in_turn(payload: Seq<u8>, cs: Seq<Chunk>, n: int, i: int)
    requires
        0 < n <= cs.len(),
        0 <= i,
    ensures
        ({
            let before = chunks_bytes(payload, cs, n - 1);
            let all = chunks_bytes(payload, cs, n);
            &&& chunks_bytes(payload, cs, 0).len() == 0
            &&& i < before.len() ==> all[i] == before[i]
            &&& cs[n - 1] matches Chunk::Zeros(z) ==> all.len() == before.len() + z && (i < z
                ==> all[before.len() + i] == 0)
            &&& cs[n - 1] matches Chunk::Payload(a, b) ==> (a <= b <= payload.len() ==> all.len()
                == before.len() + (b - a) && (i < b - a ==> all[before.len() + i] == payload[a + i]))
        }),
{
}

/// The writes that create the file: each at most one chunk long, together the whole file.
pub fn create_full_file(payload: &[u8]) -> (cs: Vec<Chunk>)
    requires
        payload@.len() <= MAX_PAYLOAD,
    ensures
        chunks_bytes(payload@, cs@, cs@.len() as int) == fresh_file(payload@),
        forall|i: int|
            0 <= i < cs@.len() ==> match #[trigger] cs@[i] {
                Chunk::Zeros(n) => 0 < n <= CREATE_CHUNK,
                Chunk::Payload(a, b) => a < b <= payload@.len() && b - a <= CREATE_CHUNK,
            },
{
    let ghost zh = Seq::new(HDR_SIZE as nat, |i: int| 0u8);
    let mut cs: Vec<Chunk> = Vec::new();
    cs.push(Chunk::Zeros(HDR_SIZE));
    proof {
        reveal_with_fuel(chunks_bytes, 2);
        assert(chunks_bytes(payload@, cs@, 1) =~= zh);
    }
    let mut off: usize = 0;
    while off < payload.len()
        invariant
            off <= payload@.len() <= MAX_PAYLOAD,
            zh == Seq::new(HDR_SIZE as nat, |i: int| 0u8),
            chunks_bytes(payload@, cs@, cs@.len() as int) == zh + payload@.take(off as int),
            forall|i: int|
                0 <= i < cs@.len() ==> match #[trigger] cs@[i] {
                    Chunk::Zeros(n) => 0 < n <= CREATE_CHUNK,
                    Chunk::Payload(a, b) => a < b <= payload@.len() && b - a <= CREATE_CHUNK,
                },
        decreases payload@.len() - off,
    {
        let end: usize = if off + CREATE_CHUNK < payload.len() {
            off + CREATE_CHUNK
        } else {
            payload.len()
        };
        let c = Chunk::Payload(off, end);
        proof {
            chunks_bytes_of_prefix(payload@, cs@, c, cs@.len() as int);
            assert(zh + payload@.take(off as int) + payload@.subrange(off as int, end as int)
                =~= zh + payload@.take(end as int));
        }
        cs.push(c);
        off = end;
    }
    let ghost body = zh + payload@;
    assert(payload@.take(off as int) =~= payload@);
    let total: usize = FILE_SIZE - HDR_SIZE - payload.len();
    let mut remaining: usize = total;
    proof {
        assert(body + Seq::new(0nat, |i: int| 0u8) =~= body);
    }
    while remaining > 0
        invariant
            remaining <= total <= FILE_SIZE,
            total == FILE_SIZE - HDR_SIZE - payload@.len(),
            chunks_bytes(payload@, cs@, cs@.len() as int) == body + Seq::new(
                (total - remaining) as nat,
                |i: int| 0u8,
            ),
            forall|i: int|
                0 <= i < cs@.len() ==> match #[trigger] cs@[i] {
                    Chunk::Zeros(n) => 0 < n <= CREATE_CHUNK,
                    Chunk::Payload(a, b) => a < b <= payload@.len() && b - a <= CREATE_CHUNK,
                },
        decreases remaining,
    {
        let n: usize = if remaining < CREATE_CHUNK {
            remaining
        } else {
            CREATE_CHUNK
        };
        let c = Chunk::Zeros(n);
        proof {
            chunks_bytes_of_prefix(payload@, cs@, c, cs@.len() as int);
            assert(body + Seq::new((total - remaining) as nat, |i: int| 0u8) + Seq::new(
                n as nat,
                |i: int| 0u8,
            ) =~= body + Seq::new((total - remaining + n) as nat, |i: int| 0u8));
        }
        cs.push(c);
        remaining = remaining - n;
    }
    assert(chunks_bytes(payload@, cs@, cs@.len() as int) =~= fresh_file(payload@));
    cs
}

/// What opening the file found.
#[derive(Clone, Copy, PartialEq, Eq, Structural)]
pub enum Opened {
    /// The file, with its length.
    Found(u32),
    /// No such file.
    NotFound,
    /// Another failure.
    Failed,
}

/// What to do about the file.
#[derive(Clone, Copy, PartialEq, Eq, Structural)]
pub enum FilePlan {
    /// Rewrite it in place.
    InPlace,
    /// Create it, or create it anew at its right size.
    Create,
    /// Report the failure.
    Fail,
}

/// Decides what to do about the file: it is rewritten in place only at exactly its size.
pub fn file_plan(o: Opened) -> (p: FilePlan)
    ensures
        p == (match o {
            Opened::Found(len) => if len == FILE_SIZE {
                FilePlan::InPlace
            } else {
                FilePlan::Create
            },
            Opened::NotFound => FilePlan::Create,
            Opened::Failed => FilePlan::Fail,
        }),
{
    match o {
        Opened::Found(len) => {
            if len as usize == FILE_SIZE {
                FilePlan::InPlace
            } else {
                FilePlan::Create
            }
        },
        Opened::NotFound => FilePlan::Create,
        Opened::Failed => FilePlan::Fail,
    }
}

} // verus!

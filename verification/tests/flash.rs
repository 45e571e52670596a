//! The flash store: loading, change tracking, saves through the file system and by DMA.

use newton_hypervisor::flash_persist::null::NullBackend;
use newton_hypervisor::flash_persist::sd::{
    elapsed_ms, fnv1a_32, progress_dots, DmaStep, DmaWrite, LoadEnd, LoadEvent, LoadStep, Lookup,
    MapOutcome, SaveStep, SdBackend, BLOCK_SIZE, FLASH_SIZE, MAX_FLASH_CLUSTERS,
};

fn store() -> SdBackend {
    let mut b = SdBackend::new(vec![0xFFu8; FLASH_SIZE], false);
    assert!(!b.init(true));
    b
}

/// A store whose file is valid and whose clusters of 32 KiB are known.
fn mapped() -> SdBackend {
    let mut b = store();
    b.file_valid = true;
    let lbas: Vec<u32> = (0..MAX_FLASH_CLUSTERS as u32).map(|i| 1000 + 64 * i).collect();
    let o = b.resolve_extent_map(Lookup::Found(256, 64, lbas), Some(&[0xFF; 512]));
    assert!(o == MapOutcome::Verified);
    b
}

fn write_of(cluster: usize) -> DmaWrite {
    DmaWrite { cluster, lba: 1000 + 64 * cluster as u32, off: 32768 * cluster, len: 32768 }
}

#[test]
fn null_store_keeps_nothing() {
    let n = NullBackend;
    let mut flash = vec![1u8, 2, 3];
    n.try_load(&mut flash);
    assert_eq!(flash, vec![1, 2, 3]);
    assert_eq!(n.mark_dirty(0, 100), 0);
    assert!(!n.maybe_save());
    assert_eq!(n.fingerprint(), 0);
}

#[test]
fn fnv_values() {
    assert_eq!(fnv1a_32(b"", 0x811C_9DC5), 0x811C_9DC5);
    assert_eq!(fnv1a_32(b"a", 0x811C_9DC5), 0xE40C_292C);
    assert_eq!(fnv1a_32(b"foobar", 0x811C_9DC5), 0xBF9C_F968);
    let head = fnv1a_32(b"foo", 0x811C_9DC5);
    assert_eq!(fnv1a_32(b"bar", head), 0xBF9C_F968);
    let mut b = SdBackend::new(vec![0xFFu8; FLASH_SIZE], false);
    let before = b.fingerprint();
    b.flash[77] = 0;
    assert_ne!(b.fingerprint(), before);
    assert_eq!(b.fingerprint(), fnv1a_32(&b.flash, 0x811C_9DC5));
}

#[test]
fn nothing_happens_before_the_card_is_up() {
    let mut b = SdBackend::new(vec![0u8; FLASH_SIZE], false);
    b.mark_dirty(0, 1);
    assert!(b.maybe_save() == SaveStep::Done);
    assert_eq!(b.dirty, vec![1, 0, 0, 0]);
    assert!(!b.init(false));
    assert!(
        b.try_load(LoadStep::OpenVolume, LoadEvent::Done)
            == LoadStep::Ended(LoadEnd::NotInitialised)
    );
    assert!(!b.init(true));
    assert!(b.init(true));
}

#[test]
fn changed_blocks() {
    let mut b = store();
    b.mark_dirty(BLOCK_SIZE - 1, 2);
    assert_eq!(b.dirty, vec![0b11, 0, 0, 0]);
    b.mark_dirty(33 * BLOCK_SIZE, 0);
    assert_eq!(b.dirty, vec![0b11, 0, 0, 0]);
    b.mark_dirty(33 * BLOCK_SIZE, BLOCK_SIZE);
    assert_eq!(b.dirty, vec![0b11, 0b10, 0, 0]);
    b.mark_dirty(FLASH_SIZE - 1, 1000);
    assert_eq!(b.dirty[3], 0x8000_0000);
    b.mark_dirty(FLASH_SIZE, 1000);
    assert_eq!(b.dirty, vec![0b11, 0b10, 0, 0x8000_0000]);
}

#[test]
fn first_save_writes_the_whole_file() {
    let mut b = store();
    b.mark_dirty(5, 1);
    let mut at = b.maybe_save();
    assert!(at == SaveStep::OpenVolume);
    assert_eq!(b.dirty, vec![0, 0, 0, 0]);
    at = b.save_step(at, true);
    assert!(at == SaveStep::OpenRoot);
    at = b.save_step(at, true);
    assert!(at == SaveStep::Create);
    at = b.save_step(at, true);
    let mut off = 0;
    while let SaveStep::WriteChunk(from, end) = at {
        assert_eq!(from, off);
        assert_eq!(end, off + 65536);
        off = end;
        at = b.save_step(at, true);
    }
    assert_eq!(off, FLASH_SIZE);
    assert!(at == SaveStep::FlushFull);
    assert!(!b.file_valid);
    at = b.save_step(at, true);
    assert!(at == SaveStep::Resolve);
    assert!(b.file_valid);
    assert!(b.save_step(at, true) == SaveStep::Done);
    assert!(b.maybe_save() == SaveStep::Done);
}

#[test]
fn incremental_save_writes_changed_blocks() {
    let mut b = store();
    b.file_valid = true;
    b.mark_dirty(2 * BLOCK_SIZE, 1);
    b.mark_dirty(40 * BLOCK_SIZE, 1);
    let mut at = b.maybe_save();
    at = b.save_step(at, true);
    at = b.save_step(at, true);
    assert!(at == SaveStep::OpenExisting);
    at = b.save_step(at, true);
    assert!(at == SaveStep::Seek(2));
    at = b.save_step(at, true);
    assert!(at == SaveStep::WriteBlock(2));
    at = b.save_step(at, true);
    assert!(at == SaveStep::Seek(40));
    at = b.save_step(at, true);
    at = b.save_step(at, true);
    assert!(at == SaveStep::Flush);
    assert!(b.save_step(at, true) == SaveStep::Done);
    assert_eq!(b.dirty, vec![0, 0, 0, 0]);
}

#[test]
fn failed_saves_mark_their_blocks_again() {
    let failing = [
        SaveStep::OpenVolume,
        SaveStep::OpenRoot,
        SaveStep::Create,
        SaveStep::WriteChunk(0, 65536),
        SaveStep::FlushFull,
        SaveStep::OpenExisting,
        SaveStep::Seek(3),
        SaveStep::WriteBlock(3),
    ];
    for at in failing {
        let mut b = store();
        b.mark_dirty(3 * BLOCK_SIZE, 1);
        b.maybe_save();
        b.mark_dirty(4 * BLOCK_SIZE, 1);
        assert!(b.save_step(at, false) == SaveStep::Done);
        assert_eq!(b.dirty[0], 0b11000);
    }
}

#[test]
fn lost_file_is_written_anew() {
    let mut b = store();
    b.file_valid = true;
    b.mark_dirty(0, 1);
    let at = b.maybe_save();
    let at = b.save_step(at, true);
    let at = b.save_step(at, true);
    assert!(b.save_step(at, false) == SaveStep::Done);
    assert!(!b.file_valid);
    let at = b.maybe_save();
    let at = b.save_step(at, true);
    assert!(b.save_step(at, true) == SaveStep::Create);
}

#[test]
fn cluster_map_is_checked() {
    let mut b = store();
    b.file_valid = true;
    let lbas = vec![7u32; MAX_FLASH_CLUSTERS];
    assert!(b.resolve_extent_map(Lookup::Unusable, None) == MapOutcome::Unusable);
    assert!(b.resolve_extent_map(Lookup::Failed, None) == MapOutcome::Failed);
    assert!(
        b.resolve_extent_map(Lookup::Found(256, 64, lbas.clone()), None) == MapOutcome::ReadFailed
    );
    let mut sector = [0xFFu8; 512];
    sector[511] = 0;
    assert!(
        b.resolve_extent_map(Lookup::Found(256, 64, lbas.clone()), Some(&sector))
            == MapOutcome::Mismatch
    );
    assert_eq!(b.num_clusters, 0);
    sector[511] = 0xFF;
    assert!(
        b.resolve_extent_map(Lookup::Found(256, 64, lbas), Some(&sector)) == MapOutcome::Verified
    );
    assert_eq!(b.num_clusters, 256);
}

#[test]
fn background_save_runs_through_the_clusters() {
    let mut b = mapped();
    b.mark_dirty(BLOCK_SIZE, 1);
    let first = b.maybe_save();
    assert!(first == SaveStep::Dma(DmaStep::Start(write_of(2))));
    assert!(!b.dma_started(2, true));
    // A second save waits for the first.
    b.mark_dirty(0, 1);
    assert!(b.maybe_save() == SaveStep::Done);
    assert_eq!(b.dirty[0], 1);
    assert!(b.on_dma_completion(true) == DmaStep::Start(write_of(3)));
    assert!(!b.dma_started(3, true));
    assert!(b.on_dma_completion(true) == DmaStep::Complete);
    assert!(b.on_dma_completion(true) == DmaStep::Stray);
    assert!(b.maybe_save() == SaveStep::Dma(DmaStep::Start(write_of(0))));
}

#[test]
fn aborted_background_save_marks_its_blocks_again() {
    let mut b = mapped();
    b.mark_dirty(BLOCK_SIZE, 1);
    b.maybe_save();
    b.dma_started(2, true);
    b.mark_dirty(0, 1);
    assert!(b.on_dma_completion(false) == DmaStep::Abort);
    assert_eq!(b.dirty[0], 0b11);
    assert_eq!(b.num_clusters, 0);
    assert!(b.maybe_save() == SaveStep::OpenVolume);

    let mut b = mapped();
    b.mark_dirty(5 * BLOCK_SIZE, 1);
    b.maybe_save();
    assert!(b.dma_started(10, false));
    assert_eq!(b.dirty[0], 1 << 5);
}

#[test]
fn whole_flash_is_loaded() {
    let mut b = store();
    let mut at = b.try_load(LoadStep::OpenVolume, LoadEvent::Done);
    assert!(at == LoadStep::OpenRoot);
    at = b.try_load(at, LoadEvent::Done);
    assert!(at == LoadStep::OpenFile);
    at = b.try_load(at, LoadEvent::Done);
    assert!(at == LoadStep::Length);
    at = b.try_load(at, LoadEvent::Len(FLASH_SIZE as u32));
    let file: Vec<u8> = (0..FLASH_SIZE).map(|i| (i % 251) as u8).collect();
    // The first read comes up short and is gone on with.
    assert!(at == LoadStep::Read(0, 65536));
    at = b.try_load(at, LoadEvent::Data(file[..100].to_vec()));
    assert!(at == LoadStep::Read(100, 65636));
    assert_eq!(&b.flash[..100], &file[..100]);
    assert_eq!(b.flash[100], 0xFF);
    while let LoadStep::Read(off, end) = at {
        assert!(!b.file_valid);
        at = b.try_load(at, LoadEvent::Data(file[off..end].to_vec()));
    }
    assert!(at == LoadStep::Resolve);
    assert!(b.file_valid);
    assert_eq!(b.flash, file);
}

#[test]
fn load_failures() {
    let mut b = store();
    let cases = [
        (LoadStep::OpenVolume, LoadEvent::Failed, LoadEnd::VolumeFailed),
        (LoadStep::OpenRoot, LoadEvent::Failed, LoadEnd::RootFailed),
        (LoadStep::OpenFile, LoadEvent::Failed, LoadEnd::NoFile),
        (LoadStep::Length, LoadEvent::Len(512), LoadEnd::WrongLength(512)),
        (LoadStep::Read(0, 65536), LoadEvent::Failed, LoadEnd::ReadFailed(0)),
        (LoadStep::Read(65536, 131072), LoadEvent::Data(vec![]), LoadEnd::ShortRead(65536)),
    ];
    for (at, e, end) in cases {
        assert!(b.try_load(at, e) == LoadStep::Ended(end));
        assert!(!b.file_valid);
    }
}

#[test]
fn progress_and_time() {
    assert_eq!(progress_dots(0, 0x4_0000), 1);
    assert_eq!(progress_dots(0x3_FFFF, 0x4_0000), 1);
    assert_eq!(progress_dots(0x4_0000, 0x7_FFFF), 0);
    assert_eq!(progress_dots(0, FLASH_SIZE), 32);
    assert_eq!(elapsed_ms(1000, 20_200_000, 19_200_000), 1052);
    assert_eq!(elapsed_ms(5, 2, 0), u64::MAX);
    assert_eq!(elapsed_ms(0, 3, 0), 3000);
}

#[test]
fn transfers_are_finer_with_hdmi_sound() {
    for (hdmi, chunk) in [(false, 0x1_0000), (true, 0x4000)] {
        let mut b = SdBackend::new(vec![0u8; FLASH_SIZE], hdmi);
        assert!(b.save_step(SaveStep::Create, true) == SaveStep::WriteChunk(0, chunk));
        assert!(
            b.save_step(SaveStep::WriteChunk(0, chunk), true)
                == SaveStep::WriteChunk(chunk, 2 * chunk)
        );
        let at = b.try_load(LoadStep::Length, LoadEvent::Len(FLASH_SIZE as u32));
        assert!(at == LoadStep::Read(0, chunk));
    }
}

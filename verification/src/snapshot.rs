//! Snapshots: immutable, self-contained copies of the page store at an LSN
//! boundary, and the small state machine that drives their creation.

use vstd::prelude::*;
use crate::page::{PAGE_SIZE, parse_page, decode_page};
use crate::store::{PageStore, images_of, copy_images, all_page_sized};
use crate::encoding::{from_le32, get_u32};

verus! {

/// One line of a snapshot's manifest: a page and the checksum it carries.
#[derive(Debug, PartialEq, Eq, Structural, Clone, Copy)]
pub struct ManifestEntry {
    pub page_id: u64,
    pub checksum: u32,
}

/// A point-in-time copy of a page store.
#[derive(Debug, Clone, PartialEq, Eq)]
pub struct Snapshot {
    /// The LSN boundary of the checkpoint that the snapshot was taken at.
    pub lsn: u64,
    /// When the snapshot was taken, as the caller's clock gave it.
    pub created_at: u64,
    /// For every page, in page order, its id and checksum.
    pub manifest: Vec<ManifestEntry>,
    /// The page images, in page order.
    pub pages: Vec<Vec<u8>>,
}

/// The mathematical value of a snapshot.
pub ghost struct SnapshotView {
    pub lsn: u64,
    pub created_at: u64,
    pub manifest: Seq<ManifestEntry>,
    pub pages: Seq<Seq<u8>>,
}

impl View for Snapshot {
    type V = SnapshotView;

    open spec fn view(&self) -> SnapshotView {
        SnapshotView {
            lsn: self.lsn,
            created_at: self.created_at,
            manifest: self.manifest@,
            pages: images_of(self.pages@),
        }
    }
}

/// Why a snapshot operation was refused.
#[derive(Debug, PartialEq, Eq, Structural, Clone, Copy)]
pub enum SnapshotError {
    /// A page fails its checksum, was written after the snapshot's LSN, or
    /// disagrees with the manifest.
    Validation,
}

/// The checksum that a page image carries in its header.
pub open spec fn stored_checksum(image: Seq<u8>) -> u32 {
    from_le32(image.subrange(0, 4))
}

/// The image is a valid page whose last writer is not past `lsn`.
pub open spec fn page_valid_at(image: Seq<u8>, lsn: u64) -> bool {
    match parse_page(image) {
        Ok(p) => p.lsn <= lsn,
        Err(_) => false,
    }
}

/// Every page is valid and none was written after `lsn`.
pub open spec fn snapshotable(pages: Seq<Seq<u8>>, lsn: u64) -> bool {
    forall|i: int| 0 <= i < pages.len() ==> page_valid_at(#[trigger] pages[i], lsn)
}

/// The manifest line that belongs to page `i` with this image.
pub open spec fn entry_for(i: int, image: Seq<u8>) -> ManifestEntry {
    ManifestEntry { page_id: i as u64, checksum: stored_checksum(image) }
}

/// The snapshot of `pages` at `lsn`.
pub open spec fn snapshot_of(pages: Seq<Seq<u8>>, lsn: u64, created_at: u64) -> SnapshotView {
    SnapshotView {
        lsn,
        created_at,
        manifest: Seq::new(pages.len(), |i: int| entry_for(i, pages[i])),
        pages,
    }
}

/// A snapshot is valid when its manifest lists every page in order with
/// the checksum the page carries, every page passes validation, and no
/// page was written after the snapshot's LSN.
pub open spec fn snapshot_valid(s: SnapshotView) -> bool {
    &&& s.manifest.len() == s.pages.len()
    &&& s.pages.len() <= u64::MAX
    &&& forall|i: int|
        0 <= i < s.pages.len() ==> page_valid_at(#[trigger] s.pages[i], s.lsn) && s.manifest[i]
            == entry_for(i, s.pages[i])
}

/// Snapshot fidelity: the snapshot of a consistent store is valid and
/// holds exactly the pages the store held when it was taken, so restoring
/// it brings back those pages whatever was written since.
pub proof fn lemma_snapshot_fidelity(pages: Seq<Seq<u8>>, lsn: u64, created_at: u64)
    requires
        snapshotable(pages, lsn),
        pages.len() <= u64::MAX,
    ensures
        snapshot_valid(snapshot_of(pages, lsn, created_at)),
        snapshot_of(pages, lsn, created_at).pages == pages,
        snapshot_of(pages, lsn, created_at).lsn == lsn,
{
}

/// The pages of a valid snapshot form a well-formed store.
pub proof fn lemma_valid_snapshot_pages(s: SnapshotView)
    requires
        snapshot_valid(s),
    ensures
        all_page_sized(s.pages),
        snapshotable(s.pages, s.lsn),
{
    assert forall|i: int| 0 <= i < s.pages.len() implies (#[trigger] s.pages[i]).len()
        == PAGE_SIZE by {
        assert(page_valid_at(s.pages[i], s.lsn));
    }
}

/// Checks one page image against the snapshot LSN.
pub fn check_page(image: &[u8], lsn: u64) -> (ok: bool)
    ensures
        ok == page_valid_at(image@, lsn),
{
    match decode_page(image) {
        Ok(p) => p.lsn <= lsn,
        Err(_) => false,
    }
}

/// Takes a snapshot of `store` at the checkpoint boundary `lsn`.
///
/// Succeeds exactly when every page passes validation and none was written
/// after `lsn`; the snapshot then owns a copy of every page.
pub fn create_snapshot(store: &PageStore, lsn: u64, created_at: u64) -> (res: Result<
    Snapshot,
    SnapshotError,
>)
    requires
        store.wf(),
    ensures
        match res {
            Ok(s) => snapshotable(store@, lsn) && s@ == snapshot_of(store@, lsn, created_at),
            Err(e) => !snapshotable(store@, lsn) && e == SnapshotError::Validation,
        },
{
    let count: usize = store.slots.len();
    let mut manifest: Vec<ManifestEntry> = Vec::new();
    let mut i: usize = 0;
    while i < count
        invariant
            i <= count,
            count == store@.len(),
            store.wf(),
            manifest@.len() == i,
            forall|j: int| 0 <= j < i ==> page_valid_at(#[trigger] store@[j], lsn),
            forall|j: int| 0 <= j < i ==> #[trigger] manifest@[j] == entry_for(j, store@[j]),
        decreases count - i,
    {
        let image: &Vec<u8> = store.raw_page(i as u64);
        if !check_page(image.as_slice(), lsn) {
            return Err(SnapshotError::Validation);
        }
        let sum: u32 = get_u32(image.as_slice(), 0);
        manifest.push(ManifestEntry { page_id: i as u64, checksum: sum });
        i = i + 1;
    }
    let pages: Vec<Vec<u8>> = copy_images(&store.slots);
    let snap = Snapshot { lsn, created_at, manifest, pages };
    assert(snap@.manifest =~= snapshot_of(store@, lsn, created_at).manifest);
    Ok(snap)
}

/// Checks a snapshot: every page against its checksum and the snapshot
/// LSN, and the manifest against the pages.
pub fn validate_snapshot(snap: &Snapshot) -> (ok: bool)
    ensures
        ok == snapshot_valid(snap@),
{
    let count: usize = snap.pages.len();
    if snap.manifest.len() != count {
        return false;
    }
    let mut i: usize = 0;
    while i < count
        invariant
            i <= count,
            count == snap@.pages.len(),
            count == snap@.manifest.len(),
            forall|j: int|
                0 <= j < i ==> page_valid_at(#[trigger] snap@.pages[j], snap@.lsn)
                    && snap@.manifest[j] == entry_for(j, snap@.pages[j]),
        decreases count - i,
    {
        let image: &Vec<u8> = &snap.pages[i];
        assert(image@ == snap@.pages[i as int]);
        if !check_page(image.as_slice(), snap.lsn) {
            return false;
        }
        let sum: u32 = get_u32(image.as_slice(), 0);
        let entry: ManifestEntry = snap.manifest[i];
        if entry.page_id != i as u64 || entry.checksum != sum {
            return false;
        }
        i = i + 1;
    }
    true
}

/// Makes the pages of `snap` the pages of `store`, all or nothing: the
/// snapshot is validated first, and a snapshot that fails validation leaves
/// the store as it was.
pub fn restore_snapshot(store: &mut PageStore, snap: &Snapshot) -> (res: Result<(), SnapshotError>)
    requires
        old(store).wf(),
    ensures
        final(store).wf(),
        match res {
            Ok(_) => snapshot_valid(snap@) && final(store)@ == snap@.pages,
            Err(e) => !snapshot_valid(snap@) && e == SnapshotError::Validation && final(store)@
                == old(store)@,
        },
{
    if !validate_snapshot(snap) {
        return Err(SnapshotError::Validation);
    }
    proof {
        lemma_valid_snapshot_pages(snap@);
    }
    store.slots = copy_images(&snap.pages);
    Ok(())
}

/// Where snapshot creation stands.
#[derive(Debug, PartialEq, Eq, Structural, Clone, Copy)]
pub enum SnapshotState {
    /// No snapshot is in progress.
    Idle,
    /// A durability barrier has been requested and is awaited.
    Checkpointing,
    /// The pages as of `lsn` are being copied.
    Materializing { lsn: u64 },
}

/// What happened outside the state machine.
#[derive(Debug, PartialEq, Eq, Structural, Clone, Copy)]
pub enum SnapshotEvent {
    /// A snapshot was asked for.
    Requested,
    /// Page store flush and log sync both succeeded; `lsn` is the boundary.
    BarrierReached { lsn: u64 },
    /// The flush or the sync failed.
    BarrierFailed,
    /// The snapshot was written.
    Materialized,
    /// Writing the snapshot failed.
    MaterializeFailed,
}

/// What the caller has to do next.
#[derive(Debug, PartialEq, Eq, Structural, Clone, Copy)]
pub enum SnapshotAction {
    /// Nothing: the event does not apply in this state.
    Nothing,
    /// Flush the page store and sync the log.
    RequestBarrier,
    /// Copy the pages as of `lsn` and write the manifest.
    Materialize { lsn: u64 },
    /// The snapshot is complete: hand it out.
    Publish,
    /// Report the failure: no snapshot was made.
    ReportFailure,
}

/// The transition table of snapshot creation.
pub open spec fn next_step(state: SnapshotState, event: SnapshotEvent) -> (
    SnapshotState,
    SnapshotAction,
) {
    match (state, event) {
        (SnapshotState::Idle, SnapshotEvent::Requested) => (
            SnapshotState::Checkpointing,
            SnapshotAction::RequestBarrier,
        ),
        (SnapshotState::Checkpointing, SnapshotEvent::BarrierReached { lsn }) => (
            SnapshotState::Materializing { lsn },
            SnapshotAction::Materialize { lsn },
        ),
        (SnapshotState::Checkpointing, SnapshotEvent::BarrierFailed) => (
            SnapshotState::Idle,
            SnapshotAction::ReportFailure,
        ),
        (SnapshotState::Materializing { lsn }, SnapshotEvent::Materialized) => (
            SnapshotState::Idle,
            SnapshotAction::Publish,
        ),
        (SnapshotState::Materializing { lsn }, SnapshotEvent::MaterializeFailed) => (
            SnapshotState::Idle,
            SnapshotAction::ReportFailure,
        ),
        _ => (state, SnapshotAction::Nothing),
    }
}

/// Advances snapshot creation by one event and says what to do next.
pub fn step(state: SnapshotState, event: SnapshotEvent) -> (res: (SnapshotState, SnapshotAction))
    ensures
        res == next_step(state, event),
{
    match state {
        SnapshotState::Idle => match event {
            SnapshotEvent::Requested => (
                SnapshotState::Checkpointing,
                SnapshotAction::RequestBarrier,
            ),
            _ => (state, SnapshotAction::Nothing),
        },
        SnapshotState::Checkpointing => match event {
            SnapshotEvent::BarrierReached { lsn } => (
                SnapshotState::Materializing { lsn },
                SnapshotAction::Materialize { lsn },
            ),
            SnapshotEvent::BarrierFailed => (SnapshotState::Idle, SnapshotAction::ReportFailure),
            _ => (state, SnapshotAction::Nothing),
        },
        SnapshotState::Materializing { lsn: _ } => match event {
            SnapshotEvent::Materialized => (SnapshotState::Idle, SnapshotAction::Publish),
            SnapshotEvent::MaterializeFailed => (
                SnapshotState::Idle,
                SnapshotAction::ReportFailure,
            ),
            _ => (state, SnapshotAction::Nothing),
        },
    }
}

/// The states are passed in order: pages are only copied after a barrier
/// was reached, at that barrier's LSN, and a snapshot is only published
/// out of the copying state.
pub proof fn lemma_snapshot_order(state: SnapshotState, event: SnapshotEvent)
    ensures
        next_step(state, event).1 matches SnapshotAction::Materialize { lsn } ==> state
            == SnapshotState::Checkpointing && event == (SnapshotEvent::BarrierReached { lsn })
            && next_step(state, event).0 == (SnapshotState::Materializing { lsn }),
        next_step(state, event).1 == SnapshotAction::Publish ==> state is Materializing
            && next_step(state, event).0 == SnapshotState::Idle,
        next_step(state, event).1 == SnapshotAction::Nothing ==> next_step(state, event).0
            == state,
{
}

} // verus!

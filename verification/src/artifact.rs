//! The snapshot artifact: a snapshot as one sequence of bytes.
//!
//! The artifact is: the snapshot LSN (8 bytes), the creation time (8), the
//! number of pages (8), the manifest with 12 bytes per page (page id and
//! checksum), then the page images. Reading an artifact only takes it
//! apart; whether the snapshot is valid is decided when it is restored.

use vstd::prelude::*;
use crate::encoding::{le32, le64, from_le32, from_le64, lemma_le32_inverse, lemma_le64_inverse,
    put_u32, put_u64, get_u32, get_u64, get_bytes};
use crate::page::PAGE_SIZE;
use crate::store::{images_of, all_page_sized, file_image, append_images, lemma_file_image_layout};
use crate::snapshot::{Snapshot, SnapshotView, SnapshotError, ManifestEntry};

verus! {

/// Bytes of an artifact before its manifest.
pub const ARTIFACT_HEADER_SIZE: usize = 24;

/// Bytes of one manifest line.
pub const MANIFEST_ENTRY_SIZE: usize = 12;

/// Bytes that an artifact holds for each page: manifest line and image.
pub const ARTIFACT_PAGE_COST: usize = 4108;

/// The bytes of one manifest line.
pub open spec fn entry_image(e: ManifestEntry) -> Seq<u8> {
    le64(e.page_id) + le32(e.checksum)
}

/// The bytes of a manifest.
pub open spec fn manifest_image(m: Seq<ManifestEntry>) -> Seq<u8>
    decreases m.len(),
{
    if m.len() == 0 {
        Seq::empty()
    } else {
        manifest_image(m.drop_last()) + entry_image(m.last())
    }
}

/// A snapshot can be written out when it has one manifest line per page
/// and every page image has the size of a page.
pub open spec fn well_shaped(s: SnapshotView) -> bool {
    s.manifest.len() == s.pages.len() && all_page_sized(s.pages) && s.pages.len() <= u64::MAX
}

/// The artifact of a snapshot.
pub open spec fn artifact_image(s: SnapshotView) -> Seq<u8> {
    le64(s.lsn) + le64(s.created_at) + le64(s.pages.len() as u64) + manifest_image(s.manifest)
        + file_image(s.pages)
}

/// The manifest line that starts at offset `at`.
pub open spec fn entry_at(bytes: Seq<u8>, at: int) -> ManifestEntry {
    ManifestEntry {
        page_id: from_le64(bytes.subrange(at, at + 8)),
        checksum: from_le32(bytes.subrange(at + 8, at + 12)),
    }
}

/// The page image with index `i` in an artifact of `n` pages.
pub open spec fn page_at(bytes: Seq<u8>, n: int, i: int) -> Seq<u8> {
    bytes.subrange(
        ARTIFACT_HEADER_SIZE + MANIFEST_ENTRY_SIZE * n + PAGE_SIZE * i,
        ARTIFACT_HEADER_SIZE + MANIFEST_ENTRY_SIZE * n + PAGE_SIZE * (i + 1),
    )
}

/// Takes an artifact apart: `None` unless its length is exactly what its
/// page count announces.
pub open spec fn parse_artifact(bytes: Seq<u8>) -> Option<SnapshotView> {
    if bytes.len() < ARTIFACT_HEADER_SIZE {
        None
    } else {
        let n = from_le64(bytes.subrange(16, 24)) as int;
        if bytes.len() != ARTIFACT_HEADER_SIZE + n * ARTIFACT_PAGE_COST {
            None
        } else {
            Some(
                SnapshotView {
                    lsn: from_le64(bytes.subrange(0, 8)),
                    created_at: from_le64(bytes.subrange(8, 16)),
                    manifest: Seq::new(
                        n as nat,
                        |i: int| entry_at(bytes, ARTIFACT_HEADER_SIZE + MANIFEST_ENTRY_SIZE * i),
                    ),
                    pages: Seq::new(n as nat, |i: int| page_at(bytes, n, i)),
                },
            )
        }
    }
}

/// In the bytes of a manifest every line lies at its own offset.
pub proof fn lemma_manifest_image_layout(m: Seq<ManifestEntry>)
    ensures
        manifest_image(m).len() == MANIFEST_ENTRY_SIZE * m.len(),
        forall|i: int|
            0 <= i < m.len() ==> #[trigger] m[i] == entry_at(
                manifest_image(m),
                MANIFEST_ENTRY_SIZE * i,
            ),
    decreases m.len(),
{
    if m.len() > 0 {
        let front = m.drop_last();
        let e = m.last();
        lemma_manifest_image_layout(front);
        lemma_le64_inverse(e.page_id, Seq::empty());
        lemma_le32_inverse(e.checksum, Seq::empty());
        let whole = manifest_image(m);
        let head = manifest_image(front);
        assert forall|i: int| 0 <= i < m.len() implies #[trigger] m[i] == entry_at(
            whole,
            MANIFEST_ENTRY_SIZE * i,
        ) by {
            let at = MANIFEST_ENTRY_SIZE * i;
            if i < front.len() {
                assert(front[i] == m[i]);
                assert(whole.subrange(at, at + 8) =~= head.subrange(at, at + 8));
                assert(whole.subrange(at + 8, at + 12) =~= head.subrange(at + 8, at + 12));
            } else {
                assert(whole.subrange(at, at + 8) =~= le64(e.page_id));
                assert(whole.subrange(at + 8, at + 12) =~= le32(e.checksum));
            }
        }
    }
}

/// An artifact, taken apart, yields the snapshot it was written from.
pub proof fn lemma_artifact_round_trip(s: SnapshotView)
    requires
        well_shaped(s),
    ensures
        parse_artifact(artifact_image(s)) == Some(s),
{
    let n = s.pages.len() as int;
    let bytes = artifact_image(s);
    let m_img = manifest_image(s.manifest);
    let f_img = file_image(s.pages);
    lemma_le64_inverse(s.lsn, Seq::empty());
    lemma_le64_inverse(s.created_at, Seq::empty());
    lemma_le64_inverse(n as u64, Seq::empty());
    lemma_manifest_image_layout(s.manifest);
    lemma_file_image_layout(s.pages);
    assert(bytes.subrange(0, 8) =~= le64(s.lsn));
    assert(bytes.subrange(8, 16) =~= le64(s.created_at));
    assert(bytes.subrange(16, 24) =~= le64(n as u64));
    let back = parse_artifact(bytes).unwrap();
    assert forall|i: int| 0 <= i < n implies back.manifest[i] == s.manifest[i] by {
        let at = MANIFEST_ENTRY_SIZE * i;
        assert(bytes.subrange(24 + at, 24 + at + 8) =~= m_img.subrange(at, at + 8));
        assert(bytes.subrange(24 + at + 8, 24 + at + 12) =~= m_img.subrange(at + 8, at + 12));
    }
    assert forall|i: int| 0 <= i < n implies back.pages[i] == s.pages[i] by {
        assert(page_at(bytes, n, i) =~= f_img.subrange(i * PAGE_SIZE, (i + 1) * PAGE_SIZE));
    }
    assert(back.manifest =~= s.manifest);
    assert(back.pages =~= s.pages);
}

/// Whether a snapshot has one manifest line per page and only page-sized
/// images.
pub fn is_well_shaped(snap: &Snapshot) -> (ok: bool)
    ensures
        ok == well_shaped(snap@),
{
    let n: usize = snap.pages.len();
    if snap.manifest.len() != n {
        return false;
    }
    let mut i: usize = 0;
    while i < n
        invariant
            i <= n,
            n == snap@.pages.len(),
            forall|k: int| 0 <= k < i ==> (#[trigger] snap@.pages[k]).len() == PAGE_SIZE,
        decreases n - i,
    {
        assert(snap@.pages[i as int] == snap.pages@[i as int]@);
        if snap.pages[i].len() != PAGE_SIZE {
            return false;
        }
        i = i + 1;
    }
    true
}

/// Writes a snapshot out as an artifact.
pub fn encode_snapshot(snap: &Snapshot) -> (out: Vec<u8>)
    requires
        well_shaped(snap@),
    ensures
        out@ == artifact_image(snap@),
{
    let n: usize = snap.manifest.len();
    let mut out: Vec<u8> = Vec::new();
    put_u64(&mut out, snap.lsn);
    put_u64(&mut out, snap.created_at);
    put_u64(&mut out, n as u64);
    let ghost head = out@;
    let ghost m = snap.manifest@;
    let mut i: usize = 0;
    assert(m.take(0) =~= Seq::<ManifestEntry>::empty());
    assert(out@ =~= head + manifest_image(m.take(0)));
    while i < n
        invariant
            i <= n,
            n == snap.manifest@.len(),
            m == snap.manifest@,
            out@ == head + manifest_image(m.take(i as int)),
        decreases n - i,
    {
        proof {
            assert(m.take(i + 1).drop_last() =~= m.take(i as int));
            assert(m.take(i + 1).last() == m[i as int]);
        }
        let entry: ManifestEntry = snap.manifest[i];
        put_u64(&mut out, entry.page_id);
        put_u32(&mut out, entry.checksum);
        i = i + 1;
        assert(out@ =~= head + manifest_image(m.take(i as int)));
    }
    assert(m.take(i as int) =~= m);
    append_images(&mut out, &snap.pages);
    assert(out@ =~= artifact_image(snap@));
    out
}

/// Takes an artifact apart. An artifact whose length is not what its page
/// count announces is refused.
pub fn decode_snapshot(bytes: &[u8]) -> (res: Result<Snapshot, SnapshotError>)
    ensures
        match res {
            Ok(snap) => parse_artifact(bytes@) == Some(snap@) && well_shaped(snap@),
            Err(e) => parse_artifact(bytes@) is None && e == SnapshotError::Validation,
        },
{
    let size: usize = bytes.len();
    if size < ARTIFACT_HEADER_SIZE {
        return Err(SnapshotError::Validation);
    }
    let lsn: u64 = get_u64(bytes, 0);
    let created_at: u64 = get_u64(bytes, 8);
    let count: u64 = get_u64(bytes, 16);
    let avail: usize = size - ARTIFACT_HEADER_SIZE;
    if count > (avail / ARTIFACT_PAGE_COST) as u64 {
        return Err(SnapshotError::Validation);
    }
    let n: usize = count as usize;
    if n * ARTIFACT_PAGE_COST != avail {
        return Err(SnapshotError::Validation);
    }
    let ghost want = parse_artifact(bytes@).unwrap();
    let mut manifest: Vec<ManifestEntry> = Vec::new();
    let mut i: usize = 0;
    while i < n
        invariant
            i <= n,
            size == bytes@.len(),
            size == ARTIFACT_HEADER_SIZE + n * ARTIFACT_PAGE_COST,
            want.manifest.len() == n,
            forall|k: int| 0 <= k < n ==> #[trigger] want.manifest[k] == entry_at(
                bytes@,
                ARTIFACT_HEADER_SIZE + MANIFEST_ENTRY_SIZE * k,
            ),
            manifest@ == want.manifest.take(i as int),
        decreases n - i,
    {
        let at: usize = ARTIFACT_HEADER_SIZE + MANIFEST_ENTRY_SIZE * i;
        let entry = ManifestEntry { page_id: get_u64(bytes, at), checksum: get_u32(bytes, at + 8) };
        assert(entry == want.manifest[i as int]);
        manifest.push(entry);
        i = i + 1;
        assert(manifest@ =~= want.manifest.take(i as int));
    }
    assert(want.manifest.take(n as int) =~= want.manifest);
    let base: usize = ARTIFACT_HEADER_SIZE + MANIFEST_ENTRY_SIZE * n;
    let mut pages: Vec<Vec<u8>> = Vec::new();
    let mut j: usize = 0;
    assert(images_of(pages@) =~= want.pages.take(0));
    while j < n
        invariant
            j <= n,
            size == bytes@.len(),
            size == ARTIFACT_HEADER_SIZE + n * ARTIFACT_PAGE_COST,
            base == ARTIFACT_HEADER_SIZE + MANIFEST_ENTRY_SIZE * n,
            want.pages.len() == n,
            forall|k: int| 0 <= k < n ==> #[trigger] want.pages[k] == page_at(bytes@, n as int, k),
            images_of(pages@) == want.pages.take(j as int),
        decreases n - j,
    {
        let image: Vec<u8> = get_bytes(bytes, base + PAGE_SIZE * j, PAGE_SIZE);
        proof {
            assert(image@ == want.pages[j as int]);
            assert(images_of(pages@.push(image)) =~= images_of(pages@).push(image@));
            assert(want.pages.take(j as int).push(want.pages[j as int]) =~= want.pages.take(
                j + 1,
            ));
        }
        pages.push(image);
        j = j + 1;
    }
    assert(want.pages.take(n as int) =~= want.pages);
    Ok(Snapshot { lsn, created_at, manifest, pages })
}

} // verus!

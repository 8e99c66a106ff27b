use vox_node::anchor::copy::{AnchorState, StoredAnchor};
use vox_node::anchor::pass::room_outcome;
use vox_node::anchor::{
    anchor_sek, meta_authors, meta_bytes, meta_genesis, parse_meta, ANCHOR_SEK_INFO,
};
use vox_node::api::Secret;
use vox_node::channel::segments::read_authors;
use vox_node::channel::state::{Genesis, LogEntry, SegmentKind, SegmentWrite, StoredEntry};
use vox_node::channel::sync::{sync_failure, SyncOutcome, WireError};
use vox_node::error::Error;
use vox_node::hash::COMPOSITE_PUB_LEN;
use vox_node::identity::CompositePublicKey;
use vox_node::table::Table;

const ROOM: [u8; 32] = [0xC5; 32];

fn key(n: u8) -> CompositePublicKey {
    CompositePublicKey { bytes: vec![n; COMPOSITE_PUB_LEN], fingerprint: [n; 32] }
}

fn genesis() -> Genesis {
    Genesis { wire: vec![9, 9, 9], channel_id: ROOM, creator: key(1), service_grant: vec![] }
}

fn entry(author: u8, seq: u64, hash: u8) -> LogEntry {
    LogEntry {
        channel_id: ROOM,
        epoch: 0,
        author_id: [author; 32],
        seq,
        entry_hash: [hash; 32],
        payload: None,
        wire: vec![hash, seq as u8],
    }
}

fn copy() -> AnchorState {
    AnchorState::create(genesis(), Ok(()), Ok(false)).unwrap().0
}

#[test]
fn the_sealing_key_is_derived_from_the_factor() {
    assert_eq!(&ANCHOR_SEK_INFO, b"vox/anchor-log-sek/v1");
    let sek = anchor_sek(Ok(Secret::new(vec![7; 32]))).unwrap();
    assert_eq!(
        sek.as_slice(),
        &[
            157, 162, 244, 110, 205, 10, 157, 119, 59, 178, 167, 79, 22, 193, 36, 190, 203, 128,
            247, 248, 206, 166, 43, 119, 101, 49, 97, 214, 12, 169, 7, 107
        ]
    );
    let again = anchor_sek(Ok(Secret::new(vec![7; 32]))).unwrap();
    assert_eq!(again.as_slice(), sek.as_slice());
    let other = anchor_sek(Ok(Secret::new(vec![8; 32]))).unwrap();
    assert_ne!(other.as_slice(), sek.as_slice());
    assert_eq!(anchor_sek(Err(Error::AtRestLocked)).unwrap_err(), Error::AtRestLocked);
}

#[test]
fn what_stands_beside_the_log_is_read_back() {
    let mut authors = Table::new();
    authors.insert([1; 32], key(1));
    authors.insert([2; 32], key(2));
    let b = meta_bytes(&genesis(), &authors);
    assert_eq!(meta_genesis(&b).unwrap(), vec![9, 9, 9]);
    let read = read_authors(&meta_authors(&b).unwrap());
    assert_eq!(read.rows.len(), 2);
    let (g, t) = parse_meta(&b, Ok(genesis()), read, vec![Ok(key(1)), Ok(key(2))]).unwrap();
    assert_eq!(g, genesis());
    assert_eq!(t.len(), 2);
    assert_eq!(t.get(&[2; 32]), Some(&key(2)));
}

#[test]
fn a_foreign_segment_is_not_taken_for_one() {
    assert_eq!(
        meta_genesis(&[0x82, 0x01, 0x40]),
        Err(Error::MalformedAtRest("anchor meta arity"))
    );
    assert_eq!(
        meta_genesis(&[0x83, 0x02, 0x40, 0x40]),
        Err(Error::MalformedAtRest("anchor meta version"))
    );
}

#[test]
fn a_copy_starts_with_the_creator() {
    let (st, w) = AnchorState::create(genesis(), Ok(()), Ok(false)).unwrap();
    assert_eq!(st.channel_id(), ROOM);
    assert_eq!(st.genesis(), &genesis());
    assert_eq!(st.epoch(), 0);
    assert_eq!(st.entries(), 0);
    assert_eq!(st.authors(), vec![[1; 32]]);
    assert!(st.is_author(&[1; 32]));
    assert!(!st.is_author(&[2; 32]));
    assert_eq!(w.kind, SegmentKind::AnchorMeta);
    assert_eq!(meta_genesis(&w.bytes).unwrap(), vec![9, 9, 9]);
    assert_eq!(
        AnchorState::create(genesis(), Ok(()), Ok(true)).unwrap_err(),
        Error::Profile("channel is already anchored")
    );
    assert_eq!(
        AnchorState::create(genesis(), Err(Error::Storage), Ok(false)).unwrap_err(),
        Error::Storage
    );
}

#[test]
fn a_copy_is_reopened_with_its_log() {
    let (_, w) = AnchorState::create(genesis(), Ok(()), Ok(false)).unwrap();
    let stored = |entries| StoredAnchor {
        meta: Ok(Some(w.bytes.clone())),
        genesis: Ok(genesis()),
        authors: read_authors(&meta_authors(&w.bytes).unwrap()),
        keys: vec![Ok(key(1))],
        verified: Ok(()),
        entries: Ok(entries),
    };
    let row = |id, e| StoredEntry { id, entry: Ok(e), framed: false, governance: Ok(()), accepted: true };
    let st = AnchorState::open(stored(vec![row(1, entry(1, 1, 11)), row(2, entry(1, 2, 12))]), ROOM)
        .unwrap();
    assert_eq!(st.entries(), 2);
    assert_eq!(st.next_log_id, 3);
    assert_eq!(
        AnchorState::open(stored(vec![]), [0; 32]).unwrap_err(),
        Error::MalformedAtRest("anchor meta genesis mismatch")
    );
    let mut bad = row(1, entry(1, 1, 11));
    bad.accepted = false;
    assert!(AnchorState::open(stored(vec![bad]), ROOM).is_err());
    let gone = StoredAnchor { meta: Ok(None), ..stored(vec![]) };
    assert_eq!(
        AnchorState::open(gone, ROOM).unwrap_err(),
        Error::Profile("channel is not anchored here")
    );
}

/// What a copy wrote, opened again.
fn reopened(meta: Option<Vec<u8>>, log: &[SegmentWrite]) -> Result<AnchorState, Error> {
    let authors = match &meta {
        Some(b) => read_authors(&meta_authors(b).unwrap()),
        None => read_authors(&[]),
    };
    let keys = authors.rows.iter().map(|r| Ok(key(r.0[0]))).collect();
    let entries = log
        .iter()
        .map(|w| StoredEntry {
            id: w.id,
            entry: Ok(entry(w.bytes[0] / 16, w.bytes[1] as u64, w.bytes[0])),
            framed: false,
            governance: Ok(()),
            accepted: true,
        })
        .collect();
    let stored = StoredAnchor {
        meta: Ok(meta),
        genesis: Ok(genesis()),
        authors,
        keys,
        verified: Ok(()),
        entries: Ok(entries),
    };
    AnchorState::open(stored, ROOM)
}

#[test]
fn a_copy_reopens_as_what_it_wrote() {
    let (mut st, w) = AnchorState::create(genesis(), Ok(()), Ok(false)).unwrap();
    let mut meta = w.bytes;
    let mut log = Vec::new();
    let check = |st: &AnchorState, meta: &Vec<u8>, log: &[SegmentWrite]| {
        let back = reopened(Some(meta.clone()), log).unwrap();
        assert_eq!(back.channel_id(), st.channel_id());
        assert_eq!(back.genesis(), st.genesis());
        assert_eq!(back.epoch(), 0);
        assert_eq!(back.authors(), st.authors());
        assert_eq!(back.entries(), st.entries());
        assert_eq!(back.log, st.log);
        assert_eq!(back.next_log_id, st.next_log_id);
    };
    check(&st, &meta, &log);
    let (n, w) = st.admit_authors(vec![key(2)]).unwrap();
    assert_eq!(n, 1);
    meta = w.unwrap().bytes;
    check(&st, &meta, &log);
    // A session, and one that failed after it had brought something.
    let kinds = vec![false; 4];
    let brought = vec![entry(1, 1, 17), entry(2, 1, 33)];
    let (writes, out) = st.sync_over(brought, Ok(2), &kinds, vec![Ok(()), Ok(())]);
    assert_eq!(out, Ok(SyncOutcome { applied: 2, governance: 0, rendered: 0 }));
    log.extend(writes);
    check(&st, &meta, &log);
    let failed = Err(WireError::QuotaExceeded);
    let (writes, out) = st.sync_over(vec![entry(2, 2, 34)], failed, &kinds, vec![Ok(())]);
    assert_eq!(out, Err(sync_failure(WireError::QuotaExceeded)));
    log.extend(writes);
    assert_eq!(st.entries(), 3);
    check(&st, &meta, &log);
    // What was never created does not open.
    assert!(matches!(reopened(None, &[]), Err(Error::Profile(_))));
}

#[test]
fn authors_are_admitted_once_and_never_replaced() {
    let mut st = copy();
    let (n, w) = st.admit_authors(vec![key(1), key(2), key(3), key(2)]).unwrap();
    assert_eq!(n, 2);
    assert!(w.is_some());
    assert_eq!(st.authors(), vec![[1; 32], [2; 32], [3; 32]]);
    assert_eq!(st.author_keys()[1], key(2));
    assert_eq!(st.admit_authors(vec![key(2)]).unwrap(), (0, None));
    let forged = CompositePublicKey { bytes: vec![0xee; COMPOSITE_PUB_LEN], fingerprint: [2; 32] };
    assert_eq!(
        st.admit_authors(vec![forged]),
        Err(Error::MalformedGovernance("another key is already admitted for this fingerprint"))
    );
    assert_eq!(st.author_keys()[1], key(2));
}

#[test]
fn a_session_files_what_is_new() {
    let mut st = copy();
    let framed = vec![false; 4];
    let (writes, out) = st.sync_over(
        vec![entry(1, 1, 11), entry(1, 2, 12)],
        Ok(2),
        &framed,
        vec![Ok(()), Ok(()), Ok(()), Ok(())],
    );
    assert_eq!(out, Ok(SyncOutcome { applied: 2, governance: 0, rendered: 0 }));
    assert_eq!(writes.len(), 2);
    assert_eq!((writes[0].id, writes[1].id), (1, 2));
    assert_eq!(writes[1].bytes, vec![12, 2]);
    // Nothing new files nothing.
    let (writes, out) = st.sync_over(vec![], Ok(0), &framed, vec![]);
    assert_eq!(writes.len(), 0);
    assert_eq!(out, Ok(SyncOutcome { applied: 0, governance: 0, rendered: 0 }));
    // What a failed session brought is filed all the same.
    let (writes, out) = st.sync_over(
        vec![entry(1, 3, 13)],
        Err(WireError::TransportFailed),
        &framed,
        vec![Ok(())],
    );
    assert_eq!(writes.len(), 1);
    assert_eq!(writes[0].id, 3);
    assert!(out.is_err());
    assert_eq!(st.entries(), 3);
}

#[test]
fn a_failed_write_poisons_the_copy() {
    let mut st = copy();
    let (writes, out) = st.sync_over(
        vec![entry(1, 1, 11), entry(1, 2, 12)],
        Ok(2),
        &vec![false; 2],
        vec![Err(Error::Storage), Ok(())],
    );
    assert_eq!(writes.len(), 1);
    assert_eq!(out, Err(Error::Storage));
    assert_eq!(st.may_step(0), Err(WireError::TransportFailed));
    let poisoned =
        Error::Profile("anchored channel is poisoned after a failed persist; reopen it");
    assert_eq!(st.begin_sync(), Err(poisoned.clone()));
    let (writes, out) = st.sync_over(vec![], Ok(0), &vec![], vec![]);
    assert_eq!(writes.len(), 0);
    assert_eq!(out, Err(poisoned));
}

#[test]
fn a_step_is_for_the_epoch_that_is_kept() {
    let st = copy();
    assert_eq!(st.may_step(0), Ok(()));
    assert_eq!(st.may_step(1), Err(WireError::EpochMismatch));
    assert_eq!(
        room_outcome(None, 3, Ok(5)),
        Ok(SyncOutcome { applied: 5, governance: 3, rendered: 0 })
    );
    assert_eq!(room_outcome(Some(Error::Storage), 3, Ok(5)), Err(Error::Storage));
    assert!(room_outcome(None, 3, Err(WireError::QuotaExceeded)).is_err());
}

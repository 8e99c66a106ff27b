use vox_node::api::Secret;
use vox_node::bootstrap::{BootstrapNode, BootstrapSet};
use vox_node::channel::log::{accepted_as, feed_find, feed_head, Accepted, OpenedPayload};
use vox_node::channel::ops::{Release, ReleaseAt};
use vox_node::channel::segments::{
    parse_cache, read_authors, ChainSlot, EntryKind, ReceiverChain, SEG_DELIVERED, SEG_ORIGINS,
    SEG_RECEIVERS, SEG_SENDER,
};
use vox_node::channel::session::{EntryWork, RenderWork};
use vox_node::channel::state::{
    Admission, ChannelState, Genesis, JoinWitness, LogEntry, NewChannel, SegmentKind, SenderChain,
    StoredChannel, StoredEntry,
};
use vox_node::channel::sync::{sync_failure, SyncPass, WireError};
use vox_node::content::Content;
use vox_node::error::Error;
use vox_node::hash::COMPOSITE_PUB_LEN;
use vox_node::identity::CompositePublicKey;

const ROOM: [u8; 32] = [0xC5; 32];

fn key(n: u8) -> CompositePublicKey {
    CompositePublicKey { bytes: vec![n; COMPOSITE_PUB_LEN], fingerprint: [n; 32] }
}

fn genesis() -> Genesis {
    Genesis { wire: vec![9], channel_id: ROOM, creator: key(1), service_grant: vec![] }
}

fn chain(author: u8, chain_id: u64) -> SenderChain {
    SenderChain { author_id: [author; 32], chain_id, next_iteration: 0, state: vec![author, 0] }
}

fn secret() -> Secret {
    Secret::new(b"pw".to_vec())
}

fn new_channel(me: u8) -> NewChannel {
    NewChannel { genesis: genesis(), key: key(me), sender: chain(me, 0), origin_state: vec![0xaa] }
}

/// The creator's own channel.
fn mine() -> ChannelState {
    ChannelState::create_with_grant(new_channel(1), "den", secret(), 5, vec![0]).unwrap().0
}

fn content_payload() -> Vec<u8> {
    let mut p = b"vox/group-msg/v1".to_vec();
    p.push(1);
    p
}

fn entry(author: u8, seq: u64, hash: u8) -> LogEntry {
    LogEntry {
        channel_id: ROOM,
        epoch: 0,
        author_id: [author; 32],
        seq,
        entry_hash: [hash; 32],
        payload: Some(content_payload()),
        wire: vec![hash],
    }
}

#[test]
fn a_channel_is_created_with_its_creator_and_one_generation() {
    let (ch, writes) =
        ChannelState::create_with_grant(new_channel(1), "den", secret(), 5, vec![0]).unwrap();
    assert_eq!(ch.channel_id(), ROOM);
    assert_eq!(ch.local_name(), "den");
    assert_eq!((ch.created(), ch.epoch(), ch.entry_count()), (5, 0, 0));
    assert_eq!(ch.members(), vec![[1; 32]]);
    assert_eq!(ch.me(), [1; 32]);
    assert_eq!(ch.own_admission(), Some(&Admission::Creator));
    assert!(ch.rekey_at_origin());
    assert!(writes.iter().all(|w| w.kind == SegmentKind::KeyMaterial));
    assert_eq!(
        ChannelState::create_with_grant(new_channel(1), &"x".repeat(129), secret(), 5, vec![0]).unwrap_err(),
        Error::SizeLimitExceeded("channel local name")
    );
}

#[test]
fn a_joined_channel_is_the_one_that_was_asked_for() {
    let join = |id: &[u8; 32], known| {
        ChannelState::join_channel_with_profile(
            new_channel(2),
            Ok(()),
            id,
            known,
            "den",
            secret(),
            5,
        )
    };
    let (ch, _) = join(&ROOM, false).unwrap();
    assert_eq!(ch.members(), vec![[1; 32], [2; 32]]);
    assert_eq!(ch.own_admission(), None);
    assert_eq!(
        join(&[0; 32], false).unwrap_err(),
        Error::MalformedGovernance("genesis hash is not the channelID joined with")
    );
    assert_eq!(
        join(&ROOM, true).unwrap_err(),
        Error::Profile("this channel is already in the profile")
    );
}

#[test]
fn a_channel_is_opened_from_what_it_wrote() {
    let (ch, writes) =
        ChannelState::create_with_grant(new_channel(1), "den", secret(), 5, vec![0]).unwrap();
    let segment = |id: u64| {
        writes.iter().find(|w| w.id == id).map(|w| w.bytes.clone()).unwrap()
    };
    let stored = |log| StoredChannel {
        signer: Ok(()),
        wrap: Ok(true),
        unlocked: Ok(()),
        manifest: Ok(Some(segment(0))),
        genesis: Ok(genesis()),
        verified: Ok(()),
        authors: Ok(Some((read_authors(&segment(2)), vec![Ok(key(1))]))),
        log: Ok(log),
        cache: Ok(vec![]),
        sender: Ok(Some(chain(1, 0))),
        receivers: Ok(None),
        anchors: Ok(None),
        services: Ok(None),
        admission: Ok(Some(Admission::Creator)),
        origins: Ok(None),
        delivered: Ok(None),
        evaluator: Ok(()),
    };
    let row = StoredEntry {
        id: 1,
        entry: Ok(entry(1, 1, 11)),
        framed: false,
        governance: Ok(()),
        accepted: true,
    };
    let back = ChannelState::open(stored(vec![row]), &ROOM, secret()).unwrap();
    assert_eq!(back.local_name(), ch.local_name());
    assert_eq!(back.created(), ch.created());
    assert_eq!(back.members(), ch.members());
    assert_eq!(back.entry_count(), 1);
    let open = |s: StoredChannel| ChannelState::open(s, &ROOM, secret()).unwrap_err();
    assert_eq!(
        open(StoredChannel { wrap: Ok(false), ..stored(vec![]) }),
        Error::Profile("no such channel in this profile")
    );
    assert_eq!(
        open(StoredChannel { unlocked: Err(Error::AtRestUnlockFailed), ..stored(vec![]) }),
        Error::AtRestUnlockFailed
    );
    assert_eq!(
        open(StoredChannel { manifest: Ok(None), ..stored(vec![]) }),
        Error::MalformedAtRest("channel manifest missing")
    );
    assert_eq!(
        open(StoredChannel { sender: Ok(None), ..stored(vec![]) }),
        Error::MalformedAtRest("sender chain missing")
    );
    assert_eq!(
        ChannelState::open(stored(vec![]), &[0; 32], secret()).unwrap_err(),
        Error::MalformedAtRest("channel manifest genesis mismatch")
    );
}

#[test]
fn authors_are_admitted_and_never_replaced_in_a_channel() {
    let mut ch = mine();
    assert!(ch.admit_author(&key(2)).unwrap().is_some());
    assert_eq!(ch.admit_author(&key(2)).unwrap(), None);
    assert!(ch.is_author(&[2; 32]));
    let forged = CompositePublicKey { bytes: vec![0xee; COMPOSITE_PUB_LEN], fingerprint: [2; 32] };
    assert_eq!(
        ch.admit_author(&forged),
        Err(Error::MalformedGovernance("another key is already admitted for this fingerprint"))
    );
    assert_eq!(
        ch.admit_from_board(&key(3), &Admission::Creator, Ok(())),
        Err(Error::MalformedGovernance("board record claims to be the creator and is not"))
    );
    let seen = |by: u8| Admission::Witnessed(JoinWitness { witness_id: [by; 32], wire: vec![] });
    assert_eq!(
        ch.admit_from_board(&key(3), &seen(9), Ok(())),
        Err(Error::MalformedGovernance("join witness signed by an unadmitted key"))
    );
    assert_eq!(
        ch.admit_from_board(&key(3), &seen(2), Err(Error::Other("forged"))),
        Err(Error::Other("forged"))
    );
    assert!(ch.admit_from_board(&key(3), &seen(2), Ok(())).unwrap().is_some());
    assert_eq!(ch.members(), vec![[1; 32], [2; 32], [3; 32]]);
}

#[test]
fn a_skeleton_continues_its_authors_feed() {
    let mut ch = mine();
    let first = ch.next_skeleton(&[1; 32], b"hello", 0);
    assert_eq!((first.seq, first.prev_hash, first.payload_len), (1, [0; 32], 5));
    assert_eq!(
        first.payload_hash,
        [
            44, 242, 77, 186, 95, 176, 163, 14, 38, 232, 59, 42, 197, 185, 226, 158, 27, 22, 30,
            92, 31, 167, 66, 94, 115, 4, 51, 98, 147, 139, 152, 36
        ]
    );
    ch.apply_session(vec![entry(1, 1, 11), entry(1, 2, 12), entry(1, 3, 13)]);
    let next = ch.next_skeleton(&[1; 32], b"", 1);
    assert_eq!((next.seq, next.prev_hash, next.lipmaa_backlink), (4, [13; 32], [11; 32]));
    assert_eq!(next.channel_id, ROOM);
    assert_eq!(ch.next_seq(&[2; 32]), 1);
    assert_eq!(feed_head(&ch.log, &[1; 32]), 3);
    assert_eq!(feed_find(&ch.log, &[1; 32], 2), Some(1));
    assert_eq!(feed_find(&ch.log, &[1; 32], 9), None);
}

#[test]
fn a_text_is_appended_shown_and_counted() {
    let mut ch = mine();
    let content = ch.begin_text(Ok([1; 32]), "hi", 1_700_000_000_123).unwrap();
    assert_eq!(
        ch.begin_text(Ok([2; 32]), "hi", 0),
        Err(Error::Profile("this identity is not an author of the channel"))
    );
    let (row, writes) = ch.append_text(content, entry(1, 1, 11), true).unwrap();
    assert_eq!(row.text, "hi");
    assert_eq!(
        writes.iter().map(|w| (w.kind, w.id)).collect::<Vec<_>>(),
        vec![
            (SegmentKind::LogDb, 1),
            (SegmentKind::PlaintextCache, 1),
            (SegmentKind::KeyMaterial, SEG_SENDER)
        ]
    );
    assert_eq!(parse_cache(&writes[1].bytes).unwrap(), row);
    assert_eq!(ch.show(row, Ok(())), Ok(()));
    assert_eq!(ch.timeline().len(), 1);
    assert_eq!(ch.next_log_id, 2);
    let refused = Content::text(0, "x").unwrap();
    assert_eq!(
        ch.append_text(refused, entry(1, 2, 12), false).unwrap_err(),
        Error::Profile("authored entry failed the acceptance predicate")
    );
}

#[test]
fn a_failed_write_poisons_the_channel() {
    let mut ch = mine();
    let content = ch.begin_text(Ok([1; 32]), "hi", 0).unwrap();
    let later = ch.begin_text(Ok([1; 32]), "and", 1).unwrap();
    let (row, _) = ch.append_text(content, entry(1, 1, 11), true).unwrap();
    assert_eq!(ch.show(row, Err(Error::Storage)), Err(Error::Storage));
    assert!(ch.is_poisoned());
    let poisoned = Error::Profile("channel is poisoned after a failed persist; reopen it");
    // Not even a text that was begun before is taken.
    assert_eq!(ch.append_text(later, entry(1, 2, 12), true).unwrap_err(), poisoned.clone());
    assert_eq!((ch.entry_count(), ch.next_log_id), (1, 1));
    assert_eq!(ch.begin_text(Ok([1; 32]), "hi", 0), Err(poisoned.clone()));
    assert_eq!(ch.begin_sync(), Err(poisoned.clone()));
    assert_eq!(ch.rotate_sender(Ok(chain(1, 1)), vec![]).unwrap_err(), poisoned);
}

#[test]
fn an_entry_is_accepted_for_its_own_channel_only() {
    let mut ch = mine();
    let with = |f: fn(&mut LogEntry)| {
        let mut e = entry(1, 1, 11);
        f(&mut e);
        e
    };
    let mut refused = |e: LogEntry| ch.accept_entry(e, false, Ok(()), true).unwrap_err();
    assert_eq!(
        refused(with(|e| e.channel_id = [0; 32])),
        Error::MalformedGovernance("entry binds another channel")
    );
    assert_eq!(
        refused(with(|e| e.epoch = 1)),
        Error::MalformedGovernance("entry binds another epoch")
    );
    assert_eq!(
        refused(with(|e| e.author_id = [7; 32])),
        Error::MalformedGovernance("entry from an unadmitted author")
    );
    assert_eq!(
        refused(with(|e| e.payload = None)),
        Error::MalformedGovernance("entry payload pruned")
    );
    assert_eq!(
        ch.accept_entry(entry(1, 1, 11), false, Ok(()), false).unwrap_err(),
        Error::MalformedGovernance("entry failed the acceptance predicate")
    );
    let (kind, w) = ch.accept_entry(entry(1, 1, 11), false, Ok(()), true).unwrap();
    assert_eq!((kind, w.kind, w.id), (EntryKind::Content, SegmentKind::LogDb, 1));
    assert_eq!(accepted_as(EntryKind::Governance, false), Accepted::Governance);
    assert_eq!(accepted_as(EntryKind::Content, true), Accepted::Rendered);
    assert_eq!(accepted_as(EntryKind::Content, false), Accepted::ContentNotReadable);
}

#[test]
fn content_is_rendered_with_consent_and_a_key() {
    let mut ch = mine();
    ch.admit_author(&key(2)).unwrap();
    let slot = ChainSlot { author: [2; 32], chain_id: 4 };
    assert_eq!(ch.render_gate(&[2; 32], true, Some(4)), None);
    let receiver = || ReceiverChain { author_id: [2; 32], chain_id: 4, state: vec![1] };
    assert!(ch.accept_skdm(&[2; 32], Ok(receiver())).unwrap().is_some());
    assert_eq!(ch.accept_skdm(&[2; 32], Ok(receiver())).unwrap(), None);
    assert_eq!(
        ch.accept_skdm(&[7; 32], Ok(ReceiverChain { author_id: [7; 32], ..receiver() })),
        Err(Error::MalformedGovernance("SKDM from an unadmitted author"))
    );
    assert!(ch.has_sender_key(&[2; 32]));
    assert!(!ch.has_sender_key(&[1; 32]));
    assert_eq!(ch.render_gate(&[2; 32], false, Some(4)), None);
    assert_eq!(ch.render_gate(&[2; 32], true, Some(5)), None);
    assert_eq!(ch.render_gate(&[2; 32], true, Some(4)), Some(slot));
    let plaintext = Content::text(9, "yo").unwrap().to_canonical_vec();
    let stepped = ReceiverChain { author_id: [2; 32], chain_id: 4, state: vec![2] };
    let opened = OpenedPayload { plaintext, chain: stepped };
    let (row, _) = ch.render_content(slot, [21; 32], Ok(opened)).unwrap();
    assert_eq!((row.text.as_str(), row.author, row.created_millis), ("yo", [2; 32], 9));
    assert_eq!(ch.receivers.get(&slot).unwrap().state, vec![2]);
    assert_eq!(ch.render_content(slot, [22; 32], Err(Error::Storage)), None);
}

#[test]
fn what_a_session_brought_is_worked_off() {
    let mut ch = mine();
    ch.admit_author(&key(2)).unwrap();
    let heads = ch.begin_sync().unwrap();
    assert_eq!(heads, vec![([1; 32], 0), ([2; 32], 0)]);
    ch.apply_session(vec![entry(2, 1, 21), entry(2, 2, 22)]);
    let arrived = ch.arrived_since(&heads);
    assert_eq!(arrived.len(), 2);
    assert_eq!(arrived[1].entry_hash, [22; 32]);
    assert_eq!(ch.pending(&[2; 32]).len(), 2);
    let mut pass = SyncPass::start(&ch, &heads, Ok(2));
    while let Some(w) = pass.next_write(&ch).unwrap() {
        assert_eq!(w.kind, SegmentKind::LogDb);
        ch.entry_stored(Ok(())).unwrap();
        let kind = pass.kind(false).unwrap();
        pass.done(kind, pass.at == 0);
    }
    let out = pass.finish().unwrap();
    assert_eq!((out.applied, out.governance, out.rendered), (2, 0, 1));
    assert_eq!(ch.next_log_id, 3);
    // A second session finds nothing new.
    let heads = ch.begin_sync().unwrap();
    assert_eq!(ch.arrived_since(&heads).len(), 0);
    let failed = SyncPass::start(&ch, &heads, Err(WireError::QuotaExceeded));
    assert_eq!(failed.finish(), Err(sync_failure(WireError::QuotaExceeded)));
    assert_eq!(
        sync_failure(WireError::QuotaExceeded),
        Error::MalformedGovernance("sync failed: quota exceeded")
    );
}

#[test]
fn a_rotation_retains_its_origin_and_is_taken_up_once_written() {
    let mut ch = mine();
    let started = SenderChain { next_iteration: 1, ..chain(1, 1) };
    assert_eq!(
        ch.rotate_sender(Ok(started), vec![]).unwrap_err(),
        Error::MalformedBundle("origin retention past iteration 0")
    );
    let rotation = ch.rotate_sender(Ok(chain(1, 1)), vec![0xbb]).unwrap();
    assert_eq!(
        rotation.writes.iter().map(|w| w.id).collect::<Vec<_>>(),
        vec![SEG_SENDER, SEG_ORIGINS]
    );
    assert_eq!(ch.sender_generation(), 0);
    assert_eq!(ch.rotated(rotation.next, Ok(())), Ok(1));
    assert_eq!(ch.sender_generation(), 1);
    assert_eq!(
        ch.rekey_skdm(Ok(())),
        Ok(Release { chain_id: 1, at: ReleaseAt::Origin })
    );
    assert_eq!(
        ch.skdm_for_consent(Ok(())),
        Ok(Release { chain_id: 1, at: ReleaseAt::Position(0) })
    );
    // A generation whose origin is not retained is released where it stands.
    ch.advance_sender(SenderChain { next_iteration: 6, ..chain(1, 1) });
    ch.origins.held.clear();
    assert_eq!(
        ch.rekey_skdm(Ok(())),
        Ok(Release { chain_id: 1, at: ReleaseAt::Position(6) })
    );
    assert_eq!(ch.rekey_skdm(Err(Error::AtRestLocked)), Err(Error::AtRestLocked));
}

#[test]
fn consent_is_owed_to_the_trusted_and_re_keys_to_whoever_kept_it() {
    let mut ch = mine();
    ch.admit_author(&key(2)).unwrap();
    ch.admit_author(&key(3)).unwrap();
    let trusted = vec![[1; 32], [2; 32], [9; 32]];
    assert_eq!(ch.owed_consents(&trusted, &vec![]), vec![[2; 32]]);
    assert_eq!(ch.owed_consents(&trusted, &vec![[2; 32]]).len(), 0);
    let w = ch.issue_consent([2; 32]);
    assert_eq!(w.id, SEG_DELIVERED);
    assert_eq!(ch.owed_rekeys(&vec![[2; 32]]).len(), 0);
    let rotation = ch.revoke_consent(&[3; 32], &vec![[2; 32], [3; 32]], Ok(chain(1, 1)), vec![]);
    let rotation = rotation.unwrap();
    ch.rotated(rotation.next, Ok(())).unwrap();
    assert_eq!(ch.owed_rekeys(&vec![[2; 32]]), vec![[2; 32]]);
    assert!(ch.note_delivered([2; 32], 1).is_some());
    assert_eq!(ch.note_delivered([2; 32], 1), None);
    assert_eq!(ch.owed_rekeys(&vec![[2; 32]]).len(), 0);
    assert!(ch.forget_delivery(&[2; 32]).is_some());
    assert_eq!(ch.forget_delivery(&[2; 32]), None);
    assert_eq!(
        ch.revoke_consent(&[3; 32], &vec![], Ok(chain(1, 2)), vec![]).unwrap_err(),
        Error::MalformedGovernance("no consent to revoke")
    );
    assert_eq!(
        ch.revoke_consent(&[1; 32], &vec![], Ok(chain(1, 2)), vec![]).unwrap_err(),
        Error::MalformedGovernance("an identity cannot revoke its own consent")
    );
}

#[test]
fn services_and_anchors_are_offered() {
    let mut ch = mine();
    let (fresh, _) = ch.add_service("22", "127.0.0.1:22".to_string()).unwrap();
    assert!(fresh);
    assert!(!ch.add_service("22", "127.0.0.1:23".to_string()).unwrap().0);
    assert_eq!(ch.service_endpoint("22"), Some("127.0.0.1:23".to_string()));
    assert_eq!(
        ch.add_service("", "x".to_string()).unwrap_err(),
        Error::MalformedTunnel("service tag length")
    );
    assert!(ch.remove_service("22").is_some());
    assert_eq!(ch.remove_service("22"), None);
    let set = || BootstrapSet {
        nodes: vec![BootstrapNode { id: [4; 32], endpoints: vec!["10.0.0.1:1".to_string()] }],
    };
    let (n, w) = ch.add_anchors(Ok(set()), vec![1]).unwrap();
    assert_eq!((n, w.is_some()), (1, true));
    assert_eq!(ch.add_anchors(Ok(set()), vec![1]).unwrap(), (0, None));
    assert_eq!(ch.anchors().nodes.len(), 1);
    assert_eq!(
        ChannelState::grant_capabilities(&vec![]),
        Err(Error::MalformedGovernance("a grant with no capabilities"))
    );
    assert!(ch.exclude_from_service_grant(&[2; 32]).is_err());
}

#[test]
fn a_locked_channel_answers_no_join() {
    let mut ch = mine();
    assert!(ch.can_answer_join());
    assert_eq!(ch.join_passphrase().unwrap(), b"pw");
    let params = ch.join_context(Ok(2)).unwrap();
    assert_eq!((params.channel_id, params.epoch, params.floor), (ROOM, 0, 2));
    ch.lock_now();
    assert!(!ch.can_answer_join());
    assert_eq!(ch.join_passphrase(), Err(Error::AtRestLocked));
}

#[test]
fn a_resolver_knows_the_admitted_authors() {
    let ch = mine();
    let r = ch.resolver();
    assert_eq!(r.key_for(&[1; 32]), Some(key(1)));
    assert_eq!(r.key_for(&[2; 32]), None);
    assert_eq!(r.kind_for(&None, true), EntryKind::Content);
    assert_eq!(r.kind_for(&Some(vec![1]), true), EntryKind::Governance);
    assert_eq!(r.kind_for(&Some(vec![1]), false), EntryKind::Content);
}

fn receiver(state: u8) -> ReceiverChain {
    ReceiverChain { author_id: [2; 32], chain_id: 4, state: vec![state] }
}

/// An attempt to render a message of the second author's fourth generation.
fn attempt(text: &str, state: u8, shown: Result<(), Error>) -> RenderWork {
    let plaintext = Content::text(9, text).unwrap().to_canonical_vec();
    RenderWork {
        consented: true,
        generation: Some(4),
        opened: Ok(OpenedPayload { plaintext, chain: receiver(state) }),
        shown,
    }
}

fn content_work(render: RenderWork) -> EntryWork {
    EntryWork { framed: false, written: Ok(()), fact: Ok(()), evaluated: Ok(()), render }
}

/// The creator's channel with a second author, whose key is held.
fn with_second_author() -> ChannelState {
    let mut ch = mine();
    ch.admit_author(&key(2)).unwrap();
    ch.accept_skdm(&[2; 32], Ok(receiver(1))).unwrap();
    ch
}

#[test]
fn a_whole_session_is_stored_folded_in_and_shown() {
    let mut ch = with_second_author();
    let fact = LogEntry { payload: Some(vec![0x82, 0x01]), ..entry(2, 2, 22) };
    let works = vec![
        content_work(attempt("yo", 2, Ok(()))),
        EntryWork { framed: true, ..content_work(attempt("", 2, Ok(()))) },
    ];
    let (batches, out) = ch.sync_over(vec![entry(2, 1, 21), fact], Ok(2), works);
    let out = out.unwrap();
    assert_eq!((out.applied, out.governance, out.rendered), (2, 1, 1));
    let kinds: Vec<Vec<(SegmentKind, u64)>> =
        batches.iter().map(|b| b.iter().map(|w| (w.kind, w.id)).collect()).collect();
    assert_eq!(
        kinds,
        vec![
            vec![(SegmentKind::LogDb, 1)],
            vec![(SegmentKind::PlaintextCache, 2), (SegmentKind::KeyMaterial, SEG_RECEIVERS)],
            vec![(SegmentKind::LogDb, 3)],
        ]
    );
    assert_eq!(batches[0][0].bytes, vec![21]);
    assert_eq!(parse_cache(&batches[1][0].bytes).unwrap().text, "yo");
    assert_eq!(batches[2][0].bytes, vec![22]);
    assert_eq!(ch.timeline.len(), 1);
    assert_eq!((ch.timeline[0].text.as_str(), ch.timeline[0].entry_hash), ("yo", [21; 32]));
    assert_eq!(ch.gov_entries, vec![[22; 32]]);
    assert_eq!((ch.next_log_id, ch.poisoned), (4, false));
}

#[test]
fn a_session_that_failed_still_leaves_what_arrived() {
    let mut ch = with_second_author();
    let works = vec![content_work(attempt("yo", 2, Ok(())))];
    let (batches, out) =
        ch.sync_over(vec![entry(2, 1, 21)], Err(WireError::QuotaExceeded), works);
    assert_eq!(out, Err(sync_failure(WireError::QuotaExceeded)));
    assert_eq!(batches.len(), 2);
    assert_eq!(ch.timeline.len(), 1);
}

#[test]
fn a_write_that_fails_ends_a_session_and_poisons_the_channel() {
    let mut ch = with_second_author();
    let works = vec![
        EntryWork { written: Err(Error::Storage), ..content_work(attempt("a", 2, Ok(()))) },
        content_work(attempt("b", 3, Ok(()))),
    ];
    let (batches, out) =
        ch.sync_over(vec![entry(2, 1, 21), entry(2, 2, 22)], Ok(2), works);
    assert_eq!(out, Err(Error::Storage));
    assert_eq!((batches.len(), ch.poisoned, ch.timeline.len()), (1, true, 0));
    let (batches, out) = ch.sync_over(vec![], Ok(0), vec![]);
    assert_eq!(batches.len(), 0);
    assert!(out.is_err());
}

#[test]
fn a_key_that_arrives_makes_what_was_stored_readable() {
    let mut ch = mine();
    ch.admit_author(&key(2)).unwrap();
    let works = || vec![attempt("one", 2, Ok(())), attempt("two", 3, Ok(()))];
    ch.apply_session(vec![entry(2, 1, 21), entry(2, 2, 22)]);
    // No key is held yet, so nothing opens.
    let (batches, count) = ch.backfill(&[2; 32], works());
    assert_eq!((batches.len(), count), (0, Ok(0)));
    ch.accept_skdm(&[2; 32], Ok(receiver(1))).unwrap();
    // Nor does anything without consent.
    let unconsented = works().into_iter().map(|w| RenderWork { consented: false, ..w }).collect();
    assert_eq!(ch.backfill(&[2; 32], unconsented).1, Ok(0));
    let (batches, count) = ch.backfill(&[2; 32], works());
    assert_eq!((batches.len(), count), (2, Ok(2)));
    assert_eq!(parse_cache(&batches[1][0].bytes).unwrap().text, "two");
    let shown: Vec<&str> = ch.timeline.iter().map(|r| r.text.as_str()).collect();
    assert_eq!(shown, vec!["one", "two"]);
    // What is shown is not tried again.
    assert_eq!(ch.backfill(&[2; 32], vec![]).1, Ok(0));
}

#[test]
fn a_backfill_ends_at_the_first_write_that_fails() {
    let mut ch = with_second_author();
    ch.apply_session(vec![entry(2, 1, 21), entry(2, 2, 22)]);
    let works = vec![attempt("one", 2, Err(Error::Storage)), attempt("two", 3, Ok(()))];
    let (batches, count) = ch.backfill(&[2; 32], works);
    assert_eq!((batches.len(), count), (1, Err(Error::Storage)));
    assert_eq!((ch.timeline.len(), ch.poisoned), (0, true));
}

#[test]
fn a_fact_of_ones_own_is_taken_into_the_log_once_accepted() {
    let mut ch = mine();
    let fact = || LogEntry { payload: Some(vec![0x82, 0x01]), ..entry(1, 1, 31) };
    let refused = |ch: &mut ChannelState, signer, entry, ok, accepted| {
        ch.append_governance(signer, entry, ok, accepted).unwrap_err()
    };
    assert_eq!(
        refused(&mut ch, Err(Error::AtRestLocked), Ok(fact()), Ok(()), true),
        Error::AtRestLocked
    );
    assert_eq!(
        refused(
            &mut ch,
            Ok([7; 32]),
            Ok(LogEntry { author_id: [7; 32], ..fact() }),
            Ok(()),
            true
        ),
        Error::Profile("this identity is not an author of the channel")
    );
    assert_eq!(
        refused(&mut ch, Ok([1; 32]), Ok(fact()), Err(Error::Storage), true),
        Error::Storage
    );
    assert_eq!(
        refused(&mut ch, Ok([1; 32]), Ok(fact()), Ok(()), false),
        Error::Profile("authored entry failed the acceptance predicate")
    );
    assert_eq!(ch.entry_count(), 0);
    let w = ch.append_governance(Ok([1; 32]), Ok(fact()), Ok(()), true).unwrap();
    assert_eq!((w.kind, w.id, w.bytes), (SegmentKind::LogDb, 1, vec![31]));
    assert_eq!(ch.entry_count(), 1);
}

#[test]
fn an_admission_is_recorded_once_it_was_written() {
    let mut ch = mine();
    ch.own_admission = None;
    assert_eq!(ChannelState::own_admission_write(vec![4]).bytes, vec![4]);
    assert_eq!(
        ch.set_own_admission(Admission::Creator, Err(Error::Storage)),
        Err(Error::Storage)
    );
    assert_eq!((ch.own_admission(), ch.poisoned), (None, true));
    let mut ch = mine();
    ch.own_admission = None;
    assert_eq!(ch.set_own_admission(Admission::Creator, Ok(())), Ok(()));
    assert_eq!(ch.own_admission(), Some(&Admission::Creator));
    assert!(ch.has_consented(&vec![[2; 32]], &[2; 32]));
    assert!(!ch.has_consented(&vec![], &[2; 32]));
}

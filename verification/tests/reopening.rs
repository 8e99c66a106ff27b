use std::collections::BTreeMap;

use vox_node::api::Secret;
use vox_node::channel::log::OpenedPayload;
use vox_node::channel::segments::{
    read_authors, read_receivers, read_services, ReceiverChain, SEG_ADMISSION, SEG_AUTHORS,
    SEG_DELIVERED, SEG_MANIFEST, SEG_ORIGINS, SEG_RECEIVERS, SEG_SENDER, SEG_SERVICES,
};
use vox_node::channel::session::{EntryWork, RenderWork};
use vox_node::channel::state::{
    Admission, ChannelState, Genesis, LogEntry, NewChannel, Origins, SegmentKind, SegmentWrite,
    SenderChain, StoredChannel, StoredEntry, StoredRow,
};
use vox_node::channel::sync::{sync_failure, WireError};
use vox_node::content::Content;
use vox_node::error::Error;
use vox_node::hash::COMPOSITE_PUB_LEN;
use vox_node::identity::CompositePublicKey;

const ROOM: [u8; 32] = [0xC5; 32];

fn key(n: u8) -> CompositePublicKey {
    CompositePublicKey { bytes: vec![n; COMPOSITE_PUB_LEN], fingerprint: [n; 32] }
}

fn genesis() -> Genesis {
    Genesis { wire: vec![9], channel_id: ROOM, creator: key(1), service_grant: vec![] }
}

fn sender(iteration: u64) -> SenderChain {
    chain(iteration, 0)
}

fn chain(iteration: u64, chain_id: u64) -> SenderChain {
    SenderChain {
        author_id: [1; 32],
        chain_id,
        next_iteration: iteration,
        state: vec![iteration as u8, chain_id as u8],
    }
}

fn secret() -> Secret {
    Secret::new(b"pw".to_vec())
}

/// An entry whose wire form is what `decode` reads.
fn entry(author: u8, seq: u64, pruned: bool) -> LogEntry {
    let mut payload = b"vox/group-msg/v1".to_vec();
    payload.push(1);
    LogEntry {
        channel_id: ROOM,
        epoch: 0,
        author_id: [author; 32],
        seq,
        entry_hash: [author * 16 + seq as u8; 32],
        payload: if pruned { None } else { Some(payload) },
        wire: vec![author, seq as u8, pruned as u8],
    }
}

fn decode(wire: &[u8]) -> LogEntry {
    entry(wire[0], wire[1] as u64, wire[2] == 1)
}

/// What was written, as a store holds it.
struct Disk {
    segments: BTreeMap<(u8, u64), Vec<u8>>,
}

fn number(kind: SegmentKind) -> u8 {
    match kind {
        SegmentKind::KeyMaterial => 0,
        SegmentKind::LogDb => 1,
        SegmentKind::PlaintextCache => 2,
        SegmentKind::AnchorMeta => 3,
        SegmentKind::AnchorLog => 4,
    }
}

impl Disk {
    fn write(&mut self, batch: Vec<SegmentWrite>) {
        for w in batch {
            self.segments.insert((number(w.kind), w.id), w.bytes);
        }
    }

    fn material(&self, id: u64) -> Option<Vec<u8>> {
        self.segments.get(&(0, id)).cloned()
    }

    fn of(&self, kind: SegmentKind) -> Vec<(u64, Vec<u8>)> {
        let n = number(kind);
        self.segments.iter().filter(|(k, _)| k.0 == n).map(|(k, b)| (k.1, b.clone())).collect()
    }

    fn open(&self) -> Result<ChannelState, Error> {
        let authors = self.material(SEG_AUTHORS).map(|b| {
            let read = read_authors(&b);
            let keys = read.rows.iter().map(|r| Ok(key(r.0[0]))).collect();
            (read, keys)
        });
        let receivers = self.material(SEG_RECEIVERS).map(|b| {
            let read = read_receivers(&b);
            let chains = read.rows.iter().map(|r| Ok(receiver(r[0]))).collect();
            (read, chains)
        });
        let services = self.material(SEG_SERVICES).map(|b| {
            let read = read_services(&b);
            let parsed = read.rows.iter().map(|r| Some(r.1.clone())).collect();
            (read, parsed)
        });
        let log = self
            .of(SegmentKind::LogDb)
            .into_iter()
            .map(|(id, b)| StoredEntry {
                id,
                entry: Ok(decode(&b)),
                framed: false,
                governance: Ok(()),
                accepted: true,
            })
            .collect();
        let cache = self
            .of(SegmentKind::PlaintextCache)
            .into_iter()
            .map(|(id, b)| StoredRow { id, row: Ok(b) })
            .collect();
        let stored = StoredChannel {
            signer: Ok(()),
            wrap: Ok(true),
            unlocked: Ok(()),
            manifest: Ok(self.material(SEG_MANIFEST)),
            genesis: Ok(genesis()),
            verified: Ok(()),
            authors: Ok(authors),
            log: Ok(log),
            cache: Ok(cache),
            sender: Ok(self.material(SEG_SENDER).map(|b| chain(b[0] as u64, b[1] as u64))),
            receivers: Ok(receivers),
            anchors: Ok(None),
            services: Ok(services),
            admission: Ok(self.material(SEG_ADMISSION).map(|_| Admission::Creator)),
            origins: Ok(self.material(SEG_ORIGINS).map(|b| Origins {
                held: b.iter().map(|n| *n as u64).collect(),
                state: b,
            })),
            delivered: Ok(self.material(SEG_DELIVERED)),
            evaluator: Ok(()),
        };
        ChannelState::open(stored, &ROOM, secret())
    }
}

fn receiver(state: u8) -> ReceiverChain {
    ReceiverChain { author_id: [2; 32], chain_id: 4, state: vec![state] }
}

fn attempt(text: &str, state: u8) -> RenderWork {
    let plaintext = Content::text(9, text).unwrap().to_canonical_vec();
    RenderWork {
        consented: true,
        generation: Some(4),
        opened: Ok(OpenedPayload { plaintext, chain: receiver(state) }),
        shown: Ok(()),
    }
}

fn work(text: &str, state: u8) -> EntryWork {
    EntryWork {
        framed: false,
        written: Ok(()),
        fact: Ok(()),
        evaluated: Ok(()),
        render: attempt(text, state),
    }
}

/// A channel of one's own, on disk.
fn made() -> (ChannelState, Disk) {
    let new = NewChannel {
        genesis: genesis(),
        key: key(1),
        sender: sender(0),
        origin_state: vec![0],
    };
    let (ch, writes) = ChannelState::create_with_grant(new, "den", secret(), 5, vec![0]).unwrap();
    let mut disk = Disk { segments: BTreeMap::new() };
    disk.write(writes);
    (ch, disk)
}

/// The same with a second author, whose key is held.
fn shared() -> (ChannelState, Disk) {
    let (mut ch, mut disk) = made();
    disk.write(vec![ch.admit_author(&key(2)).unwrap().unwrap()]);
    disk.write(vec![ch.accept_skdm(&[2; 32], Ok(receiver(1))).unwrap().unwrap()]);
    (ch, disk)
}

fn append(ch: &mut ChannelState, disk: &mut Disk, seq: u64, text: &str) {
    let content = ch.begin_text(Ok([1; 32]), text, 70 + seq).unwrap();
    ch.advance_sender(sender(seq));
    let (row, writes) = ch.append_text(content, entry(1, seq, false), true).unwrap();
    disk.write(writes);
    ch.show(row, Ok(())).unwrap();
}

fn texts(ch: &ChannelState) -> Vec<&str> {
    ch.timeline().iter().map(|r| r.text.as_str()).collect()
}

/// Whether a reopened channel is the one in memory.
fn same(back: &ChannelState, ch: &ChannelState) {
    assert_eq!(back.genesis, ch.genesis);
    assert_eq!(back.local_name(), ch.local_name());
    assert_eq!((back.created(), back.epoch()), (ch.created(), ch.epoch()));
    assert_eq!(back.members(), ch.members());
    assert_eq!(back.entry_count(), ch.entry_count());
    assert_eq!(back.timeline, ch.timeline);
    assert_eq!(back.sender, ch.sender);
    assert_eq!(back.origins, ch.origins);
    assert_eq!(back.delivered.len(), ch.delivered.len());
    assert_eq!(back.next_log_id, ch.next_log_id);
    assert_eq!(back.own_admission(), ch.own_admission());
    assert_eq!(back.services().len(), ch.services().len());
    assert_eq!(back.receivers.len(), ch.receivers.len());
}

#[test]
fn a_new_channel_reopens_as_it_was() {
    let (ch, disk) = made();
    let back = disk.open().unwrap();
    same(&back, &ch);
    assert_eq!(back.own_admission(), Some(&Admission::Creator));
}

#[test]
fn every_change_survives_a_reopening() {
    let (mut ch, mut disk) = shared();
    same(&disk.open().unwrap(), &ch);
    append(&mut ch, &mut disk, 1, "one");
    same(&disk.open().unwrap(), &ch);
    let (_, w) = ch.add_service("22", "127.0.0.1:22".to_string()).unwrap();
    disk.write(vec![w]);
    let back = disk.open().unwrap();
    same(&back, &ch);
    assert_eq!(back.service_endpoint("22"), Some("127.0.0.1:22".to_string()));
    assert_eq!(texts(&back), vec!["one"]);
}

#[test]
fn a_rendered_row_survives_a_reopening_and_an_append() {
    let (mut ch, mut disk) = shared();
    append(&mut ch, &mut disk, 1, "mine");
    let (batches, out) = ch.sync_over(vec![entry(2, 1, false)], Ok(1), vec![work("theirs", 2)]);
    assert_eq!(out.unwrap().rendered, 1);
    for b in batches {
        disk.write(b);
    }
    // The row of the rendered message is the last segment of all.
    assert_eq!(disk.of(SegmentKind::LogDb).last().unwrap().0, 2);
    assert_eq!(disk.of(SegmentKind::PlaintextCache).last().unwrap().0, 3);
    let mut back = disk.open().unwrap();
    same(&back, &ch);
    assert_eq!(back.next_log_id, 4);
    append(&mut back, &mut disk, 2, "mine again");
    let again = disk.open().unwrap();
    same(&again, &back);
    assert_eq!(texts(&again), vec!["mine", "theirs", "mine again"]);
}

#[test]
fn a_pruned_entry_is_stored_and_reloaded() {
    let (mut ch, mut disk) = shared();
    let brought = vec![entry(2, 1, false), entry(2, 2, true), entry(2, 3, false)];
    let works = vec![work("one", 2), work("", 3), work("three", 4)];
    let (batches, out) = ch.sync_over(brought, Err(WireError::QuotaExceeded), works);
    assert_eq!(out, Err(sync_failure(WireError::QuotaExceeded)));
    for b in batches {
        disk.write(b);
    }
    assert_eq!(ch.entry_count(), 3);
    assert_eq!(texts(&ch), vec!["one", "three"]);
    let back = disk.open().unwrap();
    same(&back, &ch);
    assert_eq!(back.log[1].payload, None);
}

#[test]
fn a_fault_keeps_nothing_behind_it_out_of_the_store() {
    let (mut ch, mut disk) = shared();
    let neither = LogEntry { payload: Some(vec![1]), ..entry(2, 1, false) };
    let (batches, out) =
        ch.sync_over(vec![neither, entry(2, 2, false)], Ok(2), vec![work("", 2), work("two", 2)]);
    assert_eq!(
        out,
        Err(Error::MalformedAtRest(
            "entry payload is neither a group message nor a governance struct"
        ))
    );
    for b in batches {
        disk.write(b);
    }
    assert_eq!(disk.of(SegmentKind::LogDb).len(), 2);
    assert_eq!(texts(&ch), vec!["two"]);
    assert!(!ch.is_poisoned());
}

#[test]
fn a_text_is_sent_whole_or_not_at_all() {
    let (mut ch, mut disk) = made();
    append(&mut ch, &mut disk, 1, "one");
    assert_eq!((ch.entry_count(), ch.timeline().len()), (1, 1));
    assert_eq!(ch.timeline()[0].author, [1; 32]);
    assert_eq!(ch.timeline()[0].created_millis, 71);
    // A batch that fails: nothing of it is on disk, nothing is shown, nothing more is taken.
    let content = ch.begin_text(Ok([1; 32]), "two", 72).unwrap();
    let later = ch.begin_text(Ok([1; 32]), "later", 72).unwrap();
    ch.advance_sender(sender(2));
    let (row, _) = ch.append_text(content, entry(1, 2, false), true).unwrap();
    assert_eq!(ch.show(row, Err(Error::Storage)), Err(Error::Storage));
    assert!(ch.is_poisoned());
    assert_eq!(texts(&ch), vec!["one"]);
    let poisoned = Error::Profile("channel is poisoned after a failed persist; reopen it");
    assert_eq!(ch.begin_text(Ok([1; 32]), "three", 73), Err(poisoned.clone()));
    let refused = ch.append_text(later, entry(1, 3, false), true).unwrap_err();
    assert_eq!(refused, poisoned.clone());
    assert_eq!(ch.rotate_sender(Ok(chain(0, 1)), vec![0, 1]).unwrap_err(), poisoned);
    // What is opened again is the channel before it, and goes on.
    let mut back = disk.open().unwrap();
    assert!(!back.is_poisoned());
    assert_eq!(back.entry_count(), 1);
    assert_eq!(back.sender, sender(1));
    append(&mut back, &mut disk, 2, "two");
    assert_eq!(texts(&disk.open().unwrap()), vec!["one", "two"]);
}

#[test]
fn a_revocation_is_whole_and_survives_a_reopening() {
    let (mut ch, mut disk) = shared();
    disk.write(vec![ch.admit_author(&key(3)).unwrap().unwrap()]);
    disk.write(vec![ch.issue_consent([2; 32])]);
    disk.write(vec![ch.issue_consent([3; 32])]);
    assert_eq!(ch.owed_rekeys(&vec![[2; 32], [3; 32]]).len(), 0);
    let readers = vec![[1; 32], [2; 32], [3; 32]];
    let rotation = ch.revoke_consent(&[3; 32], &readers, Ok(chain(0, 1)), vec![0, 1]).unwrap();
    disk.write(rotation.writes);
    assert_eq!(ch.rotated(rotation.next, Ok(())), Ok(1));
    let fact = entry(1, 1, false);
    let w = ch.append_governance(Ok([1; 32]), Ok(fact), Ok(()), true).unwrap();
    disk.write(vec![w]);
    ch.entry_stored(Ok(())).unwrap();
    ch.fold_governance(entry(1, 1, false).entry_hash, Ok(())).unwrap();
    disk.write(vec![ch.forget_delivery(&[3; 32]).unwrap()]);
    let remaining = vec![[1; 32], [2; 32]];
    let back = disk.open().unwrap();
    same(&back, &ch);
    for c in [&ch, &back] {
        assert_eq!(c.sender_generation(), 1);
        assert!(c.rekey_at_origin());
        assert_eq!(c.entry_count(), 1);
        assert_eq!(c.delivered.get(&[3; 32]), None);
        assert_eq!(c.delivered.get(&[2; 32]), Some(&0));
        assert_eq!(c.owed_rekeys(&remaining), vec![[2; 32]]);
        // No longer trusted, it is owed no consent either.
        assert_eq!(c.owed_consents(&vec![[2; 32]], &remaining).len(), 0);
    }
}

#[test]
fn a_message_that_is_no_envelope_is_stored_and_not_shown() {
    let (mut ch, mut disk) = shared();
    let mut odd = work("", 9);
    odd.render.opened = Ok(OpenedPayload { plaintext: vec![0xff], chain: receiver(9) });
    let brought = vec![entry(2, 1, false), entry(2, 2, false)];
    let (batches, out) = ch.sync_over(brought, Ok(2), vec![work("one", 2), odd]);
    assert_eq!(out.unwrap().rendered, 1);
    for b in batches {
        disk.write(b);
    }
    let back = disk.open().unwrap();
    same(&back, &ch);
    assert_eq!(back.entry_count(), 2);
    assert_eq!(texts(&back), vec!["one"]);
    // Its chain advanced in memory alone: what was written last is what opens again.
    assert_eq!(ch.receivers.row(0).1.state, vec![9]);
    assert_eq!(disk.material(SEG_RECEIVERS).unwrap().contains(&9), false);
}

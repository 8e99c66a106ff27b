use vox_node::actor::admission::{admit_board_records, BoardRecord, MAX_ADMISSIONS_PER_SWEEP};
use vox_node::actor::boards::{
    after_stream, gained, learned_records, path_view, publish_channel_locally,
    publish_channel_to_anchor, refresh_network_view, Accepting, BoardHunt, HuntStep, OwnRecords,
};
use vox_node::actor::config::NodeConfig;
use vox_node::actor::join::{AddressWait, BoardSet, JoinRun, JoinStage, MemberRecord};
use vox_node::actor::node::{Effect, NodeCore, PairSlot, PortMapping};
use vox_node::actor::peers::{
    key_news, synced_with, take_control, ControlStep, KeyRelease, PairwiseFrame, RekeyRound,
    SessionTarget, SyncTrigger,
};
use vox_node::actor::rooms::service_room;
use vox_node::actor::rounds::{
    learn_members, publish_initial, refresh_anchored_authors, Preparation,
};
use vox_node::actor::routes::{board_routes, invite_anchors, learned_anchors, to_dial};
use vox_node::actor::ticks::{Inbound, NetEvent};
use vox_node::actor::view::{view_of, OpenRoom, Outlook};
use vox_node::actor::{fault_of, renew_at};
use vox_node::api::{
    AnchoredChannel, Fault, ForwardInfo, IdentityInfo, MessageRow, NodeCommand, NodeEvent,
    Outcome, Secret,
};
use vox_node::bootstrap::{BootstrapNode, BootstrapSet};
use vox_node::channel::state::{
    Admission, ChannelState, Genesis, JoinWitness, NewChannel, SenderChain,
};
use vox_node::channel::sync::SyncOutcome;
use vox_node::error::Error;
use vox_node::hash::COMPOSITE_PUB_LEN;
use vox_node::identity::CompositePublicKey;
use vox_node::joinstream::exchange::{InitNames, OneTimeUse};
use vox_node::link::invite::{link_addresses, InviteLink};
use vox_node::table::Table;

const ROOM: [u8; 32] = [0xC5; 32];
const ME: [u8; 32] = [1; 32];
const PEER: [u8; 32] = [2; 32];
const ANCHOR: [u8; 32] = [0xA0; 32];

fn t(s: &str) -> String {
    s.to_string()
}

fn anchor(n: [u8; 32], addr: &str) -> BootstrapNode {
    BootstrapNode { id: n, endpoints: vec![t(addr)] }
}

fn key(n: u8) -> CompositePublicKey {
    CompositePublicKey { bytes: vec![n; COMPOSITE_PUB_LEN], fingerprint: [n; 32] }
}

fn genesis() -> Genesis {
    Genesis { wire: vec![9], channel_id: ROOM, creator: key(1), service_grant: vec![] }
}

fn channel() -> ChannelState {
    let sender =
        SenderChain { author_id: ME, chain_id: 0, next_iteration: 0, state: vec![1, 0] };
    let new = NewChannel { genesis: genesis(), key: key(1), sender, origin_state: vec![] };
    ChannelState::create_with_grant(new, "den", Secret::new(b"pw".to_vec()), 5, vec![0]).unwrap().0
}

/// A node that is up: unlocked, networked, with one anchor and nothing open.
fn up() -> NodeCore {
    let set = BootstrapSet { nodes: vec![anchor(ANCHOR, "10.0.0.1:1")] };
    let mut n = NodeCore::new(true, false, true, false, set);
    let (out, _) = n.unlock(Ok(()), Ok(()), Ok(Table::new()), Ok(()));
    assert_eq!(out, Outcome::Done);
    n
}

/// The same with a room open.
fn in_room() -> NodeCore {
    let mut n = up();
    assert_eq!(n.create_channel(Ok((ROOM, 0))).0, Outcome::Done);
    n
}

#[test]
fn a_configuration_is_built() {
    let c = NodeConfig::new().anchor_logs(true).headless().bind(t("0.0.0.0:0"));
    assert!(c.anchor_logs && c.headless);
    assert_eq!(c.bind, Some(t("0.0.0.0:0")));
    let set = BootstrapSet { nodes: vec![anchor(ANCHOR, "x:1")] };
    assert_eq!(c.anchors(set).anchors.nodes.len(), 1);
}

#[test]
fn faults_are_told_from_errors() {
    assert_eq!(fault_of(&Error::Profile("locked")), Fault::Locked);
    assert_eq!(fault_of(&Error::Profile("no identity in this profile")), Fault::NoIdentity);
    assert_eq!(fault_of(&Error::Profile("anything else")), Fault::Internal);
    assert_eq!(fault_of(&Error::AtRestUnlockFailed), Fault::WrongPassphrase);
    assert_eq!(fault_of(&Error::SizeLimitExceeded("x")), Fault::TooLong);
    assert_eq!(fault_of(&Error::MalformedLink("x")), Fault::BadLink);
    assert_eq!(fault_of(&Error::JoinRefused("x")), Fault::Refused);
    assert_eq!(
        fault_of(&Error::MalformedGovernance("no consent to revoke")),
        Fault::NotConsented
    );
    assert_eq!(fault_of(&Error::MalformedGovernance("x")), Fault::Internal);
}

#[test]
fn mappings_are_renewed_at_half_the_shortest_lifetime() {
    assert_eq!(renew_at(100, &vec![7200, 60, 0]), Some(130));
    assert_eq!(renew_at(100, &vec![1]), Some(101));
    assert_eq!(renew_at(100, &vec![0]), None);
    assert_eq!(renew_at(100, &vec![]), None);
}

#[test]
fn a_locked_node_holds_nothing() {
    let mut n = in_room();
    n.ensure_session(ROOM, PEER, true);
    let effects = n.lock_all();
    assert_eq!(
        effects,
        vec![
            Effect::LockChannel(ROOM),
            Effect::CloseNetwork,
            Effect::LockVault,
            Effect::Emit(NodeEvent::Locked)
        ]
    );
    assert!(!n.unlocked && !n.networked && !n.prekeys);
    assert_eq!((n.channels.len(), n.sessions.len(), n.trusted.len()), (0, 0, 0));
}

#[test]
fn an_unlock_that_fails_half_way_locks_again() {
    let mut n = NodeCore::new(true, false, true, false, BootstrapSet::new());
    let (out, _) = n.unlock(Err(Error::AtRestUnlockFailed), Ok(()), Ok(Table::new()), Ok(()));
    assert_eq!(out, Outcome::Failed(Fault::WrongPassphrase));
    let (out, effects) = n.unlock(Ok(()), Ok(()), Ok(Table::new()), Err(Error::Unreachable("bind")));
    assert_eq!(out, Outcome::Failed(Fault::Unreachable));
    assert!(!n.unlocked);
    assert!(effects.contains(&Effect::LockVault));
    let mut bare = NodeCore::new(false, false, true, false, BootstrapSet::new());
    assert_eq!(
        bare.unlock(Ok(()), Ok(()), Ok(Table::new()), Ok(())).0,
        Outcome::Failed(Fault::NoIdentity)
    );
    assert_eq!(bare.create_identity(Ok(()), Ok(()), Ok(Table::new()), Ok(())), Outcome::Done);
    assert_eq!(
        bare.create_identity(Ok(()), Ok(()), Ok(Table::new()), Ok(())),
        Outcome::Failed(Fault::IdentityExists)
    );
}

#[test]
fn prekeys_that_were_loaded_are_held_without_a_keyring() {
    let made = |prekeys, keyring| {
        let mut n = NodeCore::new(false, false, true, false, BootstrapSet::new());
        let out = n.create_identity(Ok(()), prekeys, keyring, Ok(()));
        (out, n.prekeys, n.networked)
    };
    let storage = Outcome::Failed(Fault::Storage);
    assert_eq!(made(Ok(()), Err(Error::Storage)), (storage.clone(), true, false));
    assert_eq!(made(Err(Error::Storage), Ok(Table::new())), (storage.clone(), false, false));
    assert_eq!(made(Ok(()), Ok(Table::new())), (Outcome::Done, true, true));
    // An unlock that cannot load either is a lock again.
    let mut n = NodeCore::new(true, false, true, false, BootstrapSet::new());
    assert_eq!(n.unlock(Ok(()), Ok(()), Err(Error::Storage), Ok(())).0, storage);
    assert!(!n.unlocked && !n.prekeys);
}

#[test]
fn stopping_gives_permanent_mappings_back() {
    let mut n = up();
    let mappings = vec![
        PortMapping { upnp: true, lifetime_secs: 0, internal_port: 4000 },
        PortMapping { upnp: true, lifetime_secs: 3600, internal_port: 4001 },
    ];
    n.handle_net(NetEvent::AddressesDiscovered { mappings }, 100);
    assert_eq!(n.renew_mappings_at, Some(1900));
    assert!(!n.renew_mappings_if_due(1899));
    assert!(n.renew_mappings_if_due(1900));
    assert!(!n.renew_mappings_if_due(1900));
    let effects = n.stop_network();
    assert_eq!(effects[0], Effect::CloseNetwork);
    assert!(effects.contains(&Effect::Unmap(4000)));
}

#[test]
fn a_room_is_opened_published_and_closed() {
    let mut n = up();
    let (out, effects) = n.open_channel(ROOM, Ok(0));
    assert_eq!(out, Outcome::Done);
    assert_eq!(
        effects,
        vec![
            Effect::AdoptAnchors(ROOM),
            Effect::RefreshView,
            Effect::PublishLocally(ROOM),
            Effect::PublishToAnchors(ROOM),
            Effect::Emit(NodeEvent::ChannelOpened { channel_id: ROOM })
        ]
    );
    assert_eq!(n.open_channel(ROOM, Err(Error::Storage)), (Outcome::Done, vec![]));
    assert!(n.is_open(&ROOM));
    let (out, effects) = n.close_channel(ROOM);
    assert_eq!(out, Outcome::Done);
    assert_eq!(
        effects,
        vec![
            Effect::LockChannel(ROOM),
            Effect::ForgetMembers(ROOM),
            Effect::RefreshView,
            Effect::Emit(NodeEvent::ChannelClosed { channel_id: ROOM })
        ]
    );
    assert_eq!(n.close_channel(ROOM).0, Outcome::Failed(Fault::ChannelNotOpen));
}

#[test]
fn a_service_room_is_made_whole_or_not_at_all() {
    let r = service_room(8080, None);
    assert_eq!((r.service_tag.as_str(), r.local.as_str()), ("8080", "127.0.0.1:8080"));
    let r = service_room(7, Some(t("10.0.0.5:9")));
    assert_eq!((r.service_tag.as_str(), r.local.as_str()), ("7", "10.0.0.5:9"));
    assert_eq!(service_room(0, None).service_tag, "0");
    assert_eq!(service_room(65535, None).local, "127.0.0.1:65535");
    let mut n = up();
    // A room whose service cannot be offered is taken out of the store again, and is no news.
    let (out, effects) = n.serve_room(Ok((ROOM, 0)), Err(Error::Storage));
    assert_eq!(out, Outcome::Failed(Fault::Storage));
    assert_eq!(effects, vec![Effect::DropChannel(ROOM)]);
    assert!(!n.is_open(&ROOM));
    // One that could not be made leaves nothing to take out.
    let (out, effects) = n.serve_room(Err(Error::Storage), Ok(()));
    assert_eq!((out, effects.len()), (Outcome::Failed(Fault::Storage), 0));
    assert_eq!(n.serve_room(Ok((ROOM, 0)), Ok(())).0, Outcome::Done);
    assert!(n.is_open(&ROOM));
}

#[test]
fn a_text_is_pushed_and_re_keyed_after_a_rotation() {
    let mut n = in_room();
    let row = || MessageRow {
        entry_hash: [7; 32],
        author: ME,
        created_millis: 1,
        text: t("hi"),
        arrival: 0,
        late: false,
    };
    let (out, effects) = n.send_text(ROOM, Ok(row()), true);
    assert_eq!(out, Outcome::Done);
    assert_eq!(
        effects,
        vec![
            Effect::Emit(NodeEvent::NewEntry { channel_id: ROOM, row: row() }),
            Effect::PushAppend,
            Effect::DeliverRekeys(ROOM)
        ]
    );
    assert_eq!(
        n.channels_due(&PEER, SyncTrigger::LocalAppend, &vec![ROOM], &vec![]),
        vec![ROOM]
    );
    n.syncs_done();
    assert_eq!(n.channels_due(&PEER, SyncTrigger::LocalAppend, &vec![ROOM], &vec![]).len(), 0);
    assert_eq!(
        n.channels_due(&PEER, SyncTrigger::Connected, &vec![ROOM], &vec![]),
        vec![ROOM]
    );
    assert_eq!(n.channels_due(&PEER, SyncTrigger::Connected, &vec![], &vec![]).len(), 0);
    // An anchor takes part in every room.
    assert_eq!(
        n.channels_due(&ANCHOR, SyncTrigger::Interval, &vec![], &vec![]),
        vec![ROOM]
    );
    assert_eq!(
        n.send_text([9; 32], Ok(row()), false).0,
        Outcome::Failed(Fault::ChannelNotOpen)
    );
}

#[test]
fn removing_trust_changes_the_lock() {
    let mut n = in_room();
    let (out, effects) = n.trust_identity(PEER, t("bo"), Ok(()), Ok(()), Ok(()));
    assert_eq!(out, Outcome::Done);
    assert_eq!(
        effects,
        vec![Effect::RefreshReachers, Effect::DeliverConsents, Effect::Publish]
    );
    // Whoever is still trusted is not revoked.
    assert_eq!(n.revoke(ROOM, &PEER, Ok(1)).0, Err(Fault::StillTrusted));
    assert!(matches!(
        n.handle(&NodeCommand::Revoke { channel_id: ROOM, target: PEER }),
        Some(Outcome::Failed(Fault::StillTrusted))
    ));
    let (out, effects) = n.untrust_identity(PEER, Ok(()), Ok(()));
    assert_eq!(out, Outcome::Done);
    assert_eq!(
        effects,
        vec![Effect::RefreshReachers, Effect::ChangeLock(PEER), Effect::Publish]
    );
    assert_eq!(n.change_the_lock_against(&vec![ROOM, [9; 32]]), vec![ROOM]);
    assert_eq!(n.change_the_lock_against(&vec![]).len(), 0);
    assert_eq!(
        n.revoke(ROOM, &PEER, Ok(1)),
        (Ok(1), vec![Effect::PushAppend, Effect::DeliverRekeys(ROOM)])
    );
    assert_eq!(
        n.untrust_identity(PEER, Ok(()), Ok(())).0,
        Outcome::Failed(Fault::NotConsented)
    );
}

#[test]
fn services_are_reached_by_trusted_authors_only() {
    let mut n = in_room();
    n.trust_identity(PEER, t("bo"), Ok(()), Ok(()), Ok(()));
    n.trust_identity([3; 32], t("cy"), Ok(()), Ok(()), Ok(()));
    assert_eq!(n.refresh_reachers(&vec![vec![ME, PEER, [4; 32]]]).len(), 0);
    assert_eq!(n.reachers.get(&ROOM), Some(&vec![PEER]));
    assert_eq!(n.host_snapshot(&vec![ROOM]), vec![ROOM]);
    assert_eq!(n.host_snapshot(&vec![]).len(), 0);
    n.close_channel(ROOM);
    assert_eq!(n.refresh_reachers(&vec![]), vec![ROOM]);
}

#[test]
fn forwards_are_local_and_stopped_by_their_address() {
    let mut n = in_room();
    let f = || ForwardInfo {
        channel_id: ROOM,
        host: PEER,
        service_tag: t("22"),
        local: t("127.0.0.1:4001"),
    };
    assert_eq!(n.may_forward(&ROOM, false), Err(Fault::NotLoopback));
    assert_eq!(n.forward(&ROOM, false, Ok(()), Ok(f())).0, Outcome::Failed(Fault::NotLoopback));
    assert_eq!(
        n.forward(&ROOM, true, Err(Error::Unreachable("x")), Ok(f())).0,
        Outcome::Failed(Fault::Unreachable)
    );
    let (out, ev) = n.forward(&ROOM, true, Ok(()), Ok(f()));
    assert_eq!(out, Outcome::Done);
    assert!(matches!(ev, Some(NodeEvent::Forwarding { .. })));
    assert_eq!(n.stop_forward(&t("127.0.0.1:9")), Outcome::Failed(Fault::UnknownChannel));
    assert_eq!(n.stop_forward(&t("127.0.0.1:4001")), Outcome::Done);
    assert_eq!(n.add_service(&ROOM, Ok(())), Outcome::Done);
    assert_eq!(n.remove_service(&ROOM, Ok(false)), Outcome::Failed(Fault::UnknownChannel));
    assert_eq!(
        n.grant_tunnel(ROOM, false, Ok(())).0,
        Outcome::Failed(Fault::UnknownChannel)
    );
    assert_eq!(n.grant_tunnel(ROOM, true, Ok(())), (Outcome::Done, vec![Effect::PushAppend]));
    let (out, ev) = n.bring_up(ROOM, true, Ok(()), Some(t("127.0.0.1:9")));
    assert_eq!(out, Outcome::Done);
    match ev {
        Some(NodeEvent::ProxyUp { hostname, .. }) => assert!(hostname.ends_with(".vox")),
        other => panic!("{other:?}"),
    }
    assert_eq!(n.bring_up(ROOM, false, Ok(()), None).0, Outcome::Failed(Fault::Refused));
}

#[test]
fn an_invitation_names_its_room_and_its_anchors() {
    let n = in_room();
    let (out, ev) = n.invite(ROOM, &vec![], None, ME);
    assert_eq!(out, Outcome::Done);
    let Some(NodeEvent::InviteLink { url, .. }) = ev else {
        panic!("a link");
    };
    let parsed: Vec<Option<String>> = link_addresses(&url).into_iter().map(Some).collect();
    let link = InviteLink::parse(&url, &parsed).unwrap();
    assert_eq!(link.channel_id, ROOM);
    assert_eq!(link.responder, Some(ME));
    assert_eq!(link.anchors, vec![anchor(ANCHOR, "10.0.0.1:1")]);
    assert_eq!(n.invite([9; 32], &vec![], None, ME).0, Outcome::Failed(Fault::UnknownChannel));
}

#[test]
fn routes_name_each_anchor_once() {
    let a = || anchor([10; 32], "a:1");
    let b = || anchor([11; 32], "b:1");
    let mine = || anchor(ME, "m:1");
    let ids = |v: Vec<BootstrapNode>| v.iter().map(|n| n.id[0]).collect::<Vec<u8>>();
    assert_eq!(
        ids(board_routes(&vec![a(), mine()], &vec![b(), a()], &vec![], &ME)),
        vec![10, 11]
    );
    assert_eq!(ids(learned_anchors(&vec![a(), mine()], &vec![b(), a()], &ME)), vec![10, 11]);
    assert_eq!(ids(to_dial(&vec![a(), b(), mine()], &ME, &vec![[11; 32]])), vec![10]);
    let many: Vec<BootstrapNode> = (20..30).map(|n| anchor([n; 32], "x:1")).collect();
    assert_eq!(invite_anchors(&vec![a()], &many, Some(mine())).len(), 4);
    assert_eq!(ids(invite_anchors(&vec![a()], &vec![a(), b()], None)), vec![10, 11]);
}

#[test]
fn a_rooms_anchors_become_the_nodes() {
    let mut n = in_room();
    let theirs = vec![anchor([10; 32], "a:1"), anchor(ME, "m:1"), anchor(ANCHOR, "10.0.0.1:1")];
    let dial = n.adopt_channel_anchors(&ROOM, &theirs, &ME, &vec![ANCHOR]);
    assert_eq!(dial, vec![anchor([10; 32], "a:1")]);
    assert!(n.anchor_ids.contains_key(&[10; 32]));
    assert!(!n.anchor_ids.contains_key(&ME));
    assert_eq!(n.adopt_channel_anchors(&[9; 32], &theirs, &ME, &vec![]).len(), 0);
}

#[test]
fn anchors_are_redialled_and_relayed_peers_retried_now_and_again() {
    let mut n = in_room();
    assert_eq!(n.redial_anchors_if_due(100, &ME, &vec![]).len(), 1);
    assert_eq!(n.redial_anchors_if_due(129, &ME, &vec![]).len(), 0);
    assert_eq!(n.redial_anchors_if_due(130, &ME, &vec![ANCHOR]).len(), 0);
    assert!(n.dialled(PEER, true, 1000));
    assert!(!n.dialled([3; 32], false, 1000));
    assert_eq!(n.retry_upgrades_if_due(&vec![PEER], 1059).len(), 0);
    assert_eq!(n.retry_upgrades_if_due(&vec![PEER], 1060), vec![PEER]);
    assert_eq!(n.retry_upgrades_if_due(&vec![PEER], 1061).len(), 0);
    assert_eq!(n.next_record_seq(ROOM), 1);
    assert_eq!(n.next_record_seq(ROOM), 2);
}

#[test]
fn network_work_is_taken_up() {
    let mut n = in_room();
    assert_eq!(
        n.adopt_connection(PEER, 7),
        vec![Effect::ServeStreams(7), Effect::Schedule(PEER)]
    );
    assert_eq!(n.adopt_connection(PEER, 7), vec![Effect::Schedule(PEER)]);
    assert_eq!(
        n.handle_net(NetEvent::Stream(Inbound::Join { peer: PEER }), 0),
        vec![Effect::AnswerJoin(PEER)]
    );
    assert_eq!(n.handle_net(NetEvent::Stream(Inbound::Served), 0).len(), 0);
    let done = |applied, rendered| NetEvent::SyncDone {
        channel_id: ROOM,
        outcome: Ok(SyncOutcome { applied, governance: 0, rendered }),
    };
    let effects = n.handle_net(done(3, 1), 0);
    assert!(effects
        .iter()
        .any(|e| matches!(e, Effect::Emit(NodeEvent::Synced { applied: 3, rendered: 1, .. }))));
    assert!(!n
        .handle_net(done(0, 0), 0)
        .iter()
        .any(|e| matches!(e, Effect::Emit(_))));
    n.handle_net(NetEvent::Stopped, 0);
    assert!(!n.networked);
}

#[test]
fn sessions_run_against_the_room_or_the_copy() {
    let mut n = in_room();
    assert_eq!(n.session_target(&ROOM, 0), Some(SessionTarget::Channel));
    assert_eq!(n.session_target(&ROOM, 1), None);
    assert_eq!(n.sync_channel(&ROOM, &vec![ME, PEER], &ME), Ok(vec![PEER]));
    assert_eq!(n.sync_channel(&[9; 32], &vec![], &ME), Err(Fault::UnknownChannel));
    assert_eq!(synced_with(0), Outcome::Failed(Fault::Unreachable));
    assert_eq!(synced_with(2), Outcome::Done);
    assert!(!n.adopt_anchored([8; 32], Ok(0)));
    n.anchor_logs = true;
    assert_eq!(n.adopt_anchored_from_board(&vec![ROOM, [8; 32]]), vec![[8; 32]]);
    assert!(n.adopt_anchored([8; 32], Ok(0)));
    assert!(!n.adopt_anchored([8; 32], Ok(0)));
    assert!(!n.adopt_anchored(ROOM, Ok(0)));
    assert_eq!(n.session_target(&[8; 32], 0), Some(SessionTarget::Anchored));
    // An open channel goes first; the copy is kept beside it.
    n.open_channel([8; 32], Ok(0));
    assert_eq!(n.session_target(&[8; 32], 0), Some(SessionTarget::Channel));
    assert!(n.anchored.contains_key(&[8; 32]));
    n.close_channel([8; 32]);
    assert_eq!(n.session_target(&[8; 32], 0), Some(SessionTarget::Anchored));
}

#[test]
fn a_session_is_accepted_once_and_never_reset() {
    let mut n = in_room();
    let names = InitNames { signed_prekey_id: 1, one_time_prekey_id: Some(2) };
    let hello = |n: &mut NodeCore, author, used, saved| {
        n.accept_hello(ROOM, PEER, Some(names), author, used, saved, true, true)
    };
    assert!(!hello(&mut n, false, OneTimeUse::Fresh, true));
    assert!(!hello(&mut n, true, OneTimeUse::Unknown, true));
    assert!(!hello(&mut n, true, OneTimeUse::Fresh, false));
    assert!(hello(&mut n, true, OneTimeUse::Reused, true));
    assert!(n.sessions.contains_key(&PairSlot { channel_id: ROOM, peer: PEER }));
    assert!(!n.ensure_session(ROOM, PEER, true));
    assert!(n.ensure_session(ROOM, [3; 32], true));
    assert!(n.answers_join(&ROOM, 0, true));
    assert!(!n.answers_join(&ROOM, 0, false));
    assert!(!n.answers_join(&ROOM, 1, true));
    assert_eq!(
        n.answer_inbound_join(ROOM, [4; 32], true),
        vec![
            Effect::RefreshView,
            Effect::PublishToAnchors(ROOM),
            Effect::ForgetJoiner([4; 32]),
            Effect::Emit(NodeEvent::PeerJoined { channel_id: ROOM, peer: [4; 32] })
        ]
    );
}

#[test]
fn control_frames_lead_where_they_should() {
    let hello = || PairwiseFrame::Hello { channel_id: ROOM, initial: vec![1] };
    assert_eq!(
        take_control(Some(hello()), false),
        ControlStep::Accept { channel_id: ROOM, initial: vec![1] }
    );
    assert_eq!(take_control(Some(hello()), true), ControlStep::Stop);
    assert_eq!(
        take_control(Some(PairwiseFrame::Skdm { channel_id: ROOM, sealed: vec![2] }), true),
        ControlStep::TakeKey { channel_id: ROOM, sealed: vec![2] }
    );
    assert_eq!(take_control(None, false), ControlStep::Stop);
    assert!(matches!(
        key_news(ROOM, PEER, Ok(3)),
        Some(NodeEvent::SenderKeyReceived { backfilled: 3, .. })
    ));
    assert_eq!(key_news(ROOM, PEER, Err(Error::Storage)), None);
}

#[test]
fn a_key_is_delivered_before_the_grant_is_recorded() {
    let n = in_room();
    let mut r = KeyRelease::begin(&n, ROOM, PEER, true).unwrap();
    assert_eq!(r.minted(Ok(()), true, true), Ok(()));
    assert_eq!(r.delivered(Ok(())), Ok(()));
    let (out, ev) = r.recorded(Ok(()));
    assert_eq!(out, Outcome::Done);
    assert_eq!(ev, Some(NodeEvent::Consented { channel_id: ROOM, target: PEER }));
    let mut r = KeyRelease::begin(&n, ROOM, PEER, true).unwrap();
    assert_eq!(r.minted(Ok(()), true, false), Err(Fault::Unreachable));
    assert_eq!(
        KeyRelease::begin(&n, ROOM, PEER, false).unwrap_err(),
        Fault::UnknownChannel
    );
    let mut round = RekeyRound::begin(&n, &ROOM, vec![PEER, [3; 32]], true).unwrap();
    assert_eq!(round.next(), Some(PEER));
    round.tried(true, true);
    round.tried(false, false);
    assert_eq!(round.next(), None);
    assert_eq!(round.delivered, 1);
    assert!(RekeyRound::begin(&n, &ROOM, vec![], true).is_none());
}

#[test]
fn a_key_is_published_with_its_evidence_only() {
    let own = || Ok(OwnRecords { address: vec![2], bundle: vec![3] });
    assert_eq!(
        publish_channel_to_anchor(vec![1], true, own(), vec![vec![4]]),
        vec![vec![1], vec![2], vec![3], vec![4]]
    );
    assert_eq!(publish_channel_to_anchor(vec![1], false, own(), vec![vec![4]]).len(), 0);
    assert_eq!(
        publish_channel_locally(vec![1], true, own()),
        vec![vec![1], vec![2], vec![3]]
    );
    assert_eq!(publish_channel_locally(vec![1], false, own()), vec![vec![1]]);
    assert_eq!(publish_channel_locally(vec![1], true, Err(Error::Storage)), vec![vec![1]]);
    assert_eq!(
        learned_records(vec![vec![1]], vec![vec![2]]),
        vec![vec![1], vec![2]]
    );
    assert!(gained(&vec![false, true]));
    assert!(!gained(&vec![false]));
}

#[test]
fn a_board_is_looked_for_until_patience_ends() {
    assert_eq!(BoardHunt::begin(0, 0), None);
    let mut h = BoardHunt::begin(2, 1000).unwrap();
    assert_eq!(h.unanswered(1000), HuntStep::Next);
    assert_eq!(h.unanswered(1000), HuntStep::Pause);
    assert_eq!(h.unanswered(40_000), HuntStep::Next);
    assert_eq!(h.unanswered(40_000), HuntStep::GiveUp);
    assert_eq!(after_stream(3, Accepting::Served), Some(0));
    assert_eq!(after_stream(3, Accepting::Failed), Some(4));
    assert_eq!(after_stream(15, Accepting::Failed), None);
    assert_eq!(after_stream(0, Accepting::Closed), None);
    let p = refresh_network_view(&vec![vec![ME, PEER], vec![PEER]], vec![ANCHOR], vec![]);
    assert_eq!(p.members.len(), 2);
    let t = path_view(&vec![(PEER, true), (ME, false)]);
    assert_eq!(t.len(), 1);
}

#[test]
fn board_records_are_admitted_with_a_chain_of_witnesses() {
    let mut ch = channel();
    let record = |n: u8, by: u8| BoardRecord {
        key: Ok(key(n)),
        verified: true,
        admission: Admission::Witnessed(JoinWitness { witness_id: [by; 32], wire: vec![] }),
        witness: Ok(()),
    };
    // The witness of the first is admitted by the second.
    let records = vec![record(3, 2), record(2, 1), record(5, 4)];
    let (n, writes) = admit_board_records(&mut ch, &records, MAX_ADMISSIONS_PER_SWEEP);
    assert_eq!((n, writes.len()), (2, 2));
    assert!(ch.is_author(&[2; 32]) && ch.is_author(&[3; 32]));
    assert!(!ch.is_author(&[5; 32]));
    let mut ch = channel();
    let many: Vec<BoardRecord> = (10..30).map(|n| record(n, 1)).collect();
    assert_eq!(admit_board_records(&mut ch, &many, MAX_ADMISSIONS_PER_SWEEP).0, 8);
    // The first ones, in the order of the board.
    assert!(ch.is_author(&[17; 32]) && !ch.is_author(&[18; 32]));
    let forged = BoardRecord { verified: false, ..record(40, 1) };
    assert_eq!(admit_board_records(&mut ch, &vec![forged], 8).0, 0);
}

#[test]
fn a_join_runs_from_the_link_to_the_room() {
    let mut n = up();
    let link = InviteLink::new(ROOM, vec![anchor(ANCHOR, "10.0.0.1:1")], Some(PEER)).unwrap();
    let url = link.to_url();
    let parsed: Vec<Option<String>> = link_addresses(&url).into_iter().map(Some).collect();
    let (mut run, routes) = JoinRun::begin(&n, &url, &parsed, ME, &vec![]).unwrap();
    assert_eq!(routes, vec![anchor(ANCHOR, "10.0.0.1:1")]);
    run.on_board(&mut n, Some(ANCHOR)).unwrap();
    let set = |endpoints: Vec<String>| BoardSet {
        genesis: Some(genesis()),
        members: vec![MemberRecord { author_id: PEER, endpoints }],
        bundles: vec![],
    };
    run.on_fetched(Ok(set(vec![]))).unwrap();
    assert!(run.lacks_address());
    let wait = AddressWait::begin(1_000);
    assert_eq!(wait.pause(&run, 1_000), Some(250));
    assert!(!run.on_polled(Ok(set(vec![]))));
    assert_eq!(wait.pause(&run, 20_999), Some(250));
    assert_eq!(wait.pause(&run, 21_000), None);
    assert!(run.on_polled(Ok(set(vec![t("10.0.0.2:2")]))));
    assert!(!run.lacks_address());
    assert_eq!(wait.pause(&run, 1_500), None);
    assert_eq!(AddressWait::begin(u64::MAX).deadline, u64::MAX);
    run.on_announcement(&n, Ok(())).unwrap();
    run.on_put(Err(Error::RendezvousRejected("known"))).unwrap();
    assert_eq!(run.stage, JoinStage::Reach);
    run.on_reached(Ok(()), Ok(())).unwrap();
    let witness = JoinWitness { witness_id: PEER, wire: vec![1] };
    let admission = run.on_exchanged(&n, Ok(()), Ok(witness)).unwrap();
    assert!(matches!(admission, Admission::Witnessed(_)));
    run.on_made(&mut n, Ok(0)).unwrap();
    run.on_recorded(Ok(())).unwrap();
    let (effects, anchors) = run.take_up(&mut n);
    assert!(n.is_open(&ROOM));
    assert!(n.sessions.contains_key(&PairSlot { channel_id: ROOM, peer: PEER }));
    assert_eq!(
        effects.last(),
        Some(&Effect::Emit(NodeEvent::Joined { channel_id: ROOM, responder: PEER }))
    );
    assert_eq!(anchors.len(), 1);
    // Who is a member already does not join again.
    assert!(matches!(
        JoinRun::begin(&n, &url, &parsed, ME, &vec![]),
        Err(Fault::IdentityExists)
    ));
}

#[test]
fn a_join_stops_where_it_cannot_go_on() {
    let mut n = up();
    let url = InviteLink::new(ROOM, vec![anchor(ANCHOR, "10.0.0.1:1")], None).unwrap().to_url();
    let parsed: Vec<Option<String>> = link_addresses(&url).into_iter().map(Some).collect();
    assert!(matches!(
        JoinRun::begin(&n, "nonsense", &vec![], ME, &vec![]),
        Err(Fault::BadLink)
    ));
    let (mut run, _) = JoinRun::begin(&n, &url, &parsed, ME, &vec![]).unwrap();
    assert_eq!(run.on_board(&mut n, None), Err(Fault::Unreachable));
    let (mut run, _) = JoinRun::begin(&n, &url, &parsed, ME, &vec![]).unwrap();
    run.on_board(&mut n, Some(ANCHOR)).unwrap();
    let empty = BoardSet { genesis: Some(genesis()), members: vec![], bundles: vec![] };
    assert_eq!(run.on_fetched(Ok(empty)), Err(Fault::BadLink));
    let locked = NodeCore::new(true, false, true, false, BootstrapSet::new());
    assert!(matches!(
        JoinRun::begin(&locked, &url, &parsed, ME, &vec![]),
        Err(Fault::NotNetworked)
    ));
}

#[test]
fn a_view_shows_what_the_node_holds() {
    let mut n = in_room();
    n.trust_identity(PEER, t("bo"), Ok(()), Ok(()), Ok(()));
    let mut kept = Table::new();
    kept.insert([8; 32], 12u64);
    let mut relayed = Table::new();
    relayed.insert(PEER, true);
    let row = |id| AnchoredChannel { channel_id: id, members: 1, pending: 0, entries: None };
    let out = Outlook {
        listening: vec![t("10.0.0.9:1")],
        known: vec![ROOM, [9; 32]],
        board: vec![row([8; 32]), row([9; 32])],
        kept,
        relayed,
        relaying: 2,
    };
    let rooms = vec![OpenRoom { channel: channel(), mlocked: false, order: vec![([7; 32], 1)] }];
    let me = IdentityInfo { fingerprint: ME, created: 5 };
    let v = view_of(&n, Some(me), &rooms, out);
    assert_eq!(v.identity, Some(me));
    assert!(!v.locked);
    assert!(!v.mlock_active);
    assert_eq!(v.channels.len(), 2);
    assert_eq!(v.channels[0].local_name, Some(t("den")));
    assert!(v.channels[0].open && !v.channels[1].open);
    assert_eq!(v.open_channels[0].members, vec![ME]);
    assert_eq!(v.open_channels[0].order, vec![([7; 32], 1)]);
    assert_eq!(v.anchoring[0].entries, Some(12));
    assert_eq!(v.anchoring[1].entries, None);
    assert_eq!(v.trusted, vec![(PEER, t("bo"))]);
    assert_eq!(v.relayed_peers, vec![PEER]);
    assert_eq!(v.relaying, 2);
}

#[test]
fn an_outcome_is_done_or_failed() {
    assert!(Outcome::Done.is_done());
    assert!(!Outcome::Failed(Fault::Locked).is_done());
}

#[test]
fn due_passes_cover_what_is_shared() {
    let mut n = in_room();
    n.anchor_logs = true;
    assert!(n.adopt_anchored([0xD0; 32], Ok(0)));
    let kept = vec![[0xD0; 32]];
    n.note_local_append(ROOM);
    assert!(n.pending_push.contains_key(&ROOM));
    assert!(n.run_due_syncs(vec![]).is_none());
    assert!(n.pending_push.contains_key(&ROOM));
    let due = vec![
        (PEER, SyncTrigger::LocalAppend),
        ([3; 32], SyncTrigger::Interval),
        ([4; 32], SyncTrigger::Interval),
    ];
    let mut round = n.run_due_syncs(due).unwrap();
    assert_eq!(round.peer(), Some(PEER));
    assert_eq!(round.pass(&n, true, &vec![ROOM], &kept), Some(vec![ROOM]));
    assert_eq!(round.peer(), Some([3; 32]));
    assert_eq!(round.pass(&n, false, &vec![ROOM], &kept), None);
    // A peer that the first pass admitted is covered when its own turn comes.
    assert_eq!(round.peer(), Some([4; 32]));
    assert_eq!(round.pass(&n, true, &vec![ROOM], &kept), Some(vec![ROOM, [0xD0; 32]]));
    assert_eq!(round.peer(), None);
    assert!(n.pending_push.contains_key(&ROOM));
    round.finish(&mut n);
    assert!(!n.pending_push.contains_key(&ROOM));
    // Nothing was appended since.
    let mut round = n.run_due_syncs(vec![(PEER, SyncTrigger::LocalAppend)]).unwrap();
    assert_eq!(round.pass(&n, true, &vec![ROOM], &kept), Some(vec![]));
    assert_eq!(n.sync_one(&ROOM, true), Some(Preparation::LearnMembers));
    assert_eq!(n.sync_one(&[0xD0; 32], true), Some(Preparation::RefreshAuthors));
    assert_eq!(n.sync_one(&ROOM, false), None);
    assert_eq!(n.sync_one(&[9; 32], true), None);
}

#[test]
fn what_is_learned_reaches_the_anchors() {
    assert_eq!(learn_members(ROOM, 0, &vec![false]), vec![]);
    assert_eq!(
        learn_members(ROOM, 1, &vec![false, true]),
        vec![Effect::RefreshReachers, Effect::RefreshView, Effect::PublishToAnchors(ROOM)]
    );
    assert_eq!(refresh_anchored_authors(0), vec![]);
    assert_eq!(refresh_anchored_authors(2), vec![Effect::RefreshView]);
    let n = up();
    assert_eq!(n.publish_channel_to_anchors(&vec![PEER]), Vec::<[u8; 32]>::new());
    assert_eq!(n.publish_channel_to_anchors(&vec![PEER, ANCHOR]), vec![ANCHOR]);
}

#[test]
fn trusted_authors_are_consented_to_unasked() {
    let mut n = in_room();
    let room = || {
        let mut ch = channel();
        ch.admit_author(&key(2)).unwrap();
        ch.admit_author(&key(3)).unwrap();
        vec![OpenRoom { channel: ch, mlocked: true, order: vec![] }]
    };
    assert_eq!(n.deliver_owed_consents(&room(), &vec![vec![]]), vec![]);
    n.trust_identity(PEER, t("pat"), Ok(()), Ok(()), Ok(()));
    assert_eq!(n.deliver_owed_consents(&room(), &vec![vec![]]), vec![(ROOM, PEER)]);
    assert_eq!(n.deliver_owed_consents(&room(), &vec![vec![PEER]]), vec![]);
    n.stop_network();
    assert_eq!(n.deliver_owed_consents(&room(), &vec![vec![]]), vec![]);
}

#[test]
fn a_node_starts_with_its_copies_and_closed_rooms() {
    let mut n = NodeCore::new(false, true, true, true, BootstrapSet::new());
    n.start_network(Ok(())).unwrap();
    n.reopen_anchored(&vec![([0xD0; 32], Ok(7)), ([0xD1; 32], Err(Error::Storage))]);
    assert_eq!(n.anchored.get(&[0xD0; 32]), Some(&7));
    assert_eq!(n.anchored.get(&[0xD1; 32]), None);
    let v = publish_initial(&n, None, vec![ROOM], vec![t("127.0.0.1:9")]);
    assert!(v.locked && v.mlock_active);
    assert_eq!(v.listening, vec![t("127.0.0.1:9")]);
    assert_eq!((v.channels.len(), v.channels[0].channel_id, v.channels[0].open), (1, ROOM, false));
    assert_eq!((v.open_channels.len(), v.anchoring.len(), v.relaying), (0, 0, 0));
}

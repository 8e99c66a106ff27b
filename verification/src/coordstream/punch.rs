//! The two sides of a hole punch over a session that is carried for them: who says what
//! in which order, and what ends it.

use vstd::prelude::*;

use crate::coordstream::{CoordFrame, CoordRefusal};
use crate::error::Error;

verus! {

/// One signaling message, decoded.
#[derive(Debug, PartialEq, Eq)]
pub enum CoordMessage {
    /// The sender's addresses.
    Connect {
        /// The addresses, in multiaddr text.
        observed: Vec<String>,
    },
    /// Go.
    Sync,
}

/// When to dial, and where.
#[derive(Debug, PartialEq, Eq)]
pub struct PunchPlan {
    /// The addresses, in multiaddr text.
    pub targets: Vec<String>,
    /// How many milliseconds to wait first.
    pub fire_delay_ms: u64,
}

/// What the coordinator of the punch says comes next.
#[derive(Debug, PartialEq, Eq)]
pub enum PunchStep {
    /// A message is sent.
    Send(Vec<u8>),
    /// A go is sent, and the plan is fired.
    SyncThenPunch {
        /// The go.
        sync: Vec<u8>,
        /// The plan.
        plan: PunchPlan,
    },
    /// The plan is fired.
    Punch {
        /// The plan.
        plan: PunchPlan,
    },
}

/// What a coordinator's answer to a request for a session means: the session is up, or
/// why not.
pub fn open_punch_session(answer: CoordFrame) -> (r: Result<(), Error>)
    ensures
        match answer {
            CoordFrame::Relaying => r is Ok,
            CoordFrame::Refused { reason } => r == Err::<(), Error>(
                Error::HolePunchFailed(
                    match reason {
                        CoordRefusal::NotConnected => "coord: coordinator cannot reach the peer",
                        CoordRefusal::NotAuthorized => "coord: coordinator will not relay for us",
                        CoordRefusal::Capacity => "coord: coordinator is at capacity",
                    },
                ),
            ),
            _ => r == Err::<(), Error>(Error::HolePunchFailed("coord: coordinator did not relay")),
        },
{
    match answer {
        CoordFrame::Relaying => Ok(()),
        CoordFrame::Refused { reason } => Err(
            match reason {
                CoordRefusal::NotConnected => Error::HolePunchFailed(
                    "coord: coordinator cannot reach the peer",
                ),
                CoordRefusal::NotAuthorized => Error::HolePunchFailed(
                    "coord: coordinator will not relay for us",
                ),
                CoordRefusal::Capacity => Error::HolePunchFailed(
                    "coord: coordinator is at capacity",
                ),
            },
        ),
        _ => Err(Error::HolePunchFailed("coord: coordinator did not relay")),
    }
}

/// The signaling message that a frame carries.
pub fn recv_coord(frame: CoordFrame) -> (r: Result<Vec<u8>, Error>)
    ensures
        match frame {
            CoordFrame::Coord { payload } => r == Ok::<Vec<u8>, Error>(payload),
            CoordFrame::Refused { .. } => r == Err::<Vec<u8>, Error>(
                Error::HolePunchFailed("coord: session refused"),
            ),
            _ => r == Err::<Vec<u8>, Error>(
                Error::HolePunchFailed("coord: not a coordination message"),
            ),
        },
{
    match frame {
        CoordFrame::Coord { payload } => Ok(payload),
        CoordFrame::Refused { .. } => Err(Error::HolePunchFailed("coord: session refused")),
        _ => Err(Error::HolePunchFailed("coord: not a coordination message")),
    }
}

/// Which side of a punch a node is on.
#[derive(Debug, Clone, Copy, PartialEq, Eq, Structural)]
pub enum Role {
    /// The side that asked for it.
    Initiator,
    /// The other side.
    Responder,
}

/// How far a punch has come.
#[derive(Debug, Clone, Copy, PartialEq, Eq, Structural)]
pub enum PunchStage {
    /// Nothing is said yet.
    Start,
    /// The peer's addresses are awaited.
    AwaitConnect,
    /// The peer's addresses are known, and what comes next is to be decided.
    Decide,
    /// The peer's go is awaited.
    AwaitSync,
    /// The peer's go is here, and the plan is to be made.
    Plan,
    /// The plan is made, or the punch failed.
    Over,
}

/// One side of a punch.
#[derive(Debug, PartialEq, Eq)]
pub struct PunchRun {
    /// Which side.
    pub role: Role,
    /// How far it has come.
    pub stage: PunchStage,
}

/// What a side of a punch does next.
#[derive(Debug, PartialEq, Eq)]
pub enum PunchMove {
    /// It sends this, and awaits an answer.
    Send(CoordFrame),
    /// It sends a go, where there is one, and fires the plan.
    Fire {
        /// The go.
        sync: Option<CoordFrame>,
        /// The plan.
        plan: PunchPlan,
    },
}

/// A frame that carries a message.
pub open spec fn carried(message: Vec<u8>) -> CoordFrame {
    CoordFrame::Coord { payload: message }
}

impl PunchRun {
    /// A side at the start.
    pub fn new(role: Role) -> (p: PunchRun)
        ensures
            p.role == role,
            p.stage == (if role == Role::Initiator {
                PunchStage::Start
            } else {
                PunchStage::AwaitConnect
            }),
    {
        match role {
            Role::Initiator => PunchRun { role, stage: PunchStage::Start },
            Role::Responder => PunchRun { role, stage: PunchStage::AwaitConnect },
        }
    }

    /// What opening gives an initiator.
    pub open spec fn opening(
        before: PunchRun,
        after: PunchRun,
        opening: Option<Vec<u8>>,
        r: Result<CoordFrame, Error>,
    ) -> bool {
        &&& after.role == before.role
        &&& match opening {
            Some(m) => r == Ok::<CoordFrame, Error>(carried(m)) && after.stage
                == PunchStage::AwaitConnect,
            None => r is Err && after.stage == PunchStage::Over,
        }
    }

    /// What the peer's first message gives a side.
    pub open spec fn connecting(
        before: PunchRun,
        after: PunchRun,
        message: Result<CoordMessage, Error>,
        r: Result<Vec<String>, Error>,
    ) -> bool {
        &&& after.role == before.role
        &&& match message {
            Ok(CoordMessage::Connect { observed }) => r == Ok::<Vec<String>, Error>(observed)
                && after.stage == PunchStage::Decide,
            _ => r is Err && after.stage == PunchStage::Over,
        }
    }

    /// What the peer's addresses lead a side to.
    pub open spec fn deciding(
        before: PunchRun,
        after: PunchRun,
        step: Result<PunchStep, Error>,
        r: Result<PunchMove, Error>,
    ) -> bool {
        &&& after.role == before.role
        &&& match (step, before.role) {
            (Ok(PunchStep::SyncThenPunch { sync, plan }), Role::Initiator) => {
                &&& r == Ok::<PunchMove, Error>(
                    PunchMove::Fire { sync: Some(carried(sync)), plan },
                )
                &&& after.stage == PunchStage::Over
            },
            (Ok(PunchStep::Send(reply)), Role::Responder) => {
                &&& r == Ok::<PunchMove, Error>(PunchMove::Send(carried(reply)))
                &&& after.stage == PunchStage::AwaitSync
            },
            _ => r is Err && after.stage == PunchStage::Over,
        }
    }

    /// What the go gives a responder.
    pub open spec fn syncing(
        before: PunchRun,
        after: PunchRun,
        message: Result<CoordMessage, Error>,
        r: Result<(), Error>,
    ) -> bool {
        &&& after.role == before.role
        &&& match message {
            Ok(CoordMessage::Sync) => r is Ok && after.stage == PunchStage::Plan,
            _ => r is Err && after.stage == PunchStage::Over,
        }
    }

    /// What the go leads a responder to.
    pub open spec fn planning(
        before: PunchRun,
        after: PunchRun,
        step: Result<PunchStep, Error>,
        r: Result<PunchMove, Error>,
    ) -> bool {
        &&& after.role == before.role
        &&& after.stage == PunchStage::Over
        &&& match step {
            Ok(PunchStep::Punch { plan }) => r == Ok::<PunchMove, Error>(
                PunchMove::Fire { sync: None, plan },
            ),
            _ => r is Err,
        }
    }

    /// The initiator's first message, if there is one to send.
    pub fn open(&mut self, opening: Option<Vec<u8>>) -> (r: Result<CoordFrame, Error>)
        requires
            old(self).role == Role::Initiator,
            old(self).stage == PunchStage::Start,
        ensures
            PunchRun::opening(*old(self), *final(self), opening, r),
            final(self).role == old(self).role,
            match opening {
                Some(m) => {
                    &&& r == Ok::<CoordFrame, Error>(carried(m))
                    &&& final(self).stage == PunchStage::AwaitConnect
                },
                None => {
                    &&& r == Err::<CoordFrame, Error>(
                        Error::HolePunchFailed("coord: initiator has no opening"),
                    )
                    &&& final(self).stage == PunchStage::Over
                },
            },
    {
        match opening {
            Some(m) => {
                self.stage = PunchStage::AwaitConnect;
                Ok(CoordFrame::Coord { payload: m })
            },
            None => {
                self.stage = PunchStage::Over;
                Err(Error::HolePunchFailed("coord: initiator has no opening"))
            },
        }
    }

    /// Takes up the peer's first message, which gives its addresses.
    pub fn on_connect(&mut self, message: Result<CoordMessage, Error>) -> (r: Result<
        Vec<String>,
        Error,
    >)
        requires
            old(self).stage == PunchStage::AwaitConnect,
        ensures
            PunchRun::connecting(*old(self), *final(self), message, r),
            final(self).role == old(self).role,
            match message {
                Ok(CoordMessage::Connect { observed }) => {
                    &&& r == Ok::<Vec<String>, Error>(observed)
                    &&& final(self).stage == PunchStage::Decide
                },
                Ok(CoordMessage::Sync) => {
                    &&& r == Err::<Vec<String>, Error>(
                        Error::HolePunchFailed("coord: Sync before Connect"),
                    )
                    &&& final(self).stage == PunchStage::Over
                },
                Err(e) => {
                    &&& r == Err::<Vec<String>, Error>(e)
                    &&& final(self).stage == PunchStage::Over
                },
            },
    {
        match message {
            Ok(CoordMessage::Connect { observed }) => {
                self.stage = PunchStage::Decide;
                Ok(observed)
            },
            Ok(CoordMessage::Sync) => {
                self.stage = PunchStage::Over;
                Err(Error::HolePunchFailed("coord: Sync before Connect"))
            },
            Err(e) => {
                self.stage = PunchStage::Over;
                Err(e)
            },
        }
    }

    /// Takes up what the peer's addresses lead to: the initiator sends its go and fires,
    /// the responder replies and awaits the go.
    pub fn on_step(&mut self, step: Result<PunchStep, Error>) -> (r: Result<PunchMove, Error>)
        requires
            old(self).stage == PunchStage::Decide,
        ensures
            PunchRun::deciding(*old(self), *final(self), step, r),
            final(self).role == old(self).role,
            match (step, old(self).role) {
                (Err(e), _) => {
                    &&& r == Err::<PunchMove, Error>(e)
                    &&& final(self).stage == PunchStage::Over
                },
                (Ok(PunchStep::SyncThenPunch { sync, plan }), Role::Initiator) => {
                    &&& r == Ok::<PunchMove, Error>(
                        PunchMove::Fire { sync: Some(carried(sync)), plan },
                    )
                    &&& final(self).stage == PunchStage::Over
                },
                (Ok(PunchStep::Send(reply)), Role::Responder) => {
                    &&& r == Ok::<PunchMove, Error>(PunchMove::Send(carried(reply)))
                    &&& final(self).stage == PunchStage::AwaitSync
                },
                (Ok(_), Role::Initiator) => {
                    &&& r == Err::<PunchMove, Error>(
                        Error::HolePunchFailed("coord: initiator out of sequence"),
                    )
                    &&& final(self).stage == PunchStage::Over
                },
                (Ok(_), Role::Responder) => {
                    &&& r == Err::<PunchMove, Error>(
                        Error::HolePunchFailed("coord: responder out of sequence"),
                    )
                    &&& final(self).stage == PunchStage::Over
                },
            },
    {
        self.stage = PunchStage::Over;
        let step: PunchStep = step?;
        match (step, self.role) {
            (PunchStep::SyncThenPunch { sync, plan }, Role::Initiator) => Ok(
                PunchMove::Fire { sync: Some(CoordFrame::Coord { payload: sync }), plan },
            ),
            (PunchStep::Send(reply), Role::Responder) => {
                self.stage = PunchStage::AwaitSync;
                Ok(PunchMove::Send(CoordFrame::Coord { payload: reply }))
            },
            (_, Role::Initiator) => Err(Error::HolePunchFailed("coord: initiator out of sequence")),
            (_, Role::Responder) => Err(Error::HolePunchFailed("coord: responder out of sequence")),
        }
    }

    /// Takes up the initiator's go.
    pub fn on_sync(&mut self, message: Result<CoordMessage, Error>) -> (r: Result<(), Error>)
        requires
            old(self).role == Role::Responder,
            old(self).stage == PunchStage::AwaitSync,
        ensures
            PunchRun::syncing(*old(self), *final(self), message, r),
            final(self).role == old(self).role,
            match message {
                Ok(CoordMessage::Sync) => r is Ok && final(self).stage == PunchStage::Plan,
                Ok(CoordMessage::Connect { .. }) => {
                    &&& r == Err::<(), Error>(Error::HolePunchFailed("coord: duplicate Connect"))
                    &&& final(self).stage == PunchStage::Over
                },
                Err(e) => r == Err::<(), Error>(e) && final(self).stage == PunchStage::Over,
            },
    {
        self.stage = PunchStage::Over;
        match message {
            Ok(CoordMessage::Sync) => {
                self.stage = PunchStage::Plan;
                Ok(())
            },
            Ok(CoordMessage::Connect { .. }) => Err(
                Error::HolePunchFailed("coord: duplicate Connect"),
            ),
            Err(e) => Err(e),
        }
    }

    /// Takes up what the go leads to: the responder fires at once.
    pub fn on_plan(&mut self, step: Result<PunchStep, Error>) -> (r: Result<PunchMove, Error>)
        requires
            old(self).role == Role::Responder,
            old(self).stage == PunchStage::Plan,
        ensures
            PunchRun::planning(*old(self), *final(self), step, r),
            final(self).role == old(self).role,
            final(self).stage == PunchStage::Over,
            match step {
                Ok(PunchStep::Punch { plan }) => r == Ok::<PunchMove, Error>(
                    PunchMove::Fire { sync: None, plan },
                ),
                Ok(_) => r == Err::<PunchMove, Error>(
                    Error::HolePunchFailed("coord: responder out of sequence"),
                ),
                Err(e) => r == Err::<PunchMove, Error>(e),
            },
    {
        self.stage = PunchStage::Over;
        match step {
            Ok(PunchStep::Punch { plan }) => Ok(PunchMove::Fire { sync: None, plan }),
            Ok(_) => Err(Error::HolePunchFailed("coord: responder out of sequence")),
            Err(e) => Err(e),
        }
    }
}

/// Two sides of which one asked for the punch both come to fire: the one that asked sends
/// its addresses, then its go with the plan made of the other's; the other answers with its
/// own, and fires its plan once the go is there. `i` and `r` are the sides before and after
/// each step.
pub proof fn law_two_sides_fire(
    i: Seq<PunchRun>,
    r: Seq<PunchRun>,
    first: Vec<u8>,
    theirs: Vec<String>,
    ours: Vec<String>,
    reply: Vec<u8>,
    go: Vec<u8>,
    plans: (PunchPlan, PunchPlan),
    opened: Result<CoordFrame, Error>,
    heard: Result<Vec<String>, Error>,
    answered: Result<PunchMove, Error>,
    learned: Result<Vec<String>, Error>,
    fired: Result<PunchMove, Error>,
    told: Result<(), Error>,
    fired_too: Result<PunchMove, Error>,
)
    requires
        i.len() == 4,
        r.len() == 5,
        i[0].role == Role::Initiator,
        r[0].role == Role::Responder,
        PunchRun::opening(i[0], i[1], Some(first), opened),
        PunchRun::connecting(
            r[0],
            r[1],
            Ok::<CoordMessage, Error>(CoordMessage::Connect { observed: theirs }),
            heard,
        ),
        PunchRun::deciding(r[1], r[2], Ok::<PunchStep, Error>(PunchStep::Send(reply)), answered),
        PunchRun::connecting(
            i[1],
            i[2],
            Ok::<CoordMessage, Error>(CoordMessage::Connect { observed: ours }),
            learned,
        ),
        PunchRun::deciding(
            i[2],
            i[3],
            Ok::<PunchStep, Error>(PunchStep::SyncThenPunch { sync: go, plan: plans.0 }),
            fired,
        ),
        PunchRun::syncing(r[2], r[3], Ok::<CoordMessage, Error>(CoordMessage::Sync), told),
        PunchRun::planning(
            r[3],
            r[4],
            Ok::<PunchStep, Error>(PunchStep::Punch { plan: plans.1 }),
            fired_too,
        ),
    ensures
        opened == Ok::<CoordFrame, Error>(CoordFrame::Coord { payload: first }),
        heard == Ok::<Vec<String>, Error>(theirs),
        answered == Ok::<PunchMove, Error>(
            PunchMove::Send(CoordFrame::Coord { payload: reply }),
        ),
        learned == Ok::<Vec<String>, Error>(ours),
        fired == Ok::<PunchMove, Error>(
            PunchMove::Fire {
                sync: Some(CoordFrame::Coord { payload: go }),
                plan: plans.0,
            },
        ),
        told is Ok,
        fired_too == Ok::<PunchMove, Error>(PunchMove::Fire { sync: None, plan: plans.1 }),
        i[3].stage == PunchStage::Over && r[4].stage == PunchStage::Over,
        r[1].stage == PunchStage::Decide && r[2].stage == PunchStage::AwaitSync && r[3].stage
            == PunchStage::Plan,
{
}

/// A message out of its turn ends a punch on the side that gets it, and nothing is fired:
/// an initiator fires with a go, a responder never before it has one.
pub proof fn law_nothing_is_fired_out_of_turn(
    before: PunchRun,
    after: PunchRun,
    message: Result<CoordMessage, Error>,
    step: Result<PunchStep, Error>,
    heard: Result<Vec<String>, Error>,
    told: Result<(), Error>,
    moved: Result<PunchMove, Error>,
)
    ensures
        PunchRun::connecting(before, after, message, heard) && !(message is Ok && message->Ok_0
            is Connect) ==> heard is Err && after.stage == PunchStage::Over,
        PunchRun::syncing(before, after, message, told) && !(message is Ok && message->Ok_0 is Sync)
            ==> told is Err && after.stage == PunchStage::Over,
        PunchRun::deciding(before, after, step, moved) && moved is Ok && moved->Ok_0 is Fire
            ==> before.role == Role::Initiator && moved->Ok_0->sync is Some,
        PunchRun::deciding(before, after, step, moved) && before.role == Role::Responder && moved
            is Ok ==> moved->Ok_0 is Send && after.stage == PunchStage::AwaitSync,
        PunchRun::planning(before, after, step, moved) && moved is Ok ==> moved->Ok_0 is Fire
            && moved->Ok_0->sync is None,
{
}

} // verus!

//! What can be asked of an open channel.

use vstd::prelude::*;

use crate::bootstrap::BootstrapSet;
use crate::channel::segments::Rendered;
use crate::channel::state::{Admission, ChannelState, Genesis};
use crate::hash::Digest32;
use crate::table::Table;

verus! {

impl ChannelState {
    /// The channel.
    #[must_use]
    pub fn channel_id(&self) -> (d: Digest32)
        ensures
            d == self.channel_id,
    {
        self.channel_id
    }

    /// Its genesis.
    #[must_use]
    pub fn genesis(&self) -> (g: &Genesis)
        ensures
            *g == self.genesis,
    {
        &self.genesis
    }

    /// This device's name for it.
    #[must_use]
    pub fn local_name(&self) -> (s: &str)
        ensures
            s@ == self.local_name@,
    {
        self.local_name.as_str()
    }

    /// When it was created or joined here.
    #[must_use]
    pub fn created(&self) -> (n: u64)
        ensures
            n == self.created,
    {
        self.created
    }

    /// The current epoch.
    #[must_use]
    pub fn epoch(&self) -> (n: u64)
        ensures
            n == self.epoch,
    {
        self.epoch
    }

    /// The rendered messages.
    #[must_use]
    pub fn timeline(&self) -> (t: &Vec<Rendered>)
        ensures
            *t == self.timeline,
    {
        &self.timeline
    }

    /// The anchors that this channel is published to and read from.
    #[must_use]
    pub fn anchors(&self) -> (a: &BootstrapSet)
        ensures
            *a == self.anchors,
    {
        &self.anchors
    }

    /// The services that this node offers here: tag and local address, in tag order.
    #[must_use]
    pub fn services(&self) -> (t: &Table<String, String>)
        ensures
            *t == self.services,
    {
        &self.services
    }

    /// How this node came to be a member here, where that is on file.
    #[must_use]
    pub fn own_admission(&self) -> (a: Option<&Admission>)
        ensures
            match (a, self.own_admission) {
                (Some(x), Some(y)) => *x == y,
                (None, None) => true,
                _ => false,
            },
    {
        match &self.own_admission {
            Some(a) => Some(a),
            None => None,
        }
    }

    /// The capabilities that the genesis confers on every member.
    #[must_use]
    pub fn service_grant(&self) -> (g: &Vec<String>)
        ensures
            *g == self.genesis.service_grant,
    {
        &self.genesis.service_grant
    }
}

} // verus!

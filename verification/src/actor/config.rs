//! What a node is configured with, as far as it decides by it.

use vstd::prelude::*;

use crate::bootstrap::BootstrapSet;

verus! {

/// What a node is configured with.
#[derive(Debug, PartialEq, Eq)]
pub struct NodeConfig {
    /// The address to bind, or `None` for a node that does not network.
    pub bind: Option<String>,
    /// The anchors that it publishes to, reads from and names in invite links.
    pub anchors: BootstrapSet,
    /// Whether it runs on an identity that is no vault: it networks from the start and
    /// holds no channel secrets.
    pub headless: bool,
    /// Whether it keeps a ciphertext copy of the log of every channel on its board.
    pub anchor_logs: bool,
}

impl NodeConfig {
    /// A node that does not network, with no anchors.
    #[must_use]
    pub fn new() -> (c: NodeConfig)
        ensures
            c.bind is None,
            c.anchors.nodes@.len() == 0,
            !c.headless,
            !c.anchor_logs,
    {
        NodeConfig {
            bind: None,
            anchors: BootstrapSet { nodes: Vec::new() },
            headless: false,
            anchor_logs: false,
        }
    }

    /// Keeps a copy of every anchored channel's log, or does not.
    #[must_use]
    pub fn anchor_logs(self, on: bool) -> (c: NodeConfig)
        ensures
            c == (NodeConfig { anchor_logs: on, ..self }),
    {
        let mut c: NodeConfig = self;
        c.anchor_logs = on;
        c
    }

    /// Runs headless.
    #[must_use]
    pub fn headless(self) -> (c: NodeConfig)
        ensures
            c == (NodeConfig { headless: true, ..self }),
    {
        let mut c: NodeConfig = self;
        c.headless = true;
        c
    }

    /// Networks, binding here.
    #[must_use]
    pub fn bind(self, bind: String) -> (c: NodeConfig)
        ensures
            c == (NodeConfig { bind: Some(bind), ..self }),
    {
        let mut c: NodeConfig = self;
        c.bind = Some(bind);
        c
    }

    /// Uses these anchors.
    #[must_use]
    pub fn anchors(self, anchors: BootstrapSet) -> (c: NodeConfig)
        ensures
            c == (NodeConfig { anchors, ..self }),
    {
        let mut c: NodeConfig = self;
        c.anchors = anchors;
        c
    }
}

} // verus!

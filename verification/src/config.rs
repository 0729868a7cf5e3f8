//! The options that the synchroniser is built with.

use vstd::prelude::*;
use crate::primitives::{BlockNumber, H256};

verus! {

/// Whether a snapshot is to be restored before blocks are downloaded.
#[derive(Clone, Copy, Debug, PartialEq, Eq, Structural)]
pub enum WarpSync {
    Enabled,
    Disabled,
    /// Only a snapshot of a block after the given one will do, and nothing
    /// else is synced before.
    OnlyAndAfter(BlockNumber),
}

impl WarpSync {
    pub open spec fn spec_is_enabled(&self) -> bool {
        *self != WarpSync::Disabled
    }

    pub open spec fn spec_is_warp_only(&self) -> bool {
        *self is OnlyAndAfter
    }

    /// The block that a snapshot must be beyond; zero where none is set.
    pub open spec fn spec_expected_block(&self) -> BlockNumber {
        match *self {
            WarpSync::OnlyAndAfter(block) => block,
            _ => 0,
        }
    }

    pub fn is_enabled(&self) -> (r: bool)
        ensures
            r == self.spec_is_enabled(),
    {
        match *self {
            WarpSync::Enabled => true,
            WarpSync::OnlyAndAfter(_) => true,
            WarpSync::Disabled => false,
        }
    }

    pub fn is_warp_only(&self) -> (r: bool)
        ensures
            r == self.spec_is_warp_only(),
    {
        match *self {
            WarpSync::OnlyAndAfter(_) => true,
            _ => false,
        }
    }

    pub fn expected_block(&self) -> (r: BlockNumber)
        ensures
            r == self.spec_expected_block(),
    {
        match *self {
            WarpSync::OnlyAndAfter(block) => block,
            _ => 0,
        }
    }
}

/// The options of the synchroniser.
#[derive(Clone, Copy, Debug)]
pub struct SyncConfig {
    /// Whether the ancient blocks that a snapshot left out are downloaded.
    pub download_old_blocks: bool,
    /// Peers of another network are turned away.
    pub network_id: u64,
    /// A block that every peer must have, by number and hash.
    pub fork_block: Option<(BlockNumber, H256)>,
    pub warp_sync: WarpSync,
}

impl SyncConfig {
    pub open spec fn spec_default() -> SyncConfig {
        SyncConfig {
            download_old_blocks: true,
            network_id: 1,
            fork_block: None,
            warp_sync: WarpSync::Disabled,
        }
    }
}

impl Default for SyncConfig {
    fn default() -> (r: SyncConfig)
        ensures
            r == SyncConfig::spec_default(),
    {
        SyncConfig {
            download_old_blocks: true,
            network_id: 1,
            fork_block: None,
            warp_sync: WarpSync::Disabled,
        }
    }
}

} // verus!

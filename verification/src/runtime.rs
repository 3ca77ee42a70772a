//! The two questions that the host chain answers about the authority set.

use vstd::prelude::*;

use crate::authority::{AuthorityList, SetId};

verus! {

/// What the state machine of the host chain tells the finality gadget, as of any block
/// that the node retains.
///
/// The answers as of a block `B` describe the authorities that finalize the descendants
/// of `B`: the blocks `B+1`, `B+2` and so on, until the next change takes effect. The
/// block `B` itself is finalized by the authorities as of its parent. The list changes
/// only when a scheduled or forced change has been signalled and its delay has passed,
/// and each change that takes effect raises the set id by one.
///
/// The host implements this; nothing here computes the answers.
pub trait PbftApi {
    /// How the host names the block that a question is asked of.
    type BlockId;

    /// The authorities that finalize the descendants of the block `at`, in the order
    /// that gives each its index.
    fn pbft_authorities(&self, at: &Self::BlockId) -> AuthorityList;

    /// The generation of the authority set that finalizes the descendants of the
    /// block `at`.
    fn current_set_id(&self, at: &Self::BlockId) -> SetId;
}

} // verus!

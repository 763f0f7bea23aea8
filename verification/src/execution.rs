//! The contexts in which applications execute operations, effects and queries.
use vstd::prelude::*;

use crate::base::{BlockHeight, ChainId, EffectId, Owner};

verus! {

/// An account: a chain and, optionally, an owner on that chain.
#[derive(Clone, Copy, Debug)]
pub struct Account {
    pub chain_id: ChainId,
    pub owner: Option<Owner>,
}

/// The identifier of a message: the chain and block that created it and its index in
/// the block.
#[derive(Clone, Copy, Debug)]
pub struct MessageId {
    pub chain_id: ChainId,
    pub height: BlockHeight,
    pub index: u32,
}

/// The context of an application when it is executing an operation.
#[derive(Clone, Copy, Debug)]
pub struct OperationContext {
    /// The current chain id.
    pub chain_id: ChainId,
    /// The authenticated signer of the operation, if any.
    pub authenticated_signer: Option<Owner>,
    /// The current block height.
    pub height: BlockHeight,
    /// The current index of the operation.
    pub index: u32,
    /// The index of the next message to be created.
    pub next_message_index: u32,
}

impl OperationContext {
    /// Returns the [`Account`] that should receive the refund of a grant provided for the
    /// execution of this context: the current chain, owned by the authenticated signer.
    pub fn refund_grant_to(&self) -> (r: Option<Account>)
        ensures
            r == Some(Account { chain_id: self.chain_id, owner: self.authenticated_signer }),
    {
        Some(Account { chain_id: self.chain_id, owner: self.authenticated_signer })
    }

    /// Returns the [`MessageId`] to use for the next message to be sent.
    pub fn next_message_id(&self) -> (r: MessageId)
        ensures
            r == (MessageId {
                chain_id: self.chain_id,
                height: self.height,
                index: self.next_message_index,
            }),
    {
        MessageId { chain_id: self.chain_id, height: self.height, index: self.next_message_index }
    }

    /// The identifier of the effect created by the operation of this context: the
    /// chain, the height and the index of the operation.
    pub fn effect_id(&self) -> (r: EffectId)
        ensures
            r == (EffectId { chain_id: self.chain_id, height: self.height, index: self.index as usize }),
    {
        EffectId { chain_id: self.chain_id, height: self.height, index: self.index as usize }
    }
}

/// The context of an application when it is executing an effect received from another
/// chain.
#[derive(Clone, Copy, Debug)]
pub struct EffectContext {
    /// The current chain id.
    pub chain_id: ChainId,
    /// The current block height.
    pub height: BlockHeight,
    /// The id of the effect being executed.
    pub effect_id: EffectId,
}

/// The context of an application when it is answering a query.
#[derive(Clone, Copy, Debug)]
pub struct QueryContext {
    /// The current chain id.
    pub chain_id: ChainId,
}

} // verus!

//! The system application: the state every chain keeps about itself (description,
//! epoch, committees, subscriptions, ownership, balance) and how system operations and
//! effects change it.
use vstd::prelude::*;

use crate::amount::{Amount, Balance};
use crate::base::{
    BaseError, Bytecode, ChainDescription, ChainId, ChainOwnership, ChannelId, ChannelIdView,
    Committee, Destination, EffectId, Epoch, Owner, ApplicationId,
};
use crate::committees::{Committees, CommitteeView};
use crate::execution::{EffectContext, OperationContext, QueryContext};
use crate::subscriptions::{channel_key, subscribed, Subscriptions};

verus! {

broadcast use crate::amount::group_amount_lemmas;

/// The errors raised while executing system operations and effects.
#[derive(Clone, Copy, Debug)]
pub enum SystemExecutionError {
    BaseError(BaseError),
    InvalidNewChainId(ChainId),
    InvalidNewChainAdminId(ChainId),
    InvalidCommittees,
    InvalidEpoch { chain_id: ChainId, epoch: Epoch },
    IncorrectTransferAmount,
    InsufficientFunding { current_balance: u128 },
    InvalidCommitteeCreation,
    InvalidCommitteeRemoval,
    InvalidSubscriptionToNewCommittees(ChainId),
    InvalidUnsubscriptionToNewCommittees(ChainId),
    AmountOverflow,
    AmountUnderflow,
    BalanceOverflow,
    BalanceUnderflow,
    CannotRewindEpoch,
}

/// The id of the "system" application.
pub fn system_application_id() -> (r: ApplicationId)
    ensures
        r == ApplicationId(0),
{
    ApplicationId(0)
}

/// The name of the channel for the admin chain to broadcast reconfigurations.
pub open spec fn admin_channel_name() -> Seq<char> {
    seq!['A', 'D', 'M', 'I', 'N']
}

/// The name of the channel used to broadcast new published bytecodes.
pub open spec fn published_bytecodes_channel_name() -> Seq<char> {
    seq!['P', 'U', 'B', 'L', 'I', 'S', 'H', 'E', 'D', '_', 'B', 'Y', 'T', 'E', 'C', 'O', 'D', 'E', 'S']
}

/// The name of the channel for the admin chain to broadcast reconfigurations.
pub fn admin_channel() -> (r: String)
    ensures
        r@ == admin_channel_name(),
{
    proof {
        reveal_strlit("ADMIN");
    }
    "ADMIN".to_owned()
}

/// The name of the channel used to broadcast new published bytecodes.
pub fn published_bytecodes_channel() -> (r: String)
    ensures
        r@ == published_bytecodes_channel_name(),
{
    proof {
        reveal_strlit("PUBLISHED_BYTECODES");
    }
    "PUBLISHED_BYTECODES".to_owned()
}

/// The channel on which the admin chain `admin_id` broadcasts reconfigurations.
pub open spec fn admin_channel_of(admin_id: ChainId) -> ChannelIdView {
    ChannelIdView { chain_id: admin_id, name: admin_channel_name() }
}

/// A recipient's address.
#[derive(Clone, Copy, Debug)]
pub enum Address {
    /// This is mainly a placeholder for future extensions.
    Burn,
    /// We currently support only one user account per chain.
    Account(ChainId),
}

/// Optional user message attached to a transfer.
#[derive(Clone, Copy, Debug)]
pub struct UserData(pub Option<[u8; 32]>);

/// A system operation.
#[derive(Debug)]
pub enum SystemOperation {
    /// Transfer `amount` units of value to the recipient.
    Transfer { recipient: Address, amount: Amount, user_data: UserData },
    /// Create (or activate) a new chain by installing the given authentication key.
    /// This will automatically subscribe to the future committees created by `admin_id`.
    OpenChain {
        id: ChainId,
        owner: Owner,
        admin_id: ChainId,
        epoch: Epoch,
        committees: Committees,
    },
    /// Close the chain.
    CloseChain,
    /// Change the authentication key of the chain.
    ChangeOwner { new_owner: Owner },
    /// Change the authentication keys of the chain.
    ChangeMultipleOwners { new_owners: Vec<Owner> },
    /// (admin chain only) Register a new committee. This will notify the subscribers of
    /// the admin chain so that they can migrate to the new epoch.
    CreateCommittee { admin_id: ChainId, epoch: Epoch, committee: Committee },
    /// Subscribe to future committees created by `admin_id`.
    SubscribeToNewCommittees { admin_id: ChainId },
    /// Unsubscribe to future committees created by `admin_id`.
    UnsubscribeToNewCommittees { admin_id: ChainId },
    /// (admin chain only) Remove a committee.
    RemoveCommittee { admin_id: ChainId, epoch: Epoch },
    /// Publish a new application bytecode.
    PublishBytecode { contract: Bytecode, service: Bytecode },
}

/// The effect of a system operation to be performed on a remote chain.
#[derive(Debug)]
pub enum SystemEffect {
    /// Credit `amount` units of value to the recipient.
    Credit { recipient: ChainId, amount: Amount },
    /// Create (or activate) a new chain by installing the given authentication key.
    OpenChain {
        id: ChainId,
        owner: Owner,
        admin_id: ChainId,
        epoch: Epoch,
        committees: Committees,
    },
    /// Set the current epoch and the recognized committees.
    SetCommittees { admin_id: ChainId, epoch: Epoch, committees: Committees },
    /// Subscribe to a channel.
    Subscribe { id: ChainId, channel: ChannelId },
    /// Unsubscribe to a channel.
    Unsubscribe { id: ChainId, channel: ChannelId },
    /// Notify that a new application bytecode was published.
    BytecodePublished,
    /// Does nothing. Used to debug the intended recipients of a block.
    Notify { id: ChainId },
}

/// What an effect holds.
pub enum SystemEffectView {
    Credit { recipient: ChainId, amount: u64 },
    OpenChain {
        id: ChainId,
        owner: Owner,
        admin_id: ChainId,
        epoch: Epoch,
        committees: Map<Epoch, CommitteeView>,
    },
    SetCommittees { admin_id: ChainId, epoch: Epoch, committees: Map<Epoch, CommitteeView> },
    Subscribe { id: ChainId, channel: ChannelIdView },
    Unsubscribe { id: ChainId, channel: ChannelIdView },
    BytecodePublished,
    Notify { id: ChainId },
}

impl View for SystemEffect {
    type V = SystemEffectView;

    open spec fn view(&self) -> SystemEffectView {
        match self {
            SystemEffect::Credit { recipient, amount } => SystemEffectView::Credit {
                recipient: *recipient,
                amount: amount@,
            },
            SystemEffect::OpenChain { id, owner, admin_id, epoch, committees } =>
                SystemEffectView::OpenChain {
                id: *id,
                owner: *owner,
                admin_id: *admin_id,
                epoch: *epoch,
                committees: committees@,
            },
            SystemEffect::SetCommittees { admin_id, epoch, committees } =>
                SystemEffectView::SetCommittees {
                admin_id: *admin_id,
                epoch: *epoch,
                committees: committees@,
            },
            SystemEffect::Subscribe { id, channel } => SystemEffectView::Subscribe {
                id: *id,
                channel: channel@,
            },
            SystemEffect::Unsubscribe { id, channel } => SystemEffectView::Unsubscribe {
                id: *id,
                channel: channel@,
            },
            SystemEffect::BytecodePublished => SystemEffectView::BytecodePublished,
            SystemEffect::Notify { id } => SystemEffectView::Notify { id: *id },
        }
    }
}

/// The recipients of an effect, as plain values.
pub enum DestinationView {
    Recipient(ChainId),
    Subscribers(Seq<char>),
}

impl View for Destination {
    type V = DestinationView;

    open spec fn view(&self) -> DestinationView {
        match self {
            Destination::Recipient(id) => DestinationView::Recipient(*id),
            Destination::Subscribers(name) => DestinationView::Subscribers(name@),
        }
    }
}

/// The result of executing an operation or an effect: the effects to send, and the
/// channels that chains subscribe to or unsubscribe from.
#[derive(Debug)]
pub struct RawExecutionResult<Effect> {
    pub effects: Vec<(Destination, Effect)>,
    pub subscribe: Vec<(String, ChainId)>,
    pub unsubscribe: Vec<(String, ChainId)>,
}

/// What an execution result holds.
pub struct RawExecutionResultView<EffectView> {
    pub effects: Seq<(DestinationView, EffectView)>,
    pub subscribe: Seq<(Seq<char>, ChainId)>,
    pub unsubscribe: Seq<(Seq<char>, ChainId)>,
}

impl<Effect: View> View for RawExecutionResult<Effect> {
    type V = RawExecutionResultView<Effect::V>;

    open spec fn view(&self) -> RawExecutionResultView<Effect::V> {
        RawExecutionResultView {
            effects: self.effects@.map_values(|e: (Destination, Effect)| (e.0@, e.1@)),
            subscribe: self.subscribe@.map_values(|e: (String, ChainId)| (e.0@, e.1)),
            unsubscribe: self.unsubscribe@.map_values(|e: (String, ChainId)| (e.0@, e.1)),
        }
    }
}

/// The result with no effect and no subscription change.
pub open spec fn empty_result() -> RawExecutionResultView<SystemEffectView> {
    RawExecutionResultView { effects: seq![], subscribe: seq![], unsubscribe: seq![] }
}

/// The result that sends the given effects and changes no subscription.
pub open spec fn effects_result(
    effects: Seq<(DestinationView, SystemEffectView)>,
) -> RawExecutionResultView<SystemEffectView> {
    RawExecutionResultView { effects, subscribe: seq![], unsubscribe: seq![] }
}

impl<Effect: View> RawExecutionResult<Effect> {
    /// The result with no effect and no subscription change.
    pub fn empty() -> (r: RawExecutionResult<Effect>)
        ensures
            r@.effects == Seq::<(DestinationView, Effect::V)>::empty(),
            r@.subscribe == Seq::<(Seq<char>, ChainId)>::empty(),
            r@.unsubscribe == Seq::<(Seq<char>, ChainId)>::empty(),
    {
        let r = RawExecutionResult { effects: Vec::new(), subscribe: Vec::new(), unsubscribe: Vec::new() };
        assert(r@.effects =~= Seq::<(DestinationView, Effect::V)>::empty());
        assert(r@.subscribe =~= Seq::<(Seq<char>, ChainId)>::empty());
        assert(r@.unsubscribe =~= Seq::<(Seq<char>, ChainId)>::empty());
        r
    }

    /// The result that sends `effects` and changes no subscription.
    pub fn from_effects(effects: Vec<(Destination, Effect)>) -> (r: RawExecutionResult<Effect>)
        ensures
            r@.effects == effects@.map_values(|e: (Destination, Effect)| (e.0@, e.1@)),
            r@.subscribe == Seq::<(Seq<char>, ChainId)>::empty(),
            r@.unsubscribe == Seq::<(Seq<char>, ChainId)>::empty(),
    {
        let r = RawExecutionResult { effects, subscribe: Vec::new(), unsubscribe: Vec::new() };
        assert(r@.subscribe =~= Seq::<(Seq<char>, ChainId)>::empty());
        assert(r@.unsubscribe =~= Seq::<(Seq<char>, ChainId)>::empty());
        r
    }
}

/// The view of the outcome of a system operation or effect.
pub open spec fn outcome_view(
    r: Result<RawExecutionResult<SystemEffect>, SystemExecutionError>,
) -> Result<RawExecutionResultView<SystemEffectView>, SystemExecutionError> {
    match r {
        Ok(res) => Ok(res@),
        Err(e) => Err(e),
    }
}

/// A query to the system state.
#[derive(Clone, Copy, Debug)]
pub struct SystemQuery;

/// The response to a system query.
#[derive(Clone, Copy, Debug)]
pub struct SystemResponse {
    pub chain_id: ChainId,
    pub balance: Balance,
}

/// The owners of a chain, as plain values.
pub enum OwnershipView {
    Inactive,
    Single(Owner),
    Multi(Seq<Owner>),
}

impl View for ChainOwnership {
    type V = OwnershipView;

    open spec fn view(&self) -> OwnershipView {
        match self {
            ChainOwnership::Inactive => OwnershipView::Inactive,
            ChainOwnership::Single { owner } => OwnershipView::Single(*owner),
            ChainOwnership::Multi { owners } => OwnershipView::Multi(owners@),
        }
    }
}

/// The state the system application keeps for a chain.
#[derive(Debug)]
pub struct SystemExecutionStateView {
    /// How the chain was created. May be unknown for inactive chains.
    pub description: Option<ChainDescription>,
    /// The number identifying the current configuration.
    pub epoch: Option<Epoch>,
    /// The admin of the chain.
    pub admin_id: Option<ChainId>,
    /// The channels that we have subscribed to.
    pub subscriptions: Subscriptions,
    /// The committees that we trust, indexed by epoch number.
    pub committees: Committees,
    /// Ownership of the chain.
    pub ownership: ChainOwnership,
    /// Balance of the chain.
    pub balance: Balance,
}

/// The state of the system application, as plain values.
pub struct SystemStateModel {
    pub description: Option<ChainDescription>,
    pub epoch: Option<Epoch>,
    pub admin_id: Option<ChainId>,
    pub subscriptions: Seq<ChannelIdView>,
    pub committees: Map<Epoch, CommitteeView>,
    pub ownership: OwnershipView,
    pub balance: u128,
}

impl View for SystemExecutionStateView {
    type V = SystemStateModel;

    open spec fn view(&self) -> SystemStateModel {
        SystemStateModel {
            description: self.description,
            epoch: self.epoch,
            admin_id: self.admin_id,
            subscriptions: self.subscriptions@,
            committees: self.committees@,
            ownership: self.ownership@,
            balance: self.balance@,
        }
    }
}

/// Whether `post` holds the subscriptions of `pre` plus `c`.
pub open spec fn subscriptions_add(
    pre: Seq<ChannelIdView>,
    post: Seq<ChannelIdView>,
    c: ChannelIdView,
) -> bool {
    forall|d: ChannelIdView| #[trigger] subscribed(post, d) == (subscribed(pre, d) || channel_key(d) == channel_key(c))
}

/// Whether `post` holds the subscriptions of `pre` but `c`.
pub open spec fn subscriptions_remove(
    pre: Seq<ChannelIdView>,
    post: Seq<ChannelIdView>,
    c: ChannelIdView,
) -> bool {
    forall|d: ChannelIdView| #[trigger] subscribed(post, d) == (subscribed(pre, d) && channel_key(d) != channel_key(c))
}

/// Whether the two states agree on everything but the balance.
pub open spec fn same_but_balance(pre: SystemStateModel, post: SystemStateModel) -> bool {
    &&& post.description == pre.description
    &&& post.epoch == pre.epoch
    &&& post.admin_id == pre.admin_id
    &&& post.subscriptions == pre.subscriptions
    &&& post.committees == pre.committees
    &&& post.ownership == pre.ownership
}

/// Whether the two states agree on everything but the subscriptions.
pub open spec fn same_but_subscriptions(pre: SystemStateModel, post: SystemStateModel) -> bool {
    &&& post.description == pre.description
    &&& post.epoch == pre.epoch
    &&& post.admin_id == pre.admin_id
    &&& post.committees == pre.committees
    &&& post.ownership == pre.ownership
    &&& post.balance == pre.balance
}

/// Whether the two states agree on everything but the ownership.
pub open spec fn same_but_ownership(pre: SystemStateModel, post: SystemStateModel) -> bool {
    &&& post.description == pre.description
    &&& post.epoch == pre.epoch
    &&& post.admin_id == pre.admin_id
    &&& post.subscriptions == pre.subscriptions
    &&& post.committees == pre.committees
    &&& post.balance == pre.balance
}

/// Whether the two states agree on everything but the epoch and the committees.
pub open spec fn same_but_committees(pre: SystemStateModel, post: SystemStateModel) -> bool {
    &&& post.description == pre.description
    &&& post.admin_id == pre.admin_id
    &&& post.subscriptions == pre.subscriptions
    &&& post.ownership == pre.ownership
    &&& post.balance == pre.balance
}

/// The outcome of `Transfer`: the amount must be positive and covered by the balance; it
/// is then taken from the balance and credited to the recipient account, if any.
pub open spec fn transfer_step(
    pre: SystemStateModel,
    post: SystemStateModel,
    recipient: Address,
    amount: u64,
    r: Result<RawExecutionResultView<SystemEffectView>, SystemExecutionError>,
) -> bool {
    if amount == 0 {
        post == pre && r == Err::<RawExecutionResultView<SystemEffectView>, SystemExecutionError>(
            SystemExecutionError::IncorrectTransferAmount,
        )
    } else if pre.balance < amount {
        post == pre && r == Err::<RawExecutionResultView<SystemEffectView>, SystemExecutionError>(
            SystemExecutionError::InsufficientFunding { current_balance: pre.balance },
        )
    } else {
        &&& same_but_balance(pre, post)
        &&& post.balance == pre.balance - amount
        &&& r == Ok::<RawExecutionResultView<SystemEffectView>, SystemExecutionError>(
            match recipient {
                Address::Burn => empty_result(),
                Address::Account(id) => effects_result(
                    seq![
                        (
                            DestinationView::Recipient(id),
                            SystemEffectView::Credit { recipient: id, amount },
                        ),
                    ],
                ),
            },
        )
    }
}

/// The outcome of `OpenChain`: the new chain must be the expected child of this chain
/// and share its admin chain, committees and epoch. The state does not change; the new
/// chain is sent its configuration and the admin chain the subscription of the new chain.
pub open spec fn open_chain_step(
    pre: SystemStateModel,
    post: SystemStateModel,
    child_id: ChainId,
    id: ChainId,
    owner: Owner,
    admin_id: ChainId,
    epoch: Epoch,
    committees: Map<Epoch, CommitteeView>,
    r: Result<RawExecutionResultView<SystemEffectView>, SystemExecutionError>,
) -> bool {
    &&& post == pre
    &&& r == if id != child_id {
        Err(SystemExecutionError::InvalidNewChainId(id))
    } else if pre.admin_id != Some(admin_id) {
        Err(SystemExecutionError::InvalidNewChainAdminId(id))
    } else if pre.committees != committees {
        Err(SystemExecutionError::InvalidCommittees)
    } else if pre.epoch != Some(epoch) {
        Err(SystemExecutionError::InvalidEpoch { chain_id: id, epoch })
    } else {
        Ok(
            effects_result(
                seq![
                    (
                        DestinationView::Recipient(id),
                        SystemEffectView::OpenChain { id, owner, committees, admin_id, epoch },
                    ),
                    (
                        DestinationView::Recipient(admin_id),
                        SystemEffectView::Subscribe { id, channel: admin_channel_of(admin_id) },
                    ),
                ],
            ),
        )
    }
}

/// The effect telling the publisher of `channel` that `id` no longer listens to it.
pub open spec fn unsubscribe_effect(id: ChainId, channel: ChannelIdView) -> (
    DestinationView,
    SystemEffectView,
) {
    (DestinationView::Recipient(channel.chain_id), SystemEffectView::Unsubscribe { id, channel })
}

/// The outcome of `CloseChain`: the chain loses its owners and unsubscribes from every
/// channel, in the order of the subscriptions.
pub open spec fn close_chain_step(
    pre: SystemStateModel,
    post: SystemStateModel,
    chain_id: ChainId,
    r: Result<RawExecutionResultView<SystemEffectView>, SystemExecutionError>,
) -> bool {
    &&& post.description == pre.description
    &&& post.epoch == pre.epoch
    &&& post.admin_id == pre.admin_id
    &&& post.committees == pre.committees
    &&& post.balance == pre.balance
    &&& post.ownership == OwnershipView::Inactive
    &&& post.subscriptions == Seq::<ChannelIdView>::empty()
    &&& r == Ok::<RawExecutionResultView<SystemEffectView>, SystemExecutionError>(
        effects_result(pre.subscriptions.map_values(|c: ChannelIdView| unsubscribe_effect(chain_id, c))),
    )
}

/// The outcome of `CreateCommittee`: only the admin chain itself may create the
/// committee of the epoch that follows the current one. The committee is added, the
/// epoch advances and the subscribers of the admin channel are sent the new committees.
pub open spec fn create_committee_step(
    pre: SystemStateModel,
    post: SystemStateModel,
    chain_id: ChainId,
    admin_id: ChainId,
    epoch: Epoch,
    committee: CommitteeView,
    r: Result<RawExecutionResultView<SystemEffectView>, SystemExecutionError>,
) -> bool {
    if admin_id != chain_id || pre.admin_id != Some(admin_id) {
        post == pre && r == Err::<RawExecutionResultView<SystemEffectView>, SystemExecutionError>(
            SystemExecutionError::InvalidCommitteeCreation,
        )
    } else if pre.epoch.unwrap().0 == u64::MAX {
        post == pre && r == Err::<RawExecutionResultView<SystemEffectView>, SystemExecutionError>(
            SystemExecutionError::BaseError(BaseError::SequenceOverflow),
        )
    } else if epoch.0 != pre.epoch.unwrap().0 + 1 {
        post == pre && r == Err::<RawExecutionResultView<SystemEffectView>, SystemExecutionError>(
            SystemExecutionError::InvalidCommitteeCreation,
        )
    } else {
        &&& same_but_committees(pre, post)
        &&& post.committees == pre.committees.insert(epoch, committee)
        &&& post.epoch == Some(epoch)
        &&& r == Ok::<RawExecutionResultView<SystemEffectView>, SystemExecutionError>(
            effects_result(
                seq![
                    (
                        DestinationView::Subscribers(admin_channel_name()),
                        SystemEffectView::SetCommittees {
                            admin_id,
                            epoch,
                            committees: post.committees,
                        },
                    ),
                ],
            ),
        )
    }
}

/// The outcome of `RemoveCommittee`: only the admin chain itself may remove one of its
/// committees. The subscribers of the admin channel are sent the remaining committees.
pub open spec fn remove_committee_step(
    pre: SystemStateModel,
    post: SystemStateModel,
    chain_id: ChainId,
    admin_id: ChainId,
    epoch: Epoch,
    r: Result<RawExecutionResultView<SystemEffectView>, SystemExecutionError>,
) -> bool {
    if admin_id != chain_id || pre.admin_id != Some(admin_id) || !pre.committees.dom().contains(
        epoch,
    ) {
        post == pre && r == Err::<RawExecutionResultView<SystemEffectView>, SystemExecutionError>(
            SystemExecutionError::InvalidCommitteeRemoval,
        )
    } else {
        &&& same_but_committees(pre, post)
        &&& post.epoch == pre.epoch
        &&& post.committees == pre.committees.remove(epoch)
        &&& r == Ok::<RawExecutionResultView<SystemEffectView>, SystemExecutionError>(
            effects_result(
                seq![
                    (
                        DestinationView::Subscribers(admin_channel_name()),
                        SystemEffectView::SetCommittees {
                            admin_id,
                            epoch: pre.epoch.unwrap(),
                            committees: post.committees,
                        },
                    ),
                ],
            ),
        )
    }
}

/// The outcome of `SubscribeToNewCommittees`: a chain other than the admin chain, not
/// yet subscribed, subscribes to the admin channel and tells the admin chain.
pub open spec fn subscribe_step(
    pre: SystemStateModel,
    post: SystemStateModel,
    chain_id: ChainId,
    admin_id: ChainId,
    r: Result<RawExecutionResultView<SystemEffectView>, SystemExecutionError>,
) -> bool {
    if chain_id == admin_id || pre.admin_id != Some(admin_id) || subscribed(
        pre.subscriptions,
        admin_channel_of(admin_id),
    ) {
        post == pre && r == Err::<RawExecutionResultView<SystemEffectView>, SystemExecutionError>(
            SystemExecutionError::InvalidSubscriptionToNewCommittees(chain_id),
        )
    } else {
        &&& same_but_subscriptions(pre, post)
        &&& subscriptions_add(pre.subscriptions, post.subscriptions, admin_channel_of(admin_id))
        &&& r == Ok::<RawExecutionResultView<SystemEffectView>, SystemExecutionError>(
            effects_result(
                seq![
                    (
                        DestinationView::Recipient(admin_id),
                        SystemEffectView::Subscribe {
                            id: chain_id,
                            channel: admin_channel_of(admin_id),
                        },
                    ),
                ],
            ),
        )
    }
}

/// The outcome of `UnsubscribeToNewCommittees`: a chain subscribed to the admin channel
/// of `admin_id` unsubscribes and tells `admin_id`.
pub open spec fn unsubscribe_step(
    pre: SystemStateModel,
    post: SystemStateModel,
    chain_id: ChainId,
    admin_id: ChainId,
    r: Result<RawExecutionResultView<SystemEffectView>, SystemExecutionError>,
) -> bool {
    if !subscribed(pre.subscriptions, admin_channel_of(admin_id)) {
        post == pre && r == Err::<RawExecutionResultView<SystemEffectView>, SystemExecutionError>(
            SystemExecutionError::InvalidUnsubscriptionToNewCommittees(chain_id),
        )
    } else {
        &&& same_but_subscriptions(pre, post)
        &&& subscriptions_remove(pre.subscriptions, post.subscriptions, admin_channel_of(admin_id))
        &&& r == Ok::<RawExecutionResultView<SystemEffectView>, SystemExecutionError>(
            effects_result(
                seq![
                    (
                        DestinationView::Recipient(admin_id),
                        SystemEffectView::Unsubscribe {
                            id: chain_id,
                            channel: admin_channel_of(admin_id),
                        },
                    ),
                ],
            ),
        )
    }
}

/// The operations whose execution would stop the program: creating a committee on an
/// admin chain with no current epoch, or removing one of its committees.
pub open spec fn operation_needs_epoch(
    pre: SystemStateModel,
    context: OperationContext,
    operation: &SystemOperation,
) -> bool {
    match operation {
        SystemOperation::CreateCommittee { admin_id, .. } => *admin_id == context.chain_id
            && pre.admin_id == Some(*admin_id),
        SystemOperation::RemoveCommittee { admin_id, epoch } => *admin_id == context.chain_id
            && pre.admin_id == Some(*admin_id) && pre.committees.dom().contains(*epoch),
        _ => false,
    }
}

/// The outcome of a system operation on the sender's chain.
pub open spec fn operation_step(
    pre: SystemStateModel,
    post: SystemStateModel,
    context: OperationContext,
    operation: &SystemOperation,
    child_id: ChainId,
    r: Result<RawExecutionResultView<SystemEffectView>, SystemExecutionError>,
) -> bool {
    match operation {
        SystemOperation::Transfer { recipient, amount, .. } => transfer_step(
            pre,
            post,
            *recipient,
            amount@,
            r,
        ),
        SystemOperation::OpenChain { id, owner, admin_id, epoch, committees } => open_chain_step(
            pre,
            post,
            child_id,
            *id,
            *owner,
            *admin_id,
            *epoch,
            committees@,
            r,
        ),
        SystemOperation::CloseChain => close_chain_step(pre, post, context.chain_id, r),
        SystemOperation::ChangeOwner { new_owner } => {
            &&& same_but_ownership(pre, post)
            &&& post.ownership == OwnershipView::Single(*new_owner)
            &&& r == Ok::<RawExecutionResultView<SystemEffectView>, SystemExecutionError>(
                empty_result(),
            )
        },
        SystemOperation::ChangeMultipleOwners { new_owners } => {
            &&& same_but_ownership(pre, post)
            &&& post.ownership == OwnershipView::Multi(new_owners@)
            &&& r == Ok::<RawExecutionResultView<SystemEffectView>, SystemExecutionError>(
                empty_result(),
            )
        },
        SystemOperation::CreateCommittee { admin_id, epoch, committee } => create_committee_step(
            pre,
            post,
            context.chain_id,
            *admin_id,
            *epoch,
            committee@,
            r,
        ),
        SystemOperation::RemoveCommittee { admin_id, epoch } => remove_committee_step(
            pre,
            post,
            context.chain_id,
            *admin_id,
            *epoch,
            r,
        ),
        SystemOperation::SubscribeToNewCommittees { admin_id } => subscribe_step(
            pre,
            post,
            context.chain_id,
            *admin_id,
            r,
        ),
        SystemOperation::UnsubscribeToNewCommittees { admin_id } => unsubscribe_step(
            pre,
            post,
            context.chain_id,
            *admin_id,
            r,
        ),
        SystemOperation::PublishBytecode { .. } => {
            &&& post == pre
            &&& r == Ok::<RawExecutionResultView<SystemEffectView>, SystemExecutionError>(
                effects_result(
                    seq![
                        (
                            DestinationView::Subscribers(published_bytecodes_channel_name()),
                            SystemEffectView::BytecodePublished,
                        ),
                    ],
                ),
            )
        },
    }
}

/// The outcome of a system effect on the recipient's chain.
pub open spec fn effect_step(
    pre: SystemStateModel,
    post: SystemStateModel,
    context: EffectContext,
    effect: SystemEffectView,
    r: Result<RawExecutionResultView<SystemEffectView>, SystemExecutionError>,
) -> bool {
    match effect {
        SystemEffectView::Credit { amount, recipient } if context.chain_id == recipient => {
            &&& same_but_balance(pre, post)
            &&& post.balance == if pre.balance + amount <= u128::MAX {
                (pre.balance + amount) as u128
            } else {
                u128::MAX
            }
            &&& r == Ok::<RawExecutionResultView<SystemEffectView>, SystemExecutionError>(
                empty_result(),
            )
        },
        SystemEffectView::SetCommittees { admin_id, epoch, committees } if pre.admin_id == Some(
            admin_id,
        ) => {
            if epoch.0 < pre.epoch.unwrap().0 {
                post == pre && r == Err::<
                    RawExecutionResultView<SystemEffectView>,
                    SystemExecutionError,
                >(SystemExecutionError::CannotRewindEpoch)
            } else {
                &&& same_but_committees(pre, post)
                &&& post.epoch == Some(epoch)
                &&& post.committees == committees
                &&& r == Ok::<RawExecutionResultView<SystemEffectView>, SystemExecutionError>(
                    empty_result(),
                )
            }
        },
        SystemEffectView::Subscribe { id, channel } if channel.chain_id == context.chain_id => {
            &&& post == pre
            &&& r == Ok::<RawExecutionResultView<SystemEffectView>, SystemExecutionError>(
                RawExecutionResultView {
                    effects: seq![(DestinationView::Recipient(id), SystemEffectView::Notify { id })],
                    subscribe: seq![(channel.name, id)],
                    unsubscribe: seq![],
                },
            )
        },
        SystemEffectView::Unsubscribe { id, channel } if channel.chain_id == context.chain_id => {
            &&& post == pre
            &&& r == Ok::<RawExecutionResultView<SystemEffectView>, SystemExecutionError>(
                RawExecutionResultView {
                    effects: seq![(DestinationView::Recipient(id), SystemEffectView::Notify { id })],
                    subscribe: seq![],
                    unsubscribe: seq![(channel.name, id)],
                },
            )
        },
        _ => {
            &&& post == pre
            &&& r == Ok::<RawExecutionResultView<SystemEffectView>, SystemExecutionError>(
                empty_result(),
            )
        },
    }
}

/// The effects whose execution would stop the program: new committees from the admin
/// chain of a chain with no current epoch.
pub open spec fn effect_needs_epoch(pre: SystemStateModel, effect: SystemEffectView) -> bool {
    match effect {
        SystemEffectView::SetCommittees { admin_id, .. } => pre.admin_id == Some(admin_id),
        _ => false,
    }
}

/// Whether a chain in state `s` is active: it has a description, an owner, an epoch
/// with a committee, and an admin chain.
pub open spec fn is_active_state(s: SystemStateModel) -> bool {
    &&& s.description is Some
    &&& !(s.ownership is Inactive)
    &&& s.epoch is Some
    &&& s.committees.dom().contains(s.epoch.unwrap())
    &&& s.admin_id is Some
}

impl SystemExecutionStateView {
    /// Invariant for the states of active chains.
    pub fn is_active(&self) -> (r: bool)
        ensures
            r == is_active_state(self@),
    {
        match self.epoch {
            Some(epoch) => {
                self.description.is_some() && self.ownership.is_active()
                    && self.committees.contains_key(epoch) && self.admin_id.is_some()
            },
            None => false,
        }
    }

    fn same_chain(a: &Option<ChainId>, b: &ChainId) -> (r: bool)
        ensures
            r == (*a == Some(*b)),
    {
        match a {
            Some(x) => {
                let eq = x.equals(b);
                proof {
                    if eq {
                        assert(x.0.bytes =~= b.0.bytes);
                    }
                }
                eq
            },
            None => false,
        }
    }

    fn chain_eq(a: &ChainId, b: &ChainId) -> (r: bool)
        ensures
            r == (*a == *b),
    {
        let eq = a.equals(b);
        proof {
            if eq {
                assert(a.0.bytes =~= b.0.bytes);
            }
        }
        eq
    }

    fn admin_channel_id(admin_id: ChainId) -> (r: ChannelId)
        ensures
            r@ == admin_channel_of(admin_id),
    {
        ChannelId { chain_id: admin_id, name: admin_channel() }
    }

    /// Executes the sender's side of an operation. Returns the effects to send.
    ///
    /// `child_id` is the identifier that the chain created by this operation would
    /// have, derived from the effect id of the operation (see
    /// `OperationContext::effect_id`).
    pub fn execute_operation(
        &mut self,
        context: &OperationContext,
        operation: &SystemOperation,
        child_id: &ChainId,
    ) -> (r: Result<RawExecutionResult<SystemEffect>, SystemExecutionError>)
        requires
            operation_needs_epoch(old(self)@, *context, operation) ==> old(self)@.epoch is Some,
        ensures
            operation_step(old(self)@, final(self)@, *context, operation, *child_id, outcome_view(r)),
    {
        match operation {
            SystemOperation::OpenChain { id, owner, committees, admin_id, epoch } => {
                if !Self::chain_eq(id, child_id) {
                    return Err(SystemExecutionError::InvalidNewChainId(*id));
                }
                if !Self::same_chain(&self.admin_id, admin_id) {
                    return Err(SystemExecutionError::InvalidNewChainAdminId(*id));
                }
                if !self.committees.equals(committees) {
                    return Err(SystemExecutionError::InvalidCommittees);
                }
                let same_epoch = match self.epoch {
                    Some(e) => e.0 == epoch.0,
                    None => false,
                };
                if !same_epoch {
                    return Err(SystemExecutionError::InvalidEpoch { chain_id: *id, epoch: *epoch });
                }
                let e1 = (
                    Destination::Recipient(*id),
                    SystemEffect::OpenChain {
                        id: *id,
                        owner: *owner,
                        committees: committees.duplicate(),
                        admin_id: *admin_id,
                        epoch: *epoch,
                    },
                );
                let e2 = (
                    Destination::Recipient(*admin_id),
                    SystemEffect::Subscribe { id: *id, channel: Self::admin_channel_id(*admin_id) },
                );
                let mut effects = Vec::new();
                effects.push(e1);
                effects.push(e2);
                let application = RawExecutionResult::from_effects(effects);
                proof {
                    assert(application@.effects =~= seq![
                        (
                            DestinationView::Recipient(*id),
                            SystemEffectView::OpenChain {
                                id: *id,
                                owner: *owner,
                                committees: committees@,
                                admin_id: *admin_id,
                                epoch: *epoch,
                            },
                        ),
                        (
                            DestinationView::Recipient(*admin_id),
                            SystemEffectView::Subscribe { id: *id, channel: admin_channel_of(*admin_id) },
                        ),
                    ]);
                    assert(application@.subscribe =~= Seq::<(Seq<char>, ChainId)>::empty());
                    assert(application@.unsubscribe =~= Seq::<(Seq<char>, ChainId)>::empty());
                }
                Ok(application)
            },
            SystemOperation::ChangeOwner { new_owner } => {
                self.ownership = ChainOwnership::single(*new_owner);
                Ok(RawExecutionResult::empty())
            },
            SystemOperation::ChangeMultipleOwners { new_owners } => {
                self.ownership = ChainOwnership::multiple(new_owners.clone());
                Ok(RawExecutionResult::empty())
            },
            SystemOperation::CloseChain => {
                self.ownership = ChainOwnership::none();
                let n = self.subscriptions.len();
                let mut effects: Vec<(Destination, SystemEffect)> = Vec::new();
                let mut i: usize = 0;
                while i < n
                    invariant
                        i <= n,
                        n == self.subscriptions@.len(),
                        effects@.len() == i,
                        forall|j: int| 0 <= j < i ==> (#[trigger] effects@[j]).0@ == unsubscribe_effect(context.chain_id, self.subscriptions@[j]).0
                            && effects@[j].1@ == unsubscribe_effect(context.chain_id, self.subscriptions@[j]).1,
                    decreases n - i,
                {
                    let channel = self.subscriptions.get(i);
                    let destination = Destination::Recipient(channel.chain_id);
                    effects.push(
                        (destination, SystemEffect::Unsubscribe { id: context.chain_id, channel }),
                    );
                    i = i + 1;
                }
                let ghost subs = self.subscriptions@;
                self.subscriptions.clear();
                let application = RawExecutionResult::from_effects(effects);
                proof {
                    assert(application@.effects =~= subs.map_values(|c: ChannelIdView| unsubscribe_effect(context.chain_id, c)));
                }
                Ok(application)
            },
            SystemOperation::Transfer { amount, recipient, .. } => {
                if amount.to_u64() == 0 {
                    return Err(SystemExecutionError::IncorrectTransferAmount);
                }
                if self.balance.to_u128() < amount.to_u64() as u128 {
                    return Err(SystemExecutionError::InsufficientFunding { current_balance: self.balance.to_u128() });
                }
                let outcome = self.balance.try_sub_assign(amount.to_balance());
                match outcome {
                    Ok(()) => {},
                    Err(e) => {
                        return Err(e);
                    },
                }
                let application = match recipient {
                    Address::Burn => RawExecutionResult::empty(),
                    Address::Account(id) => {
                        let mut effects = Vec::new();
                        effects.push(
                            (
                                Destination::Recipient(*id),
                                SystemEffect::Credit { amount: *amount, recipient: *id },
                            ),
                        );
                        RawExecutionResult::from_effects(effects)
                    },
                };
                proof {
                    assert(application@.effects =~= outcome_effects(*recipient, amount@));
                    assert(application@.subscribe =~= Seq::<(Seq<char>, ChainId)>::empty());
                    assert(application@.unsubscribe =~= Seq::<(Seq<char>, ChainId)>::empty());
                }
                Ok(application)
            },
            SystemOperation::CreateCommittee { admin_id, epoch, committee } => {
                if !Self::chain_eq(admin_id, &context.chain_id) {
                    return Err(SystemExecutionError::InvalidCommitteeCreation);
                }
                if !Self::same_chain(&self.admin_id, admin_id) {
                    return Err(SystemExecutionError::InvalidCommitteeCreation);
                }
                let current = match self.epoch {
                    Some(e) => e,
                    None => {
                        return Err(SystemExecutionError::InvalidCommitteeCreation);
                    },
                };
                let next = match current.try_add_one() {
                    Ok(n) => n,
                    Err(e) => {
                        return Err(SystemExecutionError::BaseError(e));
                    },
                };
                if epoch.0 != next.0 {
                    return Err(SystemExecutionError::InvalidCommitteeCreation);
                }
                self.committees.insert(*epoch, committee.duplicate());
                self.epoch = Some(*epoch);
                let mut effects = Vec::new();
                effects.push(
                    (
                        Destination::Subscribers(admin_channel()),
                        SystemEffect::SetCommittees {
                            admin_id: *admin_id,
                            epoch: *epoch,
                            committees: self.committees.duplicate(),
                        },
                    ),
                );
                let application = RawExecutionResult::from_effects(effects);
                proof {
                    assert(application@.effects =~= seq![
                        (
                            DestinationView::Subscribers(admin_channel_name()),
                            SystemEffectView::SetCommittees { admin_id: *admin_id, epoch: *epoch, committees: self.committees@ },
                        ),
                    ]);
                }
                Ok(application)
            },
            SystemOperation::RemoveCommittee { admin_id, epoch } => {
                if !Self::chain_eq(admin_id, &context.chain_id) {
                    return Err(SystemExecutionError::InvalidCommitteeRemoval);
                }
                if !Self::same_chain(&self.admin_id, admin_id) {
                    return Err(SystemExecutionError::InvalidCommitteeRemoval);
                }
                let ghost pre_committees = self.committees@;
                if !self.committees.remove(*epoch) {
                    proof {
                        assert(self.committees@ =~= pre_committees);
                    }
                    return Err(SystemExecutionError::InvalidCommitteeRemoval);
                }
                let current = match self.epoch {
                    Some(e) => e,
                    None => {
                        return Err(SystemExecutionError::InvalidCommitteeRemoval);
                    },
                };
                let mut effects = Vec::new();
                effects.push(
                    (
                        Destination::Subscribers(admin_channel()),
                        SystemEffect::SetCommittees {
                            admin_id: *admin_id,
                            epoch: current,
                            committees: self.committees.duplicate(),
                        },
                    ),
                );
                let application = RawExecutionResult::from_effects(effects);
                proof {
                    assert(application@.effects =~= seq![
                        (
                            DestinationView::Subscribers(admin_channel_name()),
                            SystemEffectView::SetCommittees { admin_id: *admin_id, epoch: current, committees: self.committees@ },
                        ),
                    ]);
                }
                Ok(application)
            },
            SystemOperation::SubscribeToNewCommittees { admin_id } => {
                if Self::chain_eq(&context.chain_id, admin_id) {
                    return Err(
                        SystemExecutionError::InvalidSubscriptionToNewCommittees(context.chain_id),
                    );
                }
                if !Self::same_chain(&self.admin_id, admin_id) {
                    return Err(
                        SystemExecutionError::InvalidSubscriptionToNewCommittees(context.chain_id),
                    );
                }
                let channel_id = Self::admin_channel_id(*admin_id);
                if self.subscriptions.contains(&channel_id) {
                    return Err(
                        SystemExecutionError::InvalidSubscriptionToNewCommittees(context.chain_id),
                    );
                }
                self.subscriptions.insert(channel_id);
                let mut effects = Vec::new();
                effects.push(
                    (
                        Destination::Recipient(*admin_id),
                        SystemEffect::Subscribe {
                            id: context.chain_id,
                            channel: Self::admin_channel_id(*admin_id),
                        },
                    ),
                );
                let application = RawExecutionResult::from_effects(effects);
                proof {
                    assert(application@.effects =~= seq![
                        (
                            DestinationView::Recipient(*admin_id),
                            SystemEffectView::Subscribe { id: context.chain_id, channel: admin_channel_of(*admin_id) },
                        ),
                    ]);
                }
                Ok(application)
            },
            SystemOperation::UnsubscribeToNewCommittees { admin_id } => {
                let channel_id = Self::admin_channel_id(*admin_id);
                if !self.subscriptions.contains(&channel_id) {
                    return Err(
                        SystemExecutionError::InvalidUnsubscriptionToNewCommittees(context.chain_id),
                    );
                }
                self.subscriptions.remove(&channel_id);
                let mut effects = Vec::new();
                effects.push(
                    (
                        Destination::Recipient(*admin_id),
                        SystemEffect::Unsubscribe {
                            id: context.chain_id,
                            channel: Self::admin_channel_id(*admin_id),
                        },
                    ),
                );
                let application = RawExecutionResult::from_effects(effects);
                proof {
                    assert(application@.effects =~= seq![
                        (
                            DestinationView::Recipient(*admin_id),
                            SystemEffectView::Unsubscribe { id: context.chain_id, channel: admin_channel_of(*admin_id) },
                        ),
                    ]);
                }
                Ok(application)
            },
            SystemOperation::PublishBytecode { .. } => {
                let mut effects = Vec::new();
                effects.push(
                    (
                        Destination::Subscribers(published_bytecodes_channel()),
                        SystemEffect::BytecodePublished,
                    ),
                );
                let application = RawExecutionResult::from_effects(effects);
                proof {
                    assert(application@.effects =~= seq![
                        (
                            DestinationView::Subscribers(published_bytecodes_channel_name()),
                            SystemEffectView::BytecodePublished,
                        ),
                    ]);
                }
                Ok(application)
            },
        }
    }
}

impl SystemExecutionStateView {
    /// Executes the recipient's side of an operation, aka a "remote effect". Effects
    /// that are not meant for this chain are skipped.
    pub fn execute_effect(
        &mut self,
        context: &EffectContext,
        effect: &SystemEffect,
    ) -> (r: Result<RawExecutionResult<SystemEffect>, SystemExecutionError>)
        requires
            effect_needs_epoch(old(self)@, effect@) ==> old(self)@.epoch is Some,
        ensures
            effect_step(old(self)@, final(self)@, *context, effect@, outcome_view(r)),
    {
        match effect {
            SystemEffect::Credit { amount, recipient } => {
                if Self::chain_eq(&context.chain_id, recipient) {
                    let new_balance = match self.balance.try_add(amount.to_balance()) {
                        Ok(b) => b,
                        Err(_) => Balance::max(),
                    };
                    self.balance = new_balance;
                }
                Ok(RawExecutionResult::empty())
            },
            SystemEffect::SetCommittees { admin_id, epoch, committees } => {
                if Self::same_chain(&self.admin_id, admin_id) {
                    let current = match self.epoch {
                        Some(e) => e,
                        None => {
                            return Err(SystemExecutionError::CannotRewindEpoch);
                        },
                    };
                    if epoch.0 < current.0 {
                        return Err(SystemExecutionError::CannotRewindEpoch);
                    }
                    self.epoch = Some(*epoch);
                    self.committees = committees.duplicate();
                }
                Ok(RawExecutionResult::empty())
            },
            SystemEffect::Subscribe { id, channel } => {
                if Self::chain_eq(&channel.chain_id, &context.chain_id) {
                    let mut effects = Vec::new();
                    effects.push((Destination::Recipient(*id), SystemEffect::Notify { id: *id }));
                    let mut subscribe = Vec::new();
                    subscribe.push((channel.name.clone(), *id));
                    let application = RawExecutionResult { effects, subscribe, unsubscribe: Vec::new() };
                    proof {
                        assert(application@.effects =~= seq![(DestinationView::Recipient(*id), SystemEffectView::Notify { id: *id })]);
                        assert(application@.subscribe =~= seq![(channel@.name, *id)]);
                        assert(application@.unsubscribe =~= Seq::<(Seq<char>, ChainId)>::empty());
                    }
                    Ok(application)
                } else {
                    Ok(RawExecutionResult::empty())
                }
            },
            SystemEffect::Unsubscribe { id, channel } => {
                if Self::chain_eq(&channel.chain_id, &context.chain_id) {
                    let mut effects = Vec::new();
                    effects.push((Destination::Recipient(*id), SystemEffect::Notify { id: *id }));
                    let mut unsubscribe = Vec::new();
                    unsubscribe.push((channel.name.clone(), *id));
                    let application = RawExecutionResult { effects, subscribe: Vec::new(), unsubscribe };
                    proof {
                        assert(application@.effects =~= seq![(DestinationView::Recipient(*id), SystemEffectView::Notify { id: *id })]);
                        assert(application@.unsubscribe =~= seq![(channel@.name, *id)]);
                        assert(application@.subscribe =~= Seq::<(Seq<char>, ChainId)>::empty());
                    }
                    Ok(application)
                } else {
                    Ok(RawExecutionResult::empty())
                }
            },
            SystemEffect::BytecodePublished => Ok(RawExecutionResult::empty()),
            SystemEffect::Notify { .. } => Ok(RawExecutionResult::empty()),
            SystemEffect::OpenChain { .. } => Ok(RawExecutionResult::empty()),
        }
    }

    /// Initializes the system application state on a newly opened chain: records its
    /// description, epoch, committees and admin chain, subscribes to the admin channel
    /// and installs the owner.
    ///
    /// The chain must not have been initialized before: no description, no owner and
    /// no committee. Its identifier `chain_id` must be `child_id`, the identifier derived
    /// from its description `ChainDescription::Child(effect_id)` (the hash of that
    /// description, which the caller computes).
    pub fn open_chain(
        &mut self,
        effect_id: EffectId,
        chain_id: ChainId,
        owner: Owner,
        epoch: Epoch,
        committees: Committees,
        admin_id: ChainId,
        child_id: &ChainId,
    )
        requires
            chain_id == *child_id,
            old(self)@.description is None,
            old(self)@.ownership is Inactive,
            old(self)@.committees == Map::<Epoch, CommitteeView>::empty(),
        ensures
            final(self)@.description == Some(ChainDescription::Child(effect_id)),
            final(self)@.epoch == Some(epoch),
            final(self)@.committees == committees@,
            final(self)@.admin_id == Some(admin_id),
            subscriptions_add(old(self)@.subscriptions, final(self)@.subscriptions, admin_channel_of(admin_id)),
            final(self)@.ownership == OwnershipView::Single(owner),
            final(self)@.balance == old(self)@.balance,
            committees@.dom().contains(epoch) ==> is_active_state(final(self)@),
    {
        self.description = Some(ChainDescription::Child(effect_id));
        self.epoch = Some(epoch);
        self.committees = committees;
        self.admin_id = Some(admin_id);
        self.subscriptions.insert(Self::admin_channel_id(admin_id));
        self.ownership = ChainOwnership::single(owner);
    }

    /// Answers a query: the chain and its balance.
    pub fn query_application(
        &self,
        context: &QueryContext,
        query: &SystemQuery,
    ) -> (r: Result<SystemResponse, SystemExecutionError>)
        ensures
            r == Ok::<SystemResponse, SystemExecutionError>(
                SystemResponse { chain_id: context.chain_id, balance: self.balance },
            ),
    {
        Ok(SystemResponse { chain_id: context.chain_id, balance: self.balance })
    }
}

/// The state of the system application of a chain, as plain values, from which a state
/// is built for tests and new chains.
#[derive(Debug)]
pub struct SystemExecutionState {
    pub description: Option<ChainDescription>,
    pub epoch: Option<Epoch>,
    pub admin_id: Option<ChainId>,
    pub subscriptions: Subscriptions,
    pub committees: Committees,
    pub ownership: ChainOwnership,
    pub balance: Balance,
}

impl Default for SystemExecutionState {
    /// The state of a chain that was never initialized: nothing is known of it, it has
    /// no owner, subscribes to nothing, trusts no committee and holds no money.
    fn default() -> (r: SystemExecutionState)
        ensures
            r.description is None,
            r.epoch is None,
            r.admin_id is None,
            r.subscriptions@ == Seq::<ChannelIdView>::empty(),
            r.committees@ == Map::<Epoch, CommitteeView>::empty(),
            r.ownership@ == OwnershipView::Inactive,
            r.balance@ == 0,
    {
        SystemExecutionState {
            description: None,
            epoch: None,
            admin_id: None,
            subscriptions: Subscriptions::new(),
            committees: Committees::new(),
            ownership: ChainOwnership::Inactive,
            balance: Balance::zero(),
        }
    }
}

impl SystemExecutionState {
    /// The state of the system application holding these values.
    pub fn into_view(self) -> (r: SystemExecutionStateView)
        ensures
            r.description == self.description,
            r.epoch == self.epoch,
            r.admin_id == self.admin_id,
            r.subscriptions@ == self.subscriptions@,
            r.committees@ == self.committees@,
            r.ownership@ == self.ownership@,
            r.balance == self.balance,
    {
        SystemExecutionStateView {
            description: self.description,
            epoch: self.epoch,
            admin_id: self.admin_id,
            subscriptions: self.subscriptions,
            committees: self.committees,
            ownership: self.ownership,
            balance: self.balance,
        }
    }
}

/// The effects of a transfer of `amount` to `recipient`.
pub open spec fn outcome_effects(recipient: Address, amount: u64) -> Seq<(DestinationView, SystemEffectView)> {
    match recipient {
        Address::Burn => seq![],
        Address::Account(id) => seq![
            (DestinationView::Recipient(id), SystemEffectView::Credit { recipient: id, amount }),
        ],
    }
}

/// A transfer between two chains conserves money: what the sender loses is what the
/// recipient gains when it executes the credit, unless the recipient's balance would go
/// past the largest balance.
pub proof fn law_transfer_conserves_money(
    sender_pre: SystemStateModel,
    sender_post: SystemStateModel,
    recipient_pre: SystemStateModel,
    recipient_post: SystemStateModel,
    context: OperationContext,
    recipient: ChainId,
    amount: Amount,
    user_data: UserData,
    child_id: ChainId,
    sent: RawExecutionResultView<SystemEffectView>,
    effect_context: EffectContext,
    received: Result<RawExecutionResultView<SystemEffectView>, SystemExecutionError>,
)
    requires
        operation_step(
            sender_pre,
            sender_post,
            context,
            &SystemOperation::Transfer { recipient: Address::Account(recipient), amount, user_data },
            child_id,
            Ok(sent),
        ),
        effect_context.chain_id == recipient,
        effect_step(recipient_pre, recipient_post, effect_context, sent.effects[0].1, received),
        recipient_pre.balance + amount@ <= u128::MAX,
    ensures
        sent.effects.len() == 1,
        sender_post.balance + recipient_post.balance == sender_pre.balance + recipient_pre.balance,
        sender_post.balance == sender_pre.balance - amount@,
        received == Ok::<RawExecutionResultView<SystemEffectView>, SystemExecutionError>(empty_result()),
{
}

/// A chain that transfers money to itself and then executes the credit is back where it
/// started.
pub proof fn law_self_transfer_restores_state(
    pre: SystemStateModel,
    mid: SystemStateModel,
    post: SystemStateModel,
    context: OperationContext,
    amount: Amount,
    user_data: UserData,
    child_id: ChainId,
    sent: RawExecutionResultView<SystemEffectView>,
    effect_context: EffectContext,
    received: Result<RawExecutionResultView<SystemEffectView>, SystemExecutionError>,
)
    requires
        operation_step(
            pre,
            mid,
            context,
            &SystemOperation::Transfer { recipient: Address::Account(effect_context.chain_id), amount, user_data },
            child_id,
            Ok(sent),
        ),
        effect_step(mid, post, effect_context, sent.effects[0].1, received),
    ensures
        post == pre,
{
}

/// No operation raises the balance of the chain that executes it, and only transfers
/// lower it.
pub proof fn law_operations_never_raise_balance(
    pre: SystemStateModel,
    post: SystemStateModel,
    context: OperationContext,
    operation: SystemOperation,
    child_id: ChainId,
    r: Result<RawExecutionResultView<SystemEffectView>, SystemExecutionError>,
)
    requires
        operation_step(pre, post, context, &operation, child_id, r),
    ensures
        post.balance <= pre.balance,
        !(operation is Transfer) ==> post.balance == pre.balance,
{
}

/// An operation that fails leaves the state as it was.
pub proof fn law_failed_operation_changes_nothing(
    pre: SystemStateModel,
    post: SystemStateModel,
    context: OperationContext,
    operation: SystemOperation,
    child_id: ChainId,
    r: Result<RawExecutionResultView<SystemEffectView>, SystemExecutionError>,
)
    requires
        operation_step(pre, post, context, &operation, child_id, r),
        r is Err,
    ensures
        post == pre,
{
}

/// An effect that fails leaves the state as it was.
pub proof fn law_failed_effect_changes_nothing(
    pre: SystemStateModel,
    post: SystemStateModel,
    context: EffectContext,
    effect: SystemEffectView,
    r: Result<RawExecutionResultView<SystemEffectView>, SystemExecutionError>,
)
    requires
        effect_step(pre, post, context, effect, r),
        r is Err,
    ensures
        post == pre,
{
}

/// The epoch of a chain never goes back, whatever operation or effect it executes.
pub proof fn law_epoch_never_goes_back(
    pre: SystemStateModel,
    after_operation: SystemStateModel,
    after_effect: SystemStateModel,
    context: OperationContext,
    operation: SystemOperation,
    child_id: ChainId,
    r: Result<RawExecutionResultView<SystemEffectView>, SystemExecutionError>,
    effect_context: EffectContext,
    effect: SystemEffectView,
    s: Result<RawExecutionResultView<SystemEffectView>, SystemExecutionError>,
)
    requires
        pre.epoch is Some,
        operation_step(pre, after_operation, context, &operation, child_id, r),
        effect_step(pre, after_effect, effect_context, effect, s),
    ensures
        after_operation.epoch is Some,
        after_operation.epoch.unwrap().0 >= pre.epoch.unwrap().0,
        after_effect.epoch is Some,
        after_effect.epoch.unwrap().0 >= pre.epoch.unwrap().0,
{
}

/// Unsubscribing from the admin channel undoes a subscription to it: the chain is
/// subscribed to the same channels as before.
pub proof fn law_unsubscribe_undoes_subscribe(
    pre: SystemStateModel,
    mid: SystemStateModel,
    post: SystemStateModel,
    chain_id: ChainId,
    admin_id: ChainId,
    subscribed_result: Result<RawExecutionResultView<SystemEffectView>, SystemExecutionError>,
    unsubscribed_result: Result<RawExecutionResultView<SystemEffectView>, SystemExecutionError>,
)
    requires
        subscribe_step(pre, mid, chain_id, admin_id, subscribed_result),
        subscribed_result is Ok,
        unsubscribe_step(mid, post, chain_id, admin_id, unsubscribed_result),
    ensures
        unsubscribed_result is Ok,
        forall|d: ChannelIdView| #[trigger] subscribed(post.subscriptions, d) == subscribed(pre.subscriptions, d),
        same_but_subscriptions(pre, post),
{
    let c = admin_channel_of(admin_id);
    assert(subscribed(mid.subscriptions, c));
    assert forall|d: ChannelIdView| #[trigger] subscribed(post.subscriptions, d) == subscribed(pre.subscriptions, d) by {
        assert(subscribed(post.subscriptions, d) == (subscribed(mid.subscriptions, d) && channel_key(d) != channel_key(c)));
        assert(subscribed(mid.subscriptions, d) == (subscribed(pre.subscriptions, d) || channel_key(d) == channel_key(c)));
        if channel_key(d) == channel_key(c) && subscribed(pre.subscriptions, d) {
            let k = choose|k: int| 0 <= k < pre.subscriptions.len() && channel_key(#[trigger] pre.subscriptions[k]) == channel_key(d);
            assert(subscribed(pre.subscriptions, c));
        }
    }
}

/// A chain cannot subscribe twice to the admin channel: the second request fails and
/// changes nothing.
pub proof fn law_subscribe_twice_fails(
    pre: SystemStateModel,
    mid: SystemStateModel,
    post: SystemStateModel,
    chain_id: ChainId,
    admin_id: ChainId,
    first: Result<RawExecutionResultView<SystemEffectView>, SystemExecutionError>,
    second: Result<RawExecutionResultView<SystemEffectView>, SystemExecutionError>,
)
    requires
        subscribe_step(pre, mid, chain_id, admin_id, first),
        first is Ok,
        subscribe_step(mid, post, chain_id, admin_id, second),
    ensures
        second == Err::<RawExecutionResultView<SystemEffectView>, SystemExecutionError>(
            SystemExecutionError::InvalidSubscriptionToNewCommittees(chain_id),
        ),
        post == mid,
{
    assert(subscribed(mid.subscriptions, admin_channel_of(admin_id)));
}

/// Removing the committee that the admin chain just created succeeds and leaves the
/// committees as they were but for that epoch, while the epoch stays the new one.
pub proof fn law_remove_undoes_create_committee(
    pre: SystemStateModel,
    mid: SystemStateModel,
    post: SystemStateModel,
    chain_id: ChainId,
    admin_id: ChainId,
    epoch: Epoch,
    committee: CommitteeView,
    created: Result<RawExecutionResultView<SystemEffectView>, SystemExecutionError>,
    removed: Result<RawExecutionResultView<SystemEffectView>, SystemExecutionError>,
)
    requires
        create_committee_step(pre, mid, chain_id, admin_id, epoch, committee, created),
        created is Ok,
        remove_committee_step(mid, post, chain_id, admin_id, epoch, removed),
    ensures
        removed is Ok,
        post.committees == pre.committees.remove(epoch),
        post.epoch == Some(epoch),
        !pre.committees.dom().contains(epoch) ==> post.committees == pre.committees,
{
    assert(post.committees =~= pre.committees.remove(epoch));
    if !pre.committees.dom().contains(epoch) {
        assert(pre.committees.remove(epoch) =~= pre.committees);
    }
}

} // verus!

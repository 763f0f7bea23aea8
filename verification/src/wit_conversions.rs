//! Conversions from the values a WebAssembly guest hands to the host.
//!
//! A guest passes hashes as eight 64-bit parts, identifiers as records of integers and
//! hashes, and execution results as lists. These are turned into the host's types.
use vstd::prelude::*;

use crate::base::{BlockHeight, ChainId, Destination, EffectId, HashValue};
use crate::system::RawExecutionResult;

verus! {

/// The state of a computation of a guest polled by its host: not finished, or finished
/// with a value.
#[derive(Clone, Copy, Debug, PartialEq, Eq, Structural)]
pub enum Poll {
    Pending,
    Ready(u32),
}

/// A hash as a guest passes it: eight 64-bit parts, the first part holding the first
/// eight bytes.
#[derive(Clone, Copy, Debug)]
pub struct GuestHashValue {
    pub part1: u64,
    pub part2: u64,
    pub part3: u64,
    pub part4: u64,
    pub part5: u64,
    pub part6: u64,
    pub part7: u64,
    pub part8: u64,
}

/// An effect identifier as a guest passes it.
#[derive(Clone, Copy, Debug)]
pub struct GuestEffectId {
    pub chain_id: GuestHashValue,
    pub height: u64,
    pub index: u64,
}

/// An application identifier as a guest passes it.
#[derive(Clone, Copy, Debug)]
pub struct GuestApplicationId {
    pub bytecode: GuestEffectId,
    pub creation: GuestEffectId,
}

/// A session identifier as a guest passes it.
#[derive(Clone, Copy, Debug)]
pub struct GuestSessionId {
    pub application_id: GuestApplicationId,
    pub kind: u64,
    pub index: u64,
}

/// The recipients of an effect as a guest passes them.
#[derive(Clone, Debug)]
pub enum GuestDestination {
    Recipient(GuestHashValue),
    Subscribers(String),
}

/// A new session as a guest describes it.
#[derive(Clone, Debug)]
pub struct GuestSessionResult {
    pub kind: u64,
    pub data: Vec<u8>,
}

/// An execution result as a guest passes it.
#[derive(Clone, Debug)]
pub struct GuestExecutionResult {
    pub effects: Vec<(GuestDestination, Vec<u8>)>,
    pub subscribe: Vec<(String, GuestHashValue)>,
    pub unsubscribe: Vec<(String, GuestHashValue)>,
}

/// The result of an application call as a guest passes it.
#[derive(Clone, Debug)]
pub struct GuestApplicationCallResult {
    pub value: Vec<u8>,
    pub execution_result: GuestExecutionResult,
    pub create_sessions: Vec<GuestSessionResult>,
}

/// The result of a session call as a guest passes it: the updated session data, if the
/// session stays open.
#[derive(Clone, Debug)]
pub struct GuestSessionCallResult {
    pub inner: GuestApplicationCallResult,
    pub data: Option<Vec<u8>>,
}

/// The identifier of an application bytecode: the effect that published it.
#[derive(Clone, Copy, Debug)]
pub struct BytecodeId(pub EffectId);

/// The identifier of a user application: its bytecode and the effect that created it.
#[derive(Clone, Copy, Debug)]
pub struct UserApplicationId {
    pub bytecode: BytecodeId,
    pub creation: EffectId,
}

/// The identifier of a session.
#[derive(Clone, Copy, Debug)]
pub struct SessionId {
    pub application_id: UserApplicationId,
    pub kind: u64,
    pub index: u64,
}

/// A session to create.
#[derive(Clone, Debug)]
pub struct NewSession {
    pub kind: u64,
    pub data: Vec<u8>,
}

/// The result of an application call.
#[derive(Debug)]
pub struct ApplicationCallResult {
    pub value: Vec<u8>,
    pub execution_result: RawExecutionResult<Vec<u8>>,
    pub create_sessions: Vec<NewSession>,
}

/// The result of a session call.
#[derive(Debug)]
pub struct SessionCallResult {
    pub inner: ApplicationCallResult,
    pub close_session: bool,
}

/// The eight bytes of `x`, least significant first.
pub open spec fn le_bytes(x: u64) -> Seq<u8> {
    seq![
        (x % 0x100) as u8,
        ((x / 0x100) % 0x100) as u8,
        ((x / 0x10000) % 0x100) as u8,
        ((x / 0x1000000) % 0x100) as u8,
        ((x / 0x100000000) % 0x100) as u8,
        ((x / 0x10000000000) % 0x100) as u8,
        ((x / 0x1000000000000) % 0x100) as u8,
        ((x / 0x100000000000000) % 0x100) as u8,
    ]
}

/// The 64 bytes of a hash passed by a guest.
pub open spec fn guest_hash_bytes(g: GuestHashValue) -> Seq<u8> {
    le_bytes(g.part1) + le_bytes(g.part2) + le_bytes(g.part3) + le_bytes(g.part4) + le_bytes(
        g.part5,
    ) + le_bytes(g.part6) + le_bytes(g.part7) + le_bytes(g.part8)
}

/// Writes the bytes of `x`, least significant first, at `offset` in `bytes`.
fn write_le_bytes(bytes: &mut [u8; 64], offset: usize, x: u64)
    requires
        offset + 8 <= 64,
    ensures
        final(bytes)@ == old(bytes)@.take(offset as int) + le_bytes(x) + old(bytes)@.skip(offset + 8),
{
    bytes[offset] = (x % 0x100) as u8;
    bytes[offset + 1] = ((x / 0x100) % 0x100) as u8;
    bytes[offset + 2] = ((x / 0x10000) % 0x100) as u8;
    bytes[offset + 3] = ((x / 0x1000000) % 0x100) as u8;
    bytes[offset + 4] = ((x / 0x100000000) % 0x100) as u8;
    bytes[offset + 5] = ((x / 0x10000000000) % 0x100) as u8;
    bytes[offset + 6] = ((x / 0x1000000000000) % 0x100) as u8;
    bytes[offset + 7] = ((x / 0x100000000000000) % 0x100) as u8;
    assert(bytes@ =~= old(bytes)@.take(offset as int) + le_bytes(x) + old(bytes)@.skip(offset + 8));
}

impl HashValue {
    /// The hash a guest passed as eight parts: the little-endian bytes of the parts, in
    /// order.
    pub fn from_guest(guest: GuestHashValue) -> (r: HashValue)
        ensures
            r@ == guest_hash_bytes(guest),
    {
        let mut bytes = [0u8; 64];
        write_le_bytes(&mut bytes, 0, guest.part1);
        write_le_bytes(&mut bytes, 8, guest.part2);
        write_le_bytes(&mut bytes, 16, guest.part3);
        write_le_bytes(&mut bytes, 24, guest.part4);
        write_le_bytes(&mut bytes, 32, guest.part5);
        write_le_bytes(&mut bytes, 40, guest.part6);
        write_le_bytes(&mut bytes, 48, guest.part7);
        write_le_bytes(&mut bytes, 56, guest.part8);
        assert(bytes@ =~= guest_hash_bytes(guest));
        HashValue { bytes }
    }
}

impl ChainId {
    /// The chain whose identifier a guest passed.
    pub fn from_guest(guest: GuestHashValue) -> (r: ChainId)
        ensures
            r@ == guest_hash_bytes(guest),
    {
        ChainId(HashValue::from_guest(guest))
    }
}

impl EffectId {
    /// The effect identifier a guest passed. Its index must fit in a `usize`.
    pub fn from_guest(guest: GuestEffectId) -> (r: EffectId)
        requires
            guest.index <= usize::MAX,
        ensures
            r.chain_id@ == guest_hash_bytes(guest.chain_id),
            r.height == BlockHeight(guest.height),
            r.index == guest.index,
    {
        EffectId {
            chain_id: ChainId::from_guest(guest.chain_id),
            height: BlockHeight(guest.height),
            index: guest.index as usize,
        }
    }
}

impl BytecodeId {
    /// The bytecode identifier a guest passed: the effect that published it.
    pub fn from_guest(guest: GuestEffectId) -> (r: BytecodeId)
        requires
            guest.index <= usize::MAX,
        ensures
            r.0.chain_id@ == guest_hash_bytes(guest.chain_id),
            r.0.height == BlockHeight(guest.height),
            r.0.index == guest.index,
    {
        BytecodeId(EffectId::from_guest(guest))
    }
}

impl UserApplicationId {
    /// The application identifier a guest passed.
    pub fn from_guest(guest: GuestApplicationId) -> (r: UserApplicationId)
        requires
            guest.bytecode.index <= usize::MAX,
            guest.creation.index <= usize::MAX,
        ensures
            r.bytecode.0.chain_id@ == guest_hash_bytes(guest.bytecode.chain_id),
            r.bytecode.0.height == BlockHeight(guest.bytecode.height),
            r.bytecode.0.index == guest.bytecode.index,
            r.creation.chain_id@ == guest_hash_bytes(guest.creation.chain_id),
            r.creation.height == BlockHeight(guest.creation.height),
            r.creation.index == guest.creation.index,
    {
        UserApplicationId {
            bytecode: BytecodeId::from_guest(guest.bytecode),
            creation: EffectId::from_guest(guest.creation),
        }
    }
}

impl SessionId {
    /// The session identifier a guest passed.
    pub fn from_guest(guest: GuestSessionId) -> (r: SessionId)
        requires
            guest.application_id.bytecode.index <= usize::MAX,
            guest.application_id.creation.index <= usize::MAX,
        ensures
            r.application_id.bytecode.0.chain_id@ == guest_hash_bytes(guest.application_id.bytecode.chain_id),
            r.application_id.bytecode.0.height == BlockHeight(guest.application_id.bytecode.height),
            r.application_id.bytecode.0.index == guest.application_id.bytecode.index,
            r.application_id.creation.chain_id@ == guest_hash_bytes(guest.application_id.creation.chain_id),
            r.application_id.creation.height == BlockHeight(guest.application_id.creation.height),
            r.application_id.creation.index == guest.application_id.creation.index,
            r.kind == guest.kind,
            r.index == guest.index,
    {
        SessionId {
            application_id: UserApplicationId::from_guest(guest.application_id),
            kind: guest.kind,
            index: guest.index,
        }
    }
}

/// Whether `d` designates the recipients that the guest designated with `g`.
pub open spec fn destination_from_guest(d: Destination, g: GuestDestination) -> bool {
    match (g, d) {
        (GuestDestination::Recipient(h), Destination::Recipient(id)) => id@ == guest_hash_bytes(h),
        (GuestDestination::Subscribers(n), Destination::Subscribers(m)) => m@ == n@,
        _ => false,
    }
}

impl Destination {
    /// The recipients a guest designated.
    pub fn from_guest(guest: &GuestDestination) -> (r: Destination)
        ensures
            destination_from_guest(r, *guest),
    {
        match guest {
            GuestDestination::Recipient(chain_id) => Destination::Recipient(ChainId::from_guest(*chain_id)),
            GuestDestination::Subscribers(channel_id) => Destination::Subscribers(channel_id.clone()),
        }
    }
}

impl NewSession {
    /// The session a guest asked to create.
    pub fn from_guest(guest: &GuestSessionResult) -> (r: NewSession)
        ensures
            r.kind == guest.kind,
            r.data@ == guest.data@,
    {
        NewSession { kind: guest.kind, data: copy_bytes(&guest.data) }
    }
}

/// A copy of a byte vector.
fn copy_bytes(v: &Vec<u8>) -> (r: Vec<u8>)
    ensures
        r@ == v@,
{
    let n = v.len();
    let mut out: Vec<u8> = Vec::new();
    let mut i: usize = 0;
    while i < n
        invariant
            i <= n,
            n == v@.len(),
            out@ == v@.subrange(0, i as int),
        decreases n - i,
    {
        out.push(v[i]);
        i = i + 1;
    }
    assert(out@ =~= v@);
    out
}

/// A copy of a list of channel names paired with guest chains, as host chains.
fn convert_subscriptions(v: &Vec<(String, GuestHashValue)>) -> (r: Vec<(String, ChainId)>)
    ensures
        r@.len() == v@.len(),
        forall|i: int| 0 <= i < v@.len() ==> (#[trigger] r@[i]).0@ == v@[i].0@ && r@[i].1@ == guest_hash_bytes(v@[i].1),
{
    let n = v.len();
    let mut out: Vec<(String, ChainId)> = Vec::new();
    let mut i: usize = 0;
    while i < n
        invariant
            i <= n,
            n == v@.len(),
            out@.len() == i,
            forall|j: int| 0 <= j < i ==> (#[trigger] out@[j]).0@ == v@[j].0@ && out@[j].1@ == guest_hash_bytes(v@[j].1),
        decreases n - i,
    {
        let (name, chain) = &v[i];
        out.push((name.clone(), ChainId::from_guest(*chain)));
        i = i + 1;
    }
    out
}

/// Whether `r` is the execution result that the guest passed as `g`: each effect with its
/// recipients and bytes, and each channel subscription and unsubscription with its name
/// and chain, in the same order.
pub open spec fn execution_result_from_guest(r: RawExecutionResult<Vec<u8>>, g: GuestExecutionResult) -> bool {
    &&& r.effects@.len() == g.effects@.len()
    &&& forall|i: int| 0 <= i < g.effects@.len() ==> destination_from_guest((#[trigger] r.effects@[i]).0, g.effects@[i].0)
        && r.effects@[i].1@ == g.effects@[i].1@
    &&& r.subscribe@.len() == g.subscribe@.len()
    &&& forall|i: int| 0 <= i < g.subscribe@.len() ==> (#[trigger] r.subscribe@[i]).0@ == g.subscribe@[i].0@
        && r.subscribe@[i].1@ == guest_hash_bytes(g.subscribe@[i].1)
    &&& r.unsubscribe@.len() == g.unsubscribe@.len()
    &&& forall|i: int| 0 <= i < g.unsubscribe@.len() ==> (#[trigger] r.unsubscribe@[i]).0@ == g.unsubscribe@[i].0@
        && r.unsubscribe@[i].1@ == guest_hash_bytes(g.unsubscribe@[i].1)
}

/// Whether `r` is the result of an application call that the guest passed as `g`: the
/// same value, the same sessions to create (kind and data, in order), and the same
/// execution result.
pub open spec fn call_result_from_guest(r: ApplicationCallResult, g: GuestApplicationCallResult) -> bool {
    &&& r.value@ == g.value@
    &&& r.create_sessions@.len() == g.create_sessions@.len()
    &&& forall|i: int| 0 <= i < g.create_sessions@.len() ==> (#[trigger] r.create_sessions@[i]).kind == g.create_sessions@[i].kind
        && r.create_sessions@[i].data@ == g.create_sessions@[i].data@
    &&& execution_result_from_guest(r.execution_result, g.execution_result)
}

impl RawExecutionResult<Vec<u8>> {
    /// The execution result a guest passed: each effect with its recipients, and the
    /// channel subscriptions and unsubscriptions, in the same order.
    pub fn from_guest(guest: &GuestExecutionResult) -> (r: RawExecutionResult<Vec<u8>>)
        ensures
            execution_result_from_guest(r, *guest),
    {
        let n = guest.effects.len();
        let mut effects: Vec<(Destination, Vec<u8>)> = Vec::new();
        let mut i: usize = 0;
        while i < n
            invariant
                i <= n,
                n == guest.effects@.len(),
                effects@.len() == i,
                forall|j: int| 0 <= j < i ==> destination_from_guest((#[trigger] effects@[j]).0, guest.effects@[j].0)
                    && effects@[j].1@ == guest.effects@[j].1@,
            decreases n - i,
        {
            let (destination, effect) = &guest.effects[i];
            let d = Destination::from_guest(destination);
            effects.push((d, copy_bytes(effect)));
            i = i + 1;
        }
        RawExecutionResult {
            effects,
            subscribe: convert_subscriptions(&guest.subscribe),
            unsubscribe: convert_subscriptions(&guest.unsubscribe),
        }
    }
}

impl ApplicationCallResult {
    /// The result of an application call a guest passed.
    pub fn from_guest(guest: &GuestApplicationCallResult) -> (r: ApplicationCallResult)
        ensures
            call_result_from_guest(r, *guest),
    {
        let n = guest.create_sessions.len();
        let mut create_sessions: Vec<NewSession> = Vec::new();
        let mut i: usize = 0;
        while i < n
            invariant
                i <= n,
                n == guest.create_sessions@.len(),
                create_sessions@.len() == i,
                forall|j: int| 0 <= j < i ==> (#[trigger] create_sessions@[j]).kind == guest.create_sessions@[j].kind
                    && create_sessions@[j].data@ == guest.create_sessions@[j].data@,
            decreases n - i,
        {
            create_sessions.push(NewSession::from_guest(&guest.create_sessions[i]));
            i = i + 1;
        }
        ApplicationCallResult {
            create_sessions,
            execution_result: RawExecutionResult::from_guest(&guest.execution_result),
            value: copy_bytes(&guest.value),
        }
    }
}

impl SessionCallResult {
    /// The result of a session call a guest passed, and the updated session data. The
    /// `close_session` flag is set exactly when the guest passed data; the updated data
    /// is that data, or empty when the guest passed none.
    pub fn from_guest(guest: &GuestSessionCallResult) -> (r: (SessionCallResult, Vec<u8>))
        ensures
            r.0.close_session == guest.data is Some,
            r.1@ == match guest.data {
                Some(d) => d@,
                None => Seq::<u8>::empty(),
            },
            call_result_from_guest(r.0.inner, guest.inner),
    {
        let session_call_result = SessionCallResult {
            inner: ApplicationCallResult::from_guest(&guest.inner),
            close_session: guest.data.is_some(),
        };
        let updated_session_data = match &guest.data {
            Some(d) => copy_bytes(d),
            None => Vec::new(),
        };
        (session_call_result, updated_session_data)
    }
}

} // verus!

//! Identifiers and small data types shared by the system application and the worker.
use vstd::prelude::*;

verus! {

/// Compares two byte arrays of the same length.
pub fn bytes_eq<const N: usize>(a: &[u8; N], b: &[u8; N]) -> (r: bool)
    ensures
        r == (a@ == b@),
{
    let mut i: usize = 0;
    while i < N
        invariant
            i <= N,
            a@.len() == N,
            b@.len() == N,
            forall|j: int| 0 <= j < i ==> a@[j] == b@[j],
        decreases N - i,
    {
        if a[i] != b[i] {
            return false;
        }
        i = i + 1;
    }
    assert(a@ =~= b@);
    true
}

/// A cryptographic hash value of 64 bytes.
#[derive(Clone, Copy, Debug)]
pub struct HashValue {
    pub bytes: [u8; 64],
}

impl View for HashValue {
    type V = Seq<u8>;

    open spec fn view(&self) -> Seq<u8> {
        self.bytes@
    }
}

impl HashValue {
    /// Whether the two hashes hold the same bytes.
    pub fn equals(&self, other: &HashValue) -> (r: bool)
        ensures
            r == (self@ == other@),
    {
        bytes_eq(&self.bytes, &other.bytes)
    }
}

/// A public key of 32 bytes.
#[derive(Clone, Copy, Debug)]
pub struct PublicKey {
    pub bytes: [u8; 32],
}

impl View for PublicKey {
    type V = Seq<u8>;

    open spec fn view(&self) -> Seq<u8> {
        self.bytes@
    }
}

impl PublicKey {
    /// Whether the two keys hold the same bytes.
    pub fn equals(&self, other: &PublicKey) -> (r: bool)
        ensures
            r == (self@ == other@),
    {
        bytes_eq(&self.bytes, &other.bytes)
    }
}

/// The unique identifier of a chain: the hash of its description.
#[derive(Clone, Copy, Debug)]
pub struct ChainId(pub HashValue);

impl View for ChainId {
    type V = Seq<u8>;

    open spec fn view(&self) -> Seq<u8> {
        self.0@
    }
}

impl ChainId {
    /// Whether the two identifiers are the same.
    pub fn equals(&self, other: &ChainId) -> (r: bool)
        ensures
            r == (self@ == other@),
    {
        self.0.equals(&other.0)
    }
}

/// The owner of a chain, designated by its public key.
#[derive(Clone, Copy, Debug)]
pub struct Owner(pub PublicKey);

impl View for Owner {
    type V = Seq<u8>;

    open spec fn view(&self) -> Seq<u8> {
        self.0@
    }
}

/// The number identifying a configuration of the validators.
#[derive(Clone, Copy, Debug, PartialEq, Eq, Structural, PartialOrd, Ord, Hash)]
pub struct Epoch(pub u64);

/// The errors raised by the base types.
#[derive(Clone, Copy, Debug, PartialEq, Eq, Structural)]
pub enum BaseError {
    /// A sequence number (an epoch, a block height) would overflow.
    SequenceOverflow,
}

impl Epoch {
    /// The next epoch, unless this one is the last representable epoch.
    pub fn try_add_one(self) -> (r: Result<Epoch, BaseError>)
        ensures
            self.0 < u64::MAX ==> r == Ok::<Epoch, BaseError>(Epoch((self.0 + 1) as u64)),
            self.0 == u64::MAX ==> r == Err::<Epoch, BaseError>(BaseError::SequenceOverflow),
    {
        if self.0 == u64::MAX {
            Err(BaseError::SequenceOverflow)
        } else {
            Ok(Epoch(self.0 + 1))
        }
    }
}

/// The height of a block in its chain.
#[derive(Clone, Copy, Debug, PartialEq, Eq, Structural, PartialOrd, Ord, Hash)]
pub struct BlockHeight(pub u64);

impl BlockHeight {
    /// The next height, unless this one is the last representable height.
    pub fn try_add_one(self) -> (r: Result<BlockHeight, BaseError>)
        ensures
            self.0 < u64::MAX ==> r == Ok::<BlockHeight, BaseError>(
                BlockHeight((self.0 + 1) as u64),
            ),
            self.0 == u64::MAX ==> r == Err::<BlockHeight, BaseError>(BaseError::SequenceOverflow),
    {
        if self.0 == u64::MAX {
            Err(BaseError::SequenceOverflow)
        } else {
            Ok(BlockHeight(self.0 + 1))
        }
    }
}

/// The identifier of an effect (a message) created by a block: the chain, the height of
/// the block and the index of the effect in the block.
#[derive(Clone, Copy, Debug)]
pub struct EffectId {
    pub chain_id: ChainId,
    pub height: BlockHeight,
    pub index: usize,
}

/// The identifier of an application: the index in the list of known applications, the
/// system application being the index zero.
#[derive(Clone, Copy, Debug, PartialEq, Eq, Structural, PartialOrd, Ord, Hash)]
pub struct ApplicationId(pub u64);

/// The bytecode of a WebAssembly module.
#[derive(Clone, Debug)]
pub struct Bytecode {
    pub bytes: Vec<u8>,
}

impl Bytecode {
    /// A copy of the bytecode.
    pub fn duplicate(&self) -> (r: Bytecode)
        ensures
            r@ == self@,
    {
        let n = self.bytes.len();
        let mut bytes: Vec<u8> = Vec::new();
        let mut i: usize = 0;
        while i < n
            invariant
                i <= n,
                n == self.bytes@.len(),
                bytes@ == self.bytes@.subrange(0, i as int),
            decreases n - i,
        {
            bytes.push(self.bytes[i]);
            i = i + 1;
        }
        assert(bytes@ =~= self.bytes@);
        Bytecode { bytes }
    }
}

impl View for Bytecode {
    type V = Seq<u8>;

    open spec fn view(&self) -> Seq<u8> {
        self.bytes@
    }
}

/// How a chain was created.
#[derive(Clone, Copy, Debug)]
pub enum ChainDescription {
    /// A chain created by the genesis configuration.
    Root(usize),
    /// A chain created by an effect of another chain.
    Child(EffectId),
}

/// A channel: the chain that publishes on it, and its name.
#[derive(Clone, Debug)]
pub struct ChannelId {
    pub chain_id: ChainId,
    pub name: String,
}

/// The plain content of a channel identifier.
pub struct ChannelIdView {
    pub chain_id: ChainId,
    pub name: Seq<char>,
}

impl View for ChannelId {
    type V = ChannelIdView;

    open spec fn view(&self) -> ChannelIdView {
        ChannelIdView { chain_id: self.chain_id, name: self.name@ }
    }
}

impl ChannelId {
    /// Whether the two channel identifiers are the same.
    pub fn equals(&self, other: &ChannelId) -> (r: bool)
        ensures
            r == (self@ == other@),
    {
        let same_chain = self.chain_id.equals(&other.chain_id);
        let same_name = self.name == other.name;
        proof {
            if same_chain {
                assert(self.chain_id.0.bytes =~= other.chain_id.0.bytes);
            }
        }
        same_chain && same_name
    }
}

/// The recipients of an effect.
#[derive(Clone, Debug)]
pub enum Destination {
    /// A single chain.
    Recipient(ChainId),
    /// The subscribers of the channel with the given name on the sending chain.
    Subscribers(String),
}

/// The voting power of one validator in a committee.
#[derive(Clone, Copy, Debug)]
pub struct ValidatorState {
    pub name: PublicKey,
    pub votes: u64,
}

/// A committee of validators, listed in the order of their names.
#[derive(Clone, Debug)]
pub struct Committee {
    pub validators: Vec<ValidatorState>,
}

impl View for Committee {
    type V = Seq<ValidatorState>;

    open spec fn view(&self) -> Seq<ValidatorState> {
        self.validators@
    }
}

impl Committee {
    /// A copy of the committee.
    pub fn duplicate(&self) -> (r: Committee)
        ensures
            r@ == self@,
            r.validators@ == self.validators@,
    {
        let n = self.validators.len();
        let mut validators: Vec<ValidatorState> = Vec::new();
        let mut i: usize = 0;
        while i < n
            invariant
                i <= n,
                n == self.validators@.len(),
                validators@ == self.validators@.subrange(0, i as int),
            decreases n - i,
        {
            validators.push(self.validators[i]);
            i = i + 1;
        }
        assert(validators@ =~= self.validators@);
        Committee { validators }
    }

    /// Whether the two committees hold the same validators with the same votes.
    pub fn equals(&self, other: &Committee) -> (r: bool)
        ensures
            r == (self@ == other@),
    {
        if self.validators.len() != other.validators.len() {
            assert(self@.len() != other@.len());
            return false;
        }
        let n = self.validators.len();
        let mut i: usize = 0;
        while i < n
            invariant
                i <= n,
                n == self.validators@.len(),
                n == other.validators@.len(),
                forall|j: int| 0 <= j < i ==> self@[j] == other@[j],
            decreases n - i,
        {
            let a = &self.validators[i];
            let b = &other.validators[i];
            if !a.name.equals(&b.name) || a.votes != b.votes {
                assert(self@[i as int] != other@[i as int]);
                return false;
            }
            assert(a.name.bytes =~= b.name.bytes);
            i = i + 1;
        }
        assert(self@ =~= other@);
        true
    }
}

/// The owners allowed to propose blocks on a chain.
#[derive(Clone, Debug)]
pub enum ChainOwnership {
    /// The chain is not active (closed, or not yet opened).
    Inactive,
    /// The chain is owned by a single key.
    Single { owner: Owner },
    /// The chain is owned by several keys.
    Multi { owners: Vec<Owner> },
}

impl ChainOwnership {
    /// A chain owned by `owner` alone.
    pub fn single(owner: Owner) -> (r: ChainOwnership)
        ensures
            r == (ChainOwnership::Single { owner }),
    {
        ChainOwnership::Single { owner }
    }

    /// A chain owned by all of `owners`.
    pub fn multiple(owners: Vec<Owner>) -> (r: ChainOwnership)
        ensures
            r == (ChainOwnership::Multi { owners }),
    {
        ChainOwnership::Multi { owners }
    }

    /// The ownership of an inactive chain.
    pub fn none() -> (r: ChainOwnership)
        ensures
            r is Inactive,
    {
        ChainOwnership::Inactive
    }

    /// Whether some key may propose blocks.
    pub fn is_active(&self) -> (r: bool)
        ensures
            r == !(self is Inactive),
    {
        match self {
            ChainOwnership::Inactive => false,
            _ => true,
        }
    }
}

} // verus!

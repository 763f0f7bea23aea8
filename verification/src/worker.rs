//! The decisions a worker takes when it handles certificates, block proposals, chain
//! information queries and cross-chain requests.
//!
//! Loading chains and certificates from storage, executing blocks and sending network
//! messages happen around these functions; they take the values read and return what
//! to do next.
use vstd::prelude::*;

use crate::base::{bytes_eq, ApplicationId, BlockHeight, ChainId, Epoch, Owner};

verus! {

/// A 32-byte cryptographic hash.
#[derive(Clone, Copy, Debug)]
pub struct CryptoHash {
    pub bytes: [u8; 32],
}

impl CryptoHash {
    /// Whether the two hashes are the same.
    pub fn equals(&self, other: &CryptoHash) -> (r: bool)
        ensures
            r == (*self == *other),
    {
        let r = bytes_eq(&self.bytes, &other.bytes);
        proof {
            if r {
                assert(self.bytes =~= other.bytes);
            }
        }
        r
    }
}

/// The identifier of a blob: the hash of its content.
#[derive(Clone, Copy, Debug)]
pub struct BlobId(pub CryptoHash);

/// Where the bytecode of an application was published: the certificate of the block and
/// the index of the operation in it.
#[derive(Clone, Copy, Debug)]
pub struct BytecodeLocation {
    pub certificate_hash: CryptoHash,
    pub operation_index: u32,
}

/// Overflow or underflow in an arithmetic operation.
#[derive(Clone, Copy, Debug, PartialEq, Eq, Structural)]
pub enum ArithmeticError {
    Overflow,
    Underflow,
}

/// Errors raised while handling requests.
#[derive(Clone, Debug)]
pub enum WorkerError {
    ArithmeticError(ArithmeticError),
    /// Block was not signed by an authorized owner.
    InvalidOwner,
    /// Operations in the block are not authenticated by the proper signer.
    InvalidSigner(Owner),
    /// Was expecting another block height.
    UnexpectedBlockHeight { expected_block_height: BlockHeight, found_block_height: BlockHeight },
    /// Cannot confirm a block before its predecessors.
    MissingEarlierBlocks { current_block_height: BlockHeight },
    /// The block is not at the epoch of the chain.
    InvalidEpoch { chain_id: ChainId, chain_epoch: Epoch, epoch: Epoch },
    /// Invalid cross-chain request.
    InvalidCrossChainRequest,
    /// The block does not contain the hash that we expected for the previous block.
    InvalidBlockChaining,
    /// The given outgoing messages are not what we computed after executing the block;
    /// the messages are given in their serialized form.
    IncorrectMessages { computed: Vec<Vec<u8>>, submitted: Vec<Vec<u8>> },
    /// The given state hash is not what we computed after executing the block.
    IncorrectStateHash,
    /// The given message counts are not what we computed after executing the block.
    IncorrectMessageCounts,
    /// The timestamp of the block is too far in the future.
    InvalidTimestamp,
    /// We don't have the value for the certificate.
    MissingCertificateValue,
    /// The hash certificate doesn't match its value.
    InvalidLiteCertificate,
    /// An additional value was provided that is not required.
    UnneededValue { value_hash: CryptoHash },
    /// An additional blob was provided that is not required.
    UnneededBlob { blob_id: BlobId },
    /// The values containing these application bytecodes are missing.
    ApplicationBytecodesNotFound(Vec<BytecodeLocation>),
    /// The certificate in the block proposal is not a validated block.
    MissingExecutedBlockInProposal,
    /// Fast blocks cannot query oracles.
    FastBlockUsingOracles,
    /// These blobs are missing.
    BlobsNotFound(Vec<BlobId>),
    /// These application bytecodes and these blobs are missing.
    ApplicationBytecodesAndBlobsNotFound(Vec<BytecodeLocation>, Vec<BlobId>),
    /// The block proposal is malformed, for the given reason.
    InvalidBlockProposal(String),
}

/// Returns an error if the block is not at the epoch of the chain.
pub fn check_block_epoch(chain_epoch: Epoch, block_chain_id: ChainId, block_epoch: Epoch) -> (r: Result<(), WorkerError>)
    ensures
        block_epoch == chain_epoch ==> r is Ok,
        block_epoch != chain_epoch ==> (r matches Err(WorkerError::InvalidEpoch { chain_id, chain_epoch: ce, epoch })
            && chain_id == block_chain_id && ce == chain_epoch && epoch == block_epoch),
{
    if block_epoch.0 == chain_epoch.0 {
        Ok(())
    } else {
        Err(WorkerError::InvalidEpoch { chain_id: block_chain_id, chain_epoch, epoch: block_epoch })
    }
}

/// What to do with a confirmed block, given the height of the next block of its chain.
#[derive(Clone, Copy, Debug, PartialEq, Eq, Structural)]
pub enum ConfirmationStep {
    /// The block was already confirmed: answer with the current chain information.
    AlreadyConfirmed,
    /// The block is the next one: verify and execute it.
    Execute,
}

/// How a confirmed block at `block_height` is processed on a chain whose next block is
/// at `next_block_height`: a block from the future is refused, a block from the past
/// was already confirmed, and the next block is executed.
pub open spec fn confirmation_of(next_block_height: BlockHeight, block_height: BlockHeight) -> Result<ConfirmationStep, WorkerError> {
    if next_block_height.0 < block_height.0 {
        Err(WorkerError::MissingEarlierBlocks { current_block_height: next_block_height })
    } else if next_block_height.0 > block_height.0 {
        Ok(ConfirmationStep::AlreadyConfirmed)
    } else {
        Ok(ConfirmationStep::Execute)
    }
}

/// Once the tip has advanced past a block it executed, the same block is only answered
/// as already confirmed, and the block after it is the one to execute.
pub proof fn law_confirmed_block_executes_once(tip_before: ChainTipState, tip_after: ChainTipState, block_height: BlockHeight)
    requires
        confirmation_of(tip_before.next_block_height, block_height) == Ok::<ConfirmationStep, WorkerError>(ConfirmationStep::Execute),
        tip_after.next_block_height.0 == tip_before.next_block_height.0 + 1,
    ensures
        confirmation_of(tip_after.next_block_height, block_height) == Ok::<ConfirmationStep, WorkerError>(ConfirmationStep::AlreadyConfirmed),
        confirmation_of(tip_after.next_block_height, BlockHeight((block_height.0 + 1) as u64)) == Ok::<ConfirmationStep, WorkerError>(ConfirmationStep::Execute),
{
}

/// Decides how to process a confirmed block at `block_height` on a chain whose next
/// block is at `next_block_height`: blocks must be confirmed in order.
pub fn confirmed_block_step(next_block_height: BlockHeight, block_height: BlockHeight) -> (r: Result<ConfirmationStep, WorkerError>)
    ensures
        r == confirmation_of(next_block_height, block_height),
{
    if next_block_height.0 < block_height.0 {
        return Err(WorkerError::MissingEarlierBlocks { current_block_height: next_block_height });
    }
    if next_block_height.0 > block_height.0 {
        return Ok(ConfirmationStep::AlreadyConfirmed);
    }
    Ok(ConfirmationStep::Execute)
}

/// Returns an error naming what is missing: bytecode values, blobs, or both.
pub fn check_no_missing_blobs(missing_bytecodes: Vec<BytecodeLocation>, missing_blobs: Vec<BlobId>) -> (r: Result<(), WorkerError>)
    ensures
        missing_bytecodes@.len() == 0 && missing_blobs@.len() == 0 ==> r is Ok,
        missing_bytecodes@.len() == 0 && missing_blobs@.len() > 0 ==> (r matches Err(WorkerError::BlobsNotFound(b))
            && b@ == missing_blobs@),
        missing_bytecodes@.len() > 0 && missing_blobs@.len() == 0 ==> (r matches Err(WorkerError::ApplicationBytecodesNotFound(l))
            && l@ == missing_bytecodes@),
        missing_bytecodes@.len() > 0 && missing_blobs@.len() > 0 ==> (r matches Err(WorkerError::ApplicationBytecodesAndBlobsNotFound(l, b))
            && l@ == missing_bytecodes@ && b@ == missing_blobs@),
{
    if missing_bytecodes.len() == 0 {
        if missing_blobs.len() == 0 {
            Ok(())
        } else {
            Err(WorkerError::BlobsNotFound(missing_blobs))
        }
    } else if missing_blobs.len() == 0 {
        Err(WorkerError::ApplicationBytecodesNotFound(missing_bytecodes))
    } else {
        Err(WorkerError::ApplicationBytecodesAndBlobsNotFound(missing_bytecodes, missing_blobs))
    }
}

/// Whether `b` is in `s`.
pub open spec fn blob_in(s: Seq<BlobId>, b: BlobId) -> bool {
    exists|i: int| 0 <= i < s.len() && s[i] == b
}

/// Whether `s` holds each blob at most once.
pub open spec fn distinct_blobs(s: Seq<BlobId>) -> bool {
    forall|i: int, j: int| 0 <= i < j < s.len() ==> s[i] != s[j]
}

/// Whether `b` is in `s`, computed.
fn contains_blob(s: &Vec<BlobId>, b: &BlobId) -> (r: bool)
    ensures
        r == blob_in(s@, *b),
{
    let n = s.len();
    let mut i: usize = 0;
    while i < n
        invariant
            i <= n,
            n == s@.len(),
            forall|j: int| 0 <= j < i ==> s@[j] != *b,
        decreases n - i,
    {
        if s[i].0.equals(&b.0) {
            return true;
        }
        i = i + 1;
    }
    false
}

/// Whether the provided blob at index `i` is not required or was provided before.
pub open spec fn unneeded_at(required: Seq<BlobId>, provided: Seq<BlobId>, i: int) -> bool {
    !blob_in(required, provided[i]) || blob_in(provided.take(i), provided[i])
}

/// Returns the blobs required by a block that are neither provided, nor cached, nor
/// pending, in the order in which they are required; or an error naming the first
/// provided blob that is not required (or that is provided twice).
pub fn get_missing_blobs(
    required: Vec<BlobId>,
    provided: &Vec<BlobId>,
    cached: &Vec<BlobId>,
    pending: &Vec<BlobId>,
) -> (r: Result<Vec<BlobId>, WorkerError>)
    requires
        distinct_blobs(required@),
    ensures
        (exists|i: int| 0 <= i < provided@.len() && unneeded_at(required@, provided@, i)) ==> (r matches Err(WorkerError::UnneededBlob { blob_id })
            && exists|i: int| 0 <= i < provided@.len() && unneeded_at(required@, provided@, i)
                && (forall|j: int| 0 <= j < i ==> !unneeded_at(required@, provided@, j)) && blob_id == provided@[i]),
        (forall|i: int| 0 <= i < provided@.len() ==> !unneeded_at(required@, provided@, i)) ==> (r matches Ok(missing)
            && missing@ == required@.filter(|b: BlobId| !blob_in(provided@, b) && !blob_in(cached@, b) && !blob_in(pending@, b))),
{
    let n = provided.len();
    let mut i: usize = 0;
    while i < n
        invariant
            i <= n,
            n == provided@.len(),
            forall|j: int| 0 <= j < i ==> !unneeded_at(required@, provided@, j),
        decreases n - i,
    {
        let blob_id = provided[i];
        let seen = contains_blob_prefix(provided, i, &blob_id);
        if !contains_blob(&required, &blob_id) || seen {
            proof {
                assert(unneeded_at(required@, provided@, i as int));
            }
            return Err(WorkerError::UnneededBlob { blob_id });
        }
        i = i + 1;
    }
    let ghost keep = |b: BlobId| !blob_in(provided@, b) && !blob_in(cached@, b) && !blob_in(pending@, b);
    let m = required.len();
    let mut missing: Vec<BlobId> = Vec::new();
    let mut k: usize = 0;
    while k < m
        invariant
            k <= m,
            m == required@.len(),
            missing@ == required@.take(k as int).filter(keep),
            keep == (|b: BlobId| !blob_in(provided@, b) && !blob_in(cached@, b) && !blob_in(pending@, b)),
        decreases m - k,
    {
        let b = required[k];
        proof {
            reveal(Seq::filter);
            assert(required@.take(k + 1).drop_last() =~= required@.take(k as int));
        }
        if !contains_blob(provided, &b) && !contains_blob(cached, &b) && !contains_blob(pending, &b) {
            missing.push(b);
        }
        k = k + 1;
    }
    proof {
        assert(required@.take(m as int) =~= required@);
    }
    Ok(missing)
}

/// Whether `b` is among the first `i` elements of `s`.
fn contains_blob_prefix(s: &Vec<BlobId>, i: usize, b: &BlobId) -> (r: bool)
    requires
        i <= s@.len(),
    ensures
        r == blob_in(s@.take(i as int), *b),
{
    let mut j: usize = 0;
    while j < i
        invariant
            j <= i,
            i <= s@.len(),
            forall|k: int| 0 <= k < j ==> s@[k] != *b,
        decreases i - j,
    {
        if s[j].0.equals(&b.0) {
            assert(s@.take(i as int)[j as int] == *b);
            return true;
        }
        j = j + 1;
    }
    proof {
        if blob_in(s@.take(i as int), *b) {
            let k = choose|k: int| 0 <= k < i && s@.take(i as int)[k] == *b;
            assert(s@[k] == *b);
        }
    }
    false
}

/// Whether `h` is in `s`.
pub open spec fn hash_in(s: Seq<CryptoHash>, h: CryptoHash) -> bool {
    exists|i: int| 0 <= i < s.len() && s[i] == h
}

/// Whether `h` is among the first `n` elements of `s`, computed.
fn contains_hash(s: &Vec<CryptoHash>, n: usize, h: &CryptoHash) -> (r: bool)
    requires
        n <= s@.len(),
    ensures
        r == hash_in(s@.take(n as int), *h),
{
    let mut j: usize = 0;
    while j < n
        invariant
            j <= n,
            n <= s@.len(),
            forall|k: int| 0 <= k < j ==> s@[k] != *h,
        decreases n - j,
    {
        if s[j].equals(h) {
            assert(s@.take(n as int)[j as int] == *h);
            return true;
        }
        j = j + 1;
    }
    proof {
        if hash_in(s@.take(n as int), *h) {
            let k = choose|k: int| 0 <= k < n && s@.take(n as int)[k] == *h;
            assert(s@[k] == *h);
        }
    }
    false
}

/// The certificate hashes of bytecode locations.
pub open spec fn location_hashes(s: Seq<BytecodeLocation>) -> Seq<CryptoHash> {
    s.map_values(|l: BytecodeLocation| l.certificate_hash)
}

/// Whether the provided value at index `i` is not required or was provided before.
pub open spec fn unneeded_value_at(required: Seq<BytecodeLocation>, provided: Seq<CryptoHash>, i: int) -> bool {
    !hash_in(location_hashes(required), provided[i]) || hash_in(provided.take(i), provided[i])
}

/// Whether the location at index `i` is the last one published in its certificate; the
/// locations are looked up by certificate, one per certificate.
pub open spec fn last_of_its_certificate(required: Seq<BytecodeLocation>, i: int) -> bool {
    forall|j: int| i < j < required.len() ==> (#[trigger] required[j]).certificate_hash != required[i].certificate_hash
}

/// The locations among the first `n` required ones, one per certificate, whose value is
/// neither provided nor cached, in the order in which they are required.
pub open spec fn locations_to_look_up(
    required: Seq<BytecodeLocation>,
    provided: Seq<CryptoHash>,
    cached: Seq<CryptoHash>,
    n: int,
) -> Seq<BytecodeLocation>
    decreases n,
{
    if n <= 0 {
        Seq::empty()
    } else {
        let rest = locations_to_look_up(required, provided, cached, n - 1);
        let l = required[n - 1];
        if last_of_its_certificate(required, n - 1) && !hash_in(provided, l.certificate_hash) && !hash_in(
            cached,
            l.certificate_hash,
        ) {
            rest.push(l)
        } else {
            rest
        }
    }
}

/// Returns the locations of the bytecodes required by a block whose certificate values
/// are neither provided nor cached, one per certificate, for the caller to look up in
/// storage; or an error naming the first provided value that is not required (or that
/// is provided twice).
pub fn get_missing_bytecodes(
    required: &Vec<BytecodeLocation>,
    provided: &Vec<CryptoHash>,
    cached: &Vec<CryptoHash>,
) -> (r: Result<Vec<BytecodeLocation>, WorkerError>)
    ensures
        (exists|i: int| 0 <= i < provided@.len() && unneeded_value_at(required@, provided@, i)) ==> (r matches Err(WorkerError::UnneededValue { value_hash })
            && exists|i: int| 0 <= i < provided@.len() && unneeded_value_at(required@, provided@, i)
                && (forall|j: int| 0 <= j < i ==> !unneeded_value_at(required@, provided@, j)) && value_hash == provided@[i]),
        (forall|i: int| 0 <= i < provided@.len() ==> !unneeded_value_at(required@, provided@, i)) ==> (r matches Ok(l)
            && l@ == locations_to_look_up(required@, provided@, cached@, required@.len() as int)),
{
    let m = required.len();
    let mut hashes: Vec<CryptoHash> = Vec::new();
    let mut k: usize = 0;
    while k < m
        invariant
            k <= m,
            m == required@.len(),
            hashes@ == location_hashes(required@).take(k as int),
        decreases m - k,
    {
        hashes.push(required[k].certificate_hash);
        k = k + 1;
        proof {
            assert(hashes@ =~= location_hashes(required@).take(k as int));
        }
    }
    proof {
        assert(hashes@ =~= location_hashes(required@));
    }
    let n = provided.len();
    let mut i: usize = 0;
    while i < n
        invariant
            i <= n,
            n == provided@.len(),
            m == required@.len(),
            hashes@ == location_hashes(required@),
            forall|j: int| 0 <= j < i ==> !unneeded_value_at(required@, provided@, j),
        decreases n - i,
    {
        let value_hash = provided[i];
        let seen = contains_hash(provided, i, &value_hash);
        let wanted = contains_hash(&hashes, m, &value_hash);
        proof {
            assert(hashes@.take(m as int) =~= hashes@);
        }
        if !wanted || seen {
            proof {
                assert(unneeded_value_at(required@, provided@, i as int));
            }
            return Err(WorkerError::UnneededValue { value_hash });
        }
        i = i + 1;
    }
    let mut missing: Vec<BytecodeLocation> = Vec::new();
    let mut k: usize = 0;
    while k < m
        invariant
            k <= m,
            m == required@.len(),
            n == provided@.len(),
            missing@ == locations_to_look_up(required@, provided@, cached@, k as int),
        decreases m - k,
    {
        let l = required[k];
        let mut last = true;
        let mut j: usize = k + 1;
        while j < m
            invariant
                k < j <= m,
                m == required@.len(),
                l == required@[k as int],
                last == forall|q: int| k < q < j ==> (#[trigger] required@[q]).certificate_hash != l.certificate_hash,
            decreases m - j,
        {
            if required[j].certificate_hash.equals(&l.certificate_hash) {
                last = false;
            }
            j = j + 1;
        }
        let in_provided = contains_hash(provided, n, &l.certificate_hash);
        let in_cached = contains_hash(cached, cached.len(), &l.certificate_hash);
        proof {
            assert(provided@.take(n as int) =~= provided@);
            assert(cached@.take(cached@.len() as int) =~= cached@);
        }
        if last && !in_provided && !in_cached {
            missing.push(l);
        }
        k = k + 1;
    }
    Ok(missing)
}

/// Returns an error if hashed certificate values were provided with a certificate that
/// does not confirm a block: the first of them is unneeded.
pub fn check_values_only_for_confirmed(is_confirmed: bool, value_hashes: &Vec<CryptoHash>) -> (r: Result<(), WorkerError>)
    ensures
        (is_confirmed || value_hashes@.len() == 0) ==> r is Ok,
        !(is_confirmed || value_hashes@.len() == 0) ==> (r matches Err(WorkerError::UnneededValue { value_hash })
            && value_hash == value_hashes@[0]),
{
    if is_confirmed || value_hashes.len() == 0 {
        Ok(())
    } else {
        Err(WorkerError::UnneededValue { value_hash: value_hashes[0] })
    }
}

/// The state of the tip of a chain.
#[derive(Clone, Copy, Debug)]
pub struct ChainTipState {
    /// Hash of the latest certified block in this chain, if any.
    pub block_hash: Option<CryptoHash>,
    /// Sequence number tracking blocks.
    pub next_block_height: BlockHeight,
    /// Number of incoming messages.
    pub num_incoming_messages: u32,
    /// Number of operations.
    pub num_operations: u32,
    /// Number of outgoing messages.
    pub num_outgoing_messages: u32,
}

impl ChainTipState {
    /// Records a confirmed block: its hash becomes the latest, the height advances by
    /// one, and the counters grow by the numbers of incoming messages, operations and
    /// outgoing messages of the block. The counters must not overflow.
    pub fn advance(
        &mut self,
        certificate_hash: CryptoHash,
        incoming_messages: usize,
        operations: usize,
        outgoing_messages: usize,
    ) -> (r: Result<(), WorkerError>)
        requires
            old(self).num_incoming_messages + incoming_messages <= u32::MAX,
            old(self).num_operations + operations <= u32::MAX,
            old(self).num_outgoing_messages + outgoing_messages <= u32::MAX,
        ensures
            old(self).next_block_height.0 == u64::MAX ==> r == Err::<(), WorkerError>(WorkerError::ArithmeticError(ArithmeticError::Overflow))
                && final(self).block_hash == Some(certificate_hash)
                && final(self).next_block_height == old(self).next_block_height
                && final(self).num_incoming_messages == old(self).num_incoming_messages
                && final(self).num_operations == old(self).num_operations
                && final(self).num_outgoing_messages == old(self).num_outgoing_messages,
            old(self).next_block_height.0 < u64::MAX ==> r is Ok
                && final(self).block_hash == Some(certificate_hash)
                && final(self).next_block_height.0 == old(self).next_block_height.0 + 1
                && final(self).num_incoming_messages == old(self).num_incoming_messages + incoming_messages
                && final(self).num_operations == old(self).num_operations + operations
                && final(self).num_outgoing_messages == old(self).num_outgoing_messages + outgoing_messages,
    {
        self.block_hash = Some(certificate_hash);
        if self.next_block_height.0 == u64::MAX {
            return Err(WorkerError::ArithmeticError(ArithmeticError::Overflow));
        }
        self.next_block_height = BlockHeight(self.next_block_height.0 + 1);
        self.num_incoming_messages = self.num_incoming_messages + incoming_messages as u32;
        self.num_operations = self.num_operations + operations as u32;
        self.num_outgoing_messages = self.num_outgoing_messages + outgoing_messages as u32;
        Ok(())
    }
}

/// Checks that a block extends the tip of its chain: the hash of the previous block
/// that it names is the hash of the latest block of the chain.
pub fn check_block_chaining(tip_block_hash: Option<CryptoHash>, previous_block_hash: Option<CryptoHash>) -> (r: Result<(), WorkerError>)
    ensures
        tip_block_hash == previous_block_hash ==> r is Ok,
        tip_block_hash != previous_block_hash ==> r matches Err(WorkerError::InvalidBlockChaining),
{
    let same = match (tip_block_hash, previous_block_hash) {
        (None, None) => true,
        (Some(a), Some(b)) => {
            let eq = a.equals(&b);
            eq
        },
        _ => false,
    };
    if same {
        Ok(())
    } else {
        Err(WorkerError::InvalidBlockChaining)
    }
}

/// The contents of a list of byte strings.
pub open spec fn byte_strings(s: Seq<Vec<u8>>) -> Seq<Seq<u8>> {
    s.map_values(|v: Vec<u8>| v@)
}

/// Whether two lists of byte strings are the same, computed.
fn byte_strings_equal(a: &Vec<Vec<u8>>, b: &Vec<Vec<u8>>) -> (r: bool)
    ensures
        r == (byte_strings(a@) == byte_strings(b@)),
{
    if a.len() != b.len() {
        proof {
            assert(byte_strings(a@).len() != byte_strings(b@).len());
        }
        return false;
    }
    let n = a.len();
    let mut i: usize = 0;
    while i < n
        invariant
            i <= n,
            n == a@.len(),
            n == b@.len(),
            forall|j: int| 0 <= j < i ==> a@[j]@ == b@[j]@,
        decreases n - i,
    {
        let x = &a[i];
        let y = &b[i];
        if x.len() != y.len() {
            proof {
                assert(byte_strings(a@)[i as int] != byte_strings(b@)[i as int]);
            }
            return false;
        }
        let m = x.len();
        let mut k: usize = 0;
        while k < m
            invariant
                k <= m,
                m == x@.len(),
                m == y@.len(),
                i < n,
                n == a@.len(),
                n == b@.len(),
                *x == a@[i as int],
                *y == b@[i as int],
                forall|j: int| 0 <= j < k ==> x@[j] == y@[j],
            decreases m - k,
        {
            if x[k] != y[k] {
                proof {
                    assert(byte_strings(a@)[i as int][k as int] != byte_strings(b@)[i as int][k as int]);
                }
                return false;
            }
            k = k + 1;
        }
        proof {
            assert(x@ =~= y@);
        }
        i = i + 1;
    }
    proof {
        assert(byte_strings(a@) =~= byte_strings(b@));
    }
    true
}

/// Whether two lists of message counts are the same, computed.
fn counts_equal(a: &Vec<u32>, b: &Vec<u32>) -> (r: bool)
    ensures
        r == (a@ == b@),
{
    if a.len() != b.len() {
        return false;
    }
    let n = a.len();
    let mut i: usize = 0;
    while i < n
        invariant
            i <= n,
            n == a@.len(),
            n == b@.len(),
            forall|j: int| 0 <= j < i ==> a@[j] == b@[j],
        decreases n - i,
    {
        if a[i] != b[i] {
            return false;
        }
        i = i + 1;
    }
    proof {
        assert(a@ =~= b@);
    }
    true
}

/// Checks that the execution of a confirmed block agrees with what its certificate
/// says: the same outgoing messages (in serialized form), then the same message counts,
/// then the same state hash. The first disagreement is reported.
pub fn check_execution_agrees(
    computed_messages: Vec<Vec<u8>>,
    submitted_messages: Vec<Vec<u8>>,
    computed_counts: &Vec<u32>,
    submitted_counts: &Vec<u32>,
    computed_state_hash: CryptoHash,
    submitted_state_hash: CryptoHash,
) -> (r: Result<(), WorkerError>)
    ensures
        byte_strings(computed_messages@) != byte_strings(submitted_messages@) ==> (r matches Err(WorkerError::IncorrectMessages { computed, submitted })
            && computed@ == computed_messages@ && submitted@ == submitted_messages@),
        byte_strings(computed_messages@) == byte_strings(submitted_messages@) && computed_counts@ != submitted_counts@
            ==> r matches Err(WorkerError::IncorrectMessageCounts),
        byte_strings(computed_messages@) == byte_strings(submitted_messages@) && computed_counts@ == submitted_counts@
            && computed_state_hash != submitted_state_hash ==> r matches Err(WorkerError::IncorrectStateHash),
        byte_strings(computed_messages@) == byte_strings(submitted_messages@) && computed_counts@ == submitted_counts@
            && computed_state_hash == submitted_state_hash ==> r is Ok,
{
    if !byte_strings_equal(&computed_messages, &submitted_messages) {
        return Err(WorkerError::IncorrectMessages { computed: computed_messages, submitted: submitted_messages });
    }
    if !counts_equal(computed_counts, submitted_counts) {
        return Err(WorkerError::IncorrectMessageCounts);
    }
    if !computed_state_hash.equals(&submitted_state_hash) {
        return Err(WorkerError::IncorrectStateHash);
    }
    Ok(())
}

/// Records a confirmed block at the tip of its chain (see `ChainTipState::advance`) and
/// returns the notification of the new block, which names the hash of its value.
pub fn record_confirmed_block(
    tip: &mut ChainTipState,
    chain_id: ChainId,
    height: BlockHeight,
    certificate_hash: CryptoHash,
    value_hash: CryptoHash,
    incoming_messages: usize,
    operations: usize,
    outgoing_messages: usize,
) -> (r: Result<Notification, WorkerError>)
    requires
        old(tip).num_incoming_messages + incoming_messages <= u32::MAX,
        old(tip).num_operations + operations <= u32::MAX,
        old(tip).num_outgoing_messages + outgoing_messages <= u32::MAX,
    ensures
        final(tip).block_hash == Some(certificate_hash),
        old(tip).next_block_height.0 == u64::MAX ==> r == Err::<Notification, WorkerError>(WorkerError::ArithmeticError(ArithmeticError::Overflow))
            && final(tip).next_block_height == old(tip).next_block_height,
        old(tip).next_block_height.0 < u64::MAX ==> r == Ok::<Notification, WorkerError>(Notification {
            chain_id,
            reason: Reason::NewBlock { height, hash: value_hash },
        }) && final(tip).next_block_height.0 == old(tip).next_block_height.0 + 1
            && final(tip).num_incoming_messages == old(tip).num_incoming_messages + incoming_messages
            && final(tip).num_operations == old(tip).num_operations + operations
            && final(tip).num_outgoing_messages == old(tip).num_outgoing_messages + outgoing_messages,
{
    match tip.advance(certificate_hash, incoming_messages, operations, outgoing_messages) {
        Ok(()) => Ok(Notification { chain_id, reason: Reason::NewBlock { height, hash: value_hash } }),
        Err(e) => Err(e),
    }
}

/// Whether `e` reports the missing bytecode locations `missing_bytecodes` and blobs
/// `missing_blobs`, at least one of them being non-empty.
pub open spec fn reports_missing(e: WorkerError, missing_bytecodes: Seq<BytecodeLocation>, missing_blobs: Seq<BlobId>) -> bool {
    match e {
        WorkerError::BlobsNotFound(b) => missing_bytecodes.len() == 0 && missing_blobs.len() > 0 && b@ == missing_blobs,
        WorkerError::ApplicationBytecodesNotFound(l) => missing_bytecodes.len() > 0 && missing_blobs.len() == 0
            && l@ == missing_bytecodes,
        WorkerError::ApplicationBytecodesAndBlobsNotFound(l, b) => missing_bytecodes.len() > 0 && missing_blobs.len() > 0
            && l@ == missing_bytecodes && b@ == missing_blobs,
        _ => false,
    }
}

/// What a worker knows of a confirmed block that it is asked to process.
#[derive(Clone, Copy, Debug)]
pub struct ConfirmedBlock {
    pub chain_id: ChainId,
    pub epoch: Epoch,
    pub height: BlockHeight,
    pub previous_block_hash: Option<CryptoHash>,
    pub num_incoming_messages: usize,
    pub num_operations: usize,
}

/// The stored state of a chain that processing a confirmed block reads and changes: the
/// tip and the log of the hashes of the certificates of its confirmed blocks.
#[derive(Debug)]
pub struct ChainConfirmationState {
    pub tip: ChainTipState,
    pub confirmed_log: Vec<CryptoHash>,
}

/// Whether `r` is how the checks that come before executing a confirmed block answer, in
/// their order: a block beyond the next one is refused; a block below it was already
/// confirmed and nothing more is checked; the next block must be at the epoch of the
/// chain, extend its tip, and have all its bytecodes and blobs available.
pub open spec fn confirmation_checks(
    r: Result<ConfirmationStep, WorkerError>,
    tip: ChainTipState,
    chain_epoch: Epoch,
    block: ConfirmedBlock,
    missing_bytecodes: Seq<BytecodeLocation>,
    missing_blobs: Seq<BlobId>,
) -> bool {
    if tip.next_block_height.0 < block.height.0 {
        r matches Err(WorkerError::MissingEarlierBlocks { current_block_height }) && current_block_height == tip.next_block_height
    } else if tip.next_block_height.0 > block.height.0 {
        r == Ok::<ConfirmationStep, WorkerError>(ConfirmationStep::AlreadyConfirmed)
    } else if block.epoch != chain_epoch {
        r matches Err(WorkerError::InvalidEpoch { chain_id, chain_epoch: ce, epoch }) && chain_id == block.chain_id
            && ce == chain_epoch && epoch == block.epoch
    } else if tip.block_hash != block.previous_block_hash {
        r matches Err(WorkerError::InvalidBlockChaining)
    } else if missing_bytecodes.len() > 0 || missing_blobs.len() > 0 {
        r matches Err(e) && reports_missing(e, missing_bytecodes, missing_blobs)
    } else {
        r == Ok::<ConfirmationStep, WorkerError>(ConfirmationStep::Execute)
    }
}

/// The checks a worker makes on a confirmed block before executing it, against the
/// stored state of its chain: `chain_epoch` is the current epoch of the chain, and the
/// missing bytecodes and blobs are those that `get_missing_bytecodes` and
/// `get_missing_blobs` found (and storage did not hold). The state is not changed.
pub fn check_confirmed_block(
    state: &ChainConfirmationState,
    chain_epoch: Epoch,
    block: &ConfirmedBlock,
    missing_bytecodes: Vec<BytecodeLocation>,
    missing_blobs: Vec<BlobId>,
) -> (r: Result<ConfirmationStep, WorkerError>)
    ensures
        confirmation_checks(r, state.tip, chain_epoch, *block, missing_bytecodes@, missing_blobs@),
{
    match confirmed_block_step(state.tip.next_block_height, block.height) {
        Err(e) => {
            return Err(e);
        },
        Ok(ConfirmationStep::AlreadyConfirmed) => {
            return Ok(ConfirmationStep::AlreadyConfirmed);
        },
        Ok(ConfirmationStep::Execute) => {},
    }
    match check_block_epoch(chain_epoch, block.chain_id, block.epoch) {
        Err(e) => {
            return Err(e);
        },
        Ok(()) => {},
    }
    match check_block_chaining(state.tip.block_hash, block.previous_block_hash) {
        Err(e) => {
            return Err(e);
        },
        Ok(()) => {},
    }
    match check_no_missing_blobs(missing_bytecodes, missing_blobs) {
        Err(e) => Err(e),
        Ok(()) => Ok(ConfirmationStep::Execute),
    }
}

/// Completes the processing of a confirmed block once it was executed: the execution
/// must agree with the certificate (see `check_execution_agrees`); then the tip advances
/// (see `record_confirmed_block`), the hash of the certificate is appended to the
/// confirmed log, and the notification of the new block is returned. When anything
/// fails, the stored state is left as it was.
pub fn complete_confirmed_block(
    state: &mut ChainConfirmationState,
    block: &ConfirmedBlock,
    certificate_hash: CryptoHash,
    value_hash: CryptoHash,
    computed_messages: Vec<Vec<u8>>,
    submitted_messages: Vec<Vec<u8>>,
    computed_counts: &Vec<u32>,
    submitted_counts: &Vec<u32>,
    computed_state_hash: CryptoHash,
    submitted_state_hash: CryptoHash,
) -> (r: Result<Notification, WorkerError>)
    requires
        old(state).tip.num_incoming_messages + block.num_incoming_messages <= u32::MAX,
        old(state).tip.num_operations + block.num_operations <= u32::MAX,
        old(state).tip.num_outgoing_messages + submitted_messages@.len() <= u32::MAX,
    ensures
        byte_strings(computed_messages@) != byte_strings(submitted_messages@) ==> (r matches Err(WorkerError::IncorrectMessages { computed, submitted })
            && computed@ == computed_messages@ && submitted@ == submitted_messages@),
        byte_strings(computed_messages@) == byte_strings(submitted_messages@) && computed_counts@ != submitted_counts@
            ==> r matches Err(WorkerError::IncorrectMessageCounts),
        byte_strings(computed_messages@) == byte_strings(submitted_messages@) && computed_counts@ == submitted_counts@
            && computed_state_hash != submitted_state_hash ==> r matches Err(WorkerError::IncorrectStateHash),
        byte_strings(computed_messages@) == byte_strings(submitted_messages@) && computed_counts@ == submitted_counts@
            && computed_state_hash == submitted_state_hash && old(state).tip.next_block_height.0 == u64::MAX
            ==> r == Err::<Notification, WorkerError>(WorkerError::ArithmeticError(ArithmeticError::Overflow)),
        r is Err ==> final(state).tip == old(state).tip && final(state).confirmed_log@ == old(state).confirmed_log@,
        byte_strings(computed_messages@) == byte_strings(submitted_messages@) && computed_counts@ == submitted_counts@
            && computed_state_hash == submitted_state_hash && old(state).tip.next_block_height.0 < u64::MAX ==> {
            &&& r == Ok::<Notification, WorkerError>(Notification {
                chain_id: block.chain_id,
                reason: Reason::NewBlock { height: block.height, hash: value_hash },
            })
            &&& final(state).tip.block_hash == Some(certificate_hash)
            &&& final(state).tip.next_block_height.0 == old(state).tip.next_block_height.0 + 1
            &&& final(state).tip.num_incoming_messages == old(state).tip.num_incoming_messages + block.num_incoming_messages
            &&& final(state).tip.num_operations == old(state).tip.num_operations + block.num_operations
            &&& final(state).tip.num_outgoing_messages == old(state).tip.num_outgoing_messages + submitted_messages@.len()
            &&& final(state).confirmed_log@ == old(state).confirmed_log@.push(certificate_hash)
        },
{
    let outgoing = submitted_messages.len();
    match check_execution_agrees(
        computed_messages,
        submitted_messages,
        computed_counts,
        submitted_counts,
        computed_state_hash,
        submitted_state_hash,
    ) {
        Err(e) => {
            return Err(e);
        },
        Ok(()) => {},
    }
    let mut tip = state.tip;
    match record_confirmed_block(
        &mut tip,
        block.chain_id,
        block.height,
        certificate_hash,
        value_hash,
        block.num_incoming_messages,
        block.num_operations,
        outgoing,
    ) {
        Err(e) => Err(e),
        Ok(notification) => {
            state.tip = tip;
            state.confirmed_log.push(certificate_hash);
            Ok(notification)
        },
    }
}

/// A confirmed block is executed once: after its processing completed, the same block
/// is answered `Ok` as already confirmed, without any other check and whatever else
/// comes with it (`check_confirmed_block` only reads the stored state, so it is left as
/// it is), and its certificate is the last one in the confirmed log.
pub proof fn law_confirmed_block_processed_once(
    before: ChainTipState,
    after: ChainTipState,
    log_before: Seq<CryptoHash>,
    log_after: Seq<CryptoHash>,
    certificate_hash: CryptoHash,
    block: ConfirmedBlock,
    chain_epoch: Epoch,
    missing_bytecodes: Seq<BytecodeLocation>,
    missing_blobs: Seq<BlobId>,
    first: Result<ConfirmationStep, WorkerError>,
    second: Result<ConfirmationStep, WorkerError>,
    later_epoch: Epoch,
    later_missing_bytecodes: Seq<BytecodeLocation>,
    later_missing_blobs: Seq<BlobId>,
)
    requires
        confirmation_checks(first, before, chain_epoch, block, missing_bytecodes, missing_blobs),
        first == Ok::<ConfirmationStep, WorkerError>(ConfirmationStep::Execute),
        after.next_block_height.0 == before.next_block_height.0 + 1,
        log_after == log_before.push(certificate_hash),
        confirmation_checks(second, after, later_epoch, block, later_missing_bytecodes, later_missing_blobs),
    ensures
        second == Ok::<ConfirmationStep, WorkerError>(ConfirmationStep::AlreadyConfirmed),
        log_after.last() == certificate_hash,
        log_after.len() == log_before.len() + 1,
{
}

/// What to do with a validated block.
#[derive(Clone, Copy, Debug, PartialEq, Eq, Structural)]
pub enum ValidationStep {
    /// The block was already validated, or the chain manager has no use for it: answer
    /// with the chain information unchanged.
    Skip,
    /// Let the chain manager vote to confirm the block.
    Vote,
}

/// How a validated block at `height` is processed on a chain whose next block is at
/// `next_block_height`, where `manager_skips` is what the chain manager answers when
/// asked whether it has no use for the block (it is only asked about the next block): a
/// block from the future is refused, a block from the past was already validated, and
/// the next block gets a vote unless the manager skips it.
pub open spec fn validation_of(
    next_block_height: BlockHeight,
    height: BlockHeight,
    manager_skips: Result<bool, WorkerError>,
) -> Result<ValidationStep, WorkerError> {
    if next_block_height.0 < height.0 {
        Err(WorkerError::MissingEarlierBlocks { current_block_height: next_block_height })
    } else if next_block_height.0 > height.0 {
        Ok(ValidationStep::Skip)
    } else {
        match manager_skips {
            Err(e) => Err(e),
            Ok(true) => Ok(ValidationStep::Skip),
            Ok(false) => Ok(ValidationStep::Vote),
        }
    }
}

/// Decides how to process a validated block at `height` on a chain whose next block is
/// at `next_block_height`; see `validation_of`.
pub fn validated_block_step(
    next_block_height: BlockHeight,
    height: BlockHeight,
    manager_skips: Result<bool, WorkerError>,
) -> (r: Result<ValidationStep, WorkerError>)
    ensures
        r == validation_of(next_block_height, height, manager_skips),
        next_block_height.0 < height.0 ==> (r matches Err(WorkerError::MissingEarlierBlocks { current_block_height })
            && current_block_height == next_block_height),
        next_block_height.0 > height.0 ==> r == Ok::<ValidationStep, WorkerError>(ValidationStep::Skip),
        next_block_height.0 == height.0 ==> r == match manager_skips {
            Err(e) => Err(e),
            Ok(true) => Ok(ValidationStep::Skip),
            Ok(false) => Ok(ValidationStep::Vote),
        },
{
    proof {
        law_validated_block_below_next_height_is_skipped(next_block_height, height, manager_skips);
    }
    if next_block_height.0 < height.0 {
        return Err(WorkerError::MissingEarlierBlocks { current_block_height: next_block_height });
    }
    if next_block_height.0 > height.0 {
        return Ok(ValidationStep::Skip);
    }
    match manager_skips {
        Err(e) => Err(e),
        Ok(true) => Ok(ValidationStep::Skip),
        Ok(false) => Ok(ValidationStep::Vote),
    }
}

/// A validated block below the next height of its chain was already handled: it is
/// skipped, whatever the chain manager would answer, so the chain is never voted on at a
/// height it has passed. Only a block at the next height can get a vote.
pub proof fn law_validated_block_below_next_height_is_skipped(
    next_block_height: BlockHeight,
    height: BlockHeight,
    manager_skips: Result<bool, WorkerError>,
)
    ensures
        next_block_height.0 > height.0 ==> validation_of(next_block_height, height, manager_skips)
            == Ok::<ValidationStep, WorkerError>(ValidationStep::Skip),
        validation_of(next_block_height, height, manager_skips) == Ok::<ValidationStep, WorkerError>(ValidationStep::Vote)
            ==> next_block_height.0 == height.0 && manager_skips == Ok::<bool, WorkerError>(false),
{
}

/// A validated block at the next height of its chain is voted on exactly when the chain
/// manager has a use for it, and the manager's error is passed on; a block beyond the
/// next height is refused, naming the next height.
pub proof fn law_validated_block_at_next_height_follows_manager(
    next_block_height: BlockHeight,
    height: BlockHeight,
    manager_skips: Result<bool, WorkerError>,
)
    ensures
        next_block_height.0 == height.0 && manager_skips == Ok::<bool, WorkerError>(false)
            ==> validation_of(next_block_height, height, manager_skips) == Ok::<ValidationStep, WorkerError>(ValidationStep::Vote),
        next_block_height.0 == height.0 && manager_skips == Ok::<bool, WorkerError>(true)
            ==> validation_of(next_block_height, height, manager_skips) == Ok::<ValidationStep, WorkerError>(ValidationStep::Skip),
        next_block_height.0 == height.0 && manager_skips is Err
            ==> validation_of(next_block_height, height, manager_skips) == Err::<ValidationStep, WorkerError>(manager_skips->Err_0),
        next_block_height.0 < height.0 ==> validation_of(next_block_height, height, manager_skips)
            == Err::<ValidationStep, WorkerError>(WorkerError::MissingEarlierBlocks { current_block_height: next_block_height }),
{
}

/// A validated block is skipped where a confirmed block at the same height would be
/// answered as already confirmed, and refused with the same error where a confirmed
/// block would be refused.
pub proof fn law_validation_agrees_with_confirmation(
    next_block_height: BlockHeight,
    height: BlockHeight,
    manager_skips: Result<bool, WorkerError>,
)
    ensures
        confirmation_of(next_block_height, height) == Ok::<ConfirmationStep, WorkerError>(ConfirmationStep::AlreadyConfirmed)
            ==> validation_of(next_block_height, height, manager_skips) == Ok::<ValidationStep, WorkerError>(ValidationStep::Skip),
        confirmation_of(next_block_height, height) is Err ==> validation_of(next_block_height, height, manager_skips)
            == Err::<ValidationStep, WorkerError>(confirmation_of(next_block_height, height)->Err_0),
{
}

/// Once a block is confirmed, a validated block at its height is skipped, whatever the
/// chain manager would answer: the chain is not voted on twice at one height.
pub proof fn law_confirmed_height_is_not_voted_on(
    tip_before: ChainTipState,
    tip_after: ChainTipState,
    height: BlockHeight,
    manager_skips: Result<bool, WorkerError>,
)
    requires
        confirmation_of(tip_before.next_block_height, height) == Ok::<ConfirmationStep, WorkerError>(ConfirmationStep::Execute),
        tip_after.next_block_height.0 == tip_before.next_block_height.0 + 1,
    ensures
        validation_of(tip_after.next_block_height, height, manager_skips) == Ok::<ValidationStep, WorkerError>(ValidationStep::Skip),
{
}

/// The medium through which messages are sent: directly, or on a channel of an
/// application.
#[derive(Clone, Debug)]
pub enum Medium {
    Direct,
    Channel { application_id: ApplicationId, name: String },
}

/// The origin of messages: the sending chain and the medium.
#[derive(Clone, Debug)]
pub struct Origin {
    pub sender: ChainId,
    pub medium: Medium,
}

/// The abstract value of a medium: the channel name as a sequence of characters.
pub enum MediumView {
    Direct,
    Channel { application_id: ApplicationId, name: Seq<char> },
}

impl View for Medium {
    type V = MediumView;

    open spec fn view(&self) -> MediumView {
        match self {
            Medium::Direct => MediumView::Direct,
            Medium::Channel { application_id, name } => MediumView::Channel {
                application_id: *application_id,
                name: name@,
            },
        }
    }
}

impl Medium {
    /// A copy of the medium.
    pub fn duplicate(&self) -> (r: Medium)
        ensures
            r@ == self@,
    {
        match self {
            Medium::Direct => Medium::Direct,
            Medium::Channel { application_id, name } => Medium::Channel {
                application_id: *application_id,
                name: name.clone(),
            },
        }
    }
}

/// Why a chain is notified.
#[derive(Clone, Debug)]
pub enum Reason {
    NewBlock { height: BlockHeight, hash: CryptoHash },
    NewIncomingMessage { origin: Origin, height: BlockHeight },
}

/// A notification that a chain has a new certified block or a new message.
#[derive(Clone, Debug)]
pub struct Notification {
    pub chain_id: ChainId,
    pub reason: Reason,
}

/// The medium of a message sent to `recipient_or_channel`: direct for a single
/// recipient, the application's channel of that name for subscribers.
pub fn medium_of(destination: &crate::base::Destination, application_id: ApplicationId) -> (r: Medium)
    ensures
        match destination {
            crate::base::Destination::Recipient(_) => r is Direct,
            crate::base::Destination::Subscribers(name) => r matches Medium::Channel { application_id: a, name: n }
                && a == application_id && n@ == name@,
        },
{
    match destination {
        crate::base::Destination::Recipient(_) => Medium::Direct,
        crate::base::Destination::Subscribers(name) => Medium::Channel { application_id, name: name.clone() },
    }
}

/// Whether the values of `s` strictly increase.
pub open spec fn strictly_increasing(s: Seq<u64>) -> bool {
    forall|i: int, j: int| 0 <= i < j < s.len() ==> s[i] < s[j]
}

/// Adds `x` to the increasing list `v`, unless it holds it already.
fn insert_sorted(v: &mut Vec<u64>, x: u64)
    requires
        strictly_increasing(old(v)@),
    ensures
        strictly_increasing(final(v)@),
        forall|y: u64| #[trigger] final(v)@.contains(y) <==> (old(v)@.contains(y) || y == x),
{
    let n = v.len();
    let mut p: usize = 0;
    while p < n && v[p] < x
        invariant
            p <= n,
            n == v@.len(),
            forall|j: int| 0 <= j < p ==> v@[j] < x,
        decreases n - p,
    {
        p = p + 1;
    }
    if p < n && v[p] == x {
        return;
    }
    let ghost pre = v@;
    v.insert(p, x);
    proof {
        assert forall|i: int, j: int| 0 <= i < j < v@.len() implies v@[i] < v@[j] by {
            if j < p {
            } else if j == p {
            } else if i < p {
                assert(v@[j] == pre[j - 1]);
                assert(x < pre[p as int]);
            } else if i == p {
                assert(v@[j] == pre[j - 1]);
                assert(x < pre[p as int]);
            } else {
                assert(v@[i] == pre[i - 1]);
                assert(v@[j] == pre[j - 1]);
            }
        }
        assert forall|y: u64| #[trigger] v@.contains(y) <==> (pre.contains(y) || y == x) by {
            if v@.contains(y) {
                let k = choose|k: int| 0 <= k < v@.len() && v@[k] == y;
                if k < p {
                    assert(pre[k] == y);
                } else if k > p {
                    assert(pre[k - 1] == y);
                }
            }
            if pre.contains(y) {
                let k = choose|k: int| 0 <= k < pre.len() && pre[k] == y;
                if k < p {
                    assert(v@[k] == y);
                } else {
                    assert(v@[k + 1] == y);
                }
            }
            if y == x {
                assert(v@[p as int] == x);
            }
        }
    }
}

/// Whether some medium of `height_map` names height `h`.
pub open spec fn names_height(height_map: Seq<(Medium, Vec<BlockHeight>)>, h: u64) -> bool {
    exists|a: int, b: int| 0 <= a < height_map.len() && 0 <= b < height_map[a].1@.len() && (#[trigger] height_map[a].1@[b]).0 == h
}

/// Whether one of the first `i` media of `height_map`, or one of the first `j` heights
/// of medium `i`, names height `h`.
pub open spec fn names_height_before(height_map: Seq<(Medium, Vec<BlockHeight>)>, i: int, j: int, h: u64) -> bool {
    exists|a: int, b: int| 0 <= a <= i && a < height_map.len() && 0 <= b < height_map[a].1@.len() && (a < i || b < j)
        && (#[trigger] height_map[a].1@[b]).0 == h
}

/// Whether `v` lists the heights named in `height_map`, once each, in increasing order.
pub open spec fn lists_named_heights(height_map: Seq<(Medium, Vec<BlockHeight>)>, v: Seq<usize>) -> bool {
    &&& forall|i: int, j: int| 0 <= i < j < v.len() ==> v[i] < v[j]
    &&& forall|h: u64| names_height(height_map, h) <==> (exists|k: int| 0 <= k < v.len() && v[k] == h)
}

/// The positions in the confirmed log of the blocks whose certificates a cross-chain
/// request needs: every height named for some medium, once each, in increasing order.
/// A height that does not fit in a `usize` is an overflow.
pub fn heights_to_load(height_map: &Vec<(Medium, Vec<BlockHeight>)>) -> (r: Result<Vec<usize>, WorkerError>)
    ensures
        (exists|h: u64| names_height(height_map@, h) && h > usize::MAX) ==> r matches Err(WorkerError::ArithmeticError(ArithmeticError::Overflow)),
        (forall|h: u64| names_height(height_map@, h) ==> h <= usize::MAX) ==> (r matches Ok(v)
            && lists_named_heights(height_map@, v@)),
{
    let mut heights: Vec<u64> = Vec::new();
    let n = height_map.len();
    let mut i: usize = 0;
    while i < n
        invariant
            i <= n,
            n == height_map@.len(),
            strictly_increasing(heights@),
            forall|h: u64| heights@.contains(h) <==> names_height_before(height_map@, i as int, 0, h),
        decreases n - i,
    {
        let list = &height_map[i].1;
        let m = list.len();
        let mut j: usize = 0;
        while j < m
            invariant
                j <= m,
                i < n,
                n == height_map@.len(),
                *list == height_map@[i as int].1,
                m == list@.len(),
                strictly_increasing(heights@),
                forall|h: u64| heights@.contains(h) <==> names_height_before(height_map@, i as int, j as int, h),
            decreases m - j,
        {
            let ghost before = heights@;
            let h = list[j].0;
            insert_sorted(&mut heights, h);
            proof {
                assert forall|y: u64| heights@.contains(y) <==> names_height_before(height_map@, i as int, j + 1, y) by {
                    if y == h {
                        assert(height_map@[i as int].1@[j as int].0 == y);
                    }
                    if names_height_before(height_map@, i as int, j + 1, y) {
                        let (a, b) = choose|a: int, b: int| 0 <= a <= i && a < height_map@.len() && 0 <= b < height_map@[a].1@.len() && (a < i || b < j + 1)
                            && (#[trigger] height_map@[a].1@[b]).0 == y;
                        if !(a < i || b < j) {
                            assert(y == h);
                        } else {
                            assert(names_height_before(height_map@, i as int, j as int, y));
                        }
                    }
                    if before.contains(y) {
                        assert(names_height_before(height_map@, i as int, j as int, y));
                        let (a, b) = choose|a: int, b: int| 0 <= a <= i && a < height_map@.len() && 0 <= b < height_map@[a].1@.len() && (a < i || b < j)
                            && (#[trigger] height_map@[a].1@[b]).0 == y;
                        assert(height_map@[a].1@[b].0 == y);
                    }
                }
            }
            j = j + 1;
        }
        proof {
            assert forall|y: u64| heights@.contains(y) <==> names_height_before(height_map@, i + 1, 0, y) by {
                if names_height_before(height_map@, i + 1, 0, y) {
                    let (a, b) = choose|a: int, b: int| 0 <= a <= i + 1 && a < height_map@.len() && 0 <= b < height_map@[a].1@.len() && (a < i + 1 || b < 0)
                        && (#[trigger] height_map@[a].1@[b]).0 == y;
                    assert(names_height_before(height_map@, i as int, m as int, y));
                }
                if names_height_before(height_map@, i as int, m as int, y) {
                    let (a, b) = choose|a: int, b: int| 0 <= a <= i && a < height_map@.len() && 0 <= b < height_map@[a].1@.len() && (a < i || b < m)
                        && (#[trigger] height_map@[a].1@[b]).0 == y;
                    assert(height_map@[a].1@[b].0 == y);
                }
            }
        }
        i = i + 1;
    }
    proof {
        assert forall|y: u64| names_height(height_map@, y) <==> heights@.contains(y) by {
            if names_height(height_map@, y) {
                let (a, b) = choose|a: int, b: int| 0 <= a < height_map@.len() && 0 <= b < height_map@[a].1@.len() && (#[trigger] height_map@[a].1@[b]).0 == y;
                assert(names_height_before(height_map@, n as int, 0, y));
            }
            if names_height_before(height_map@, n as int, 0, y) {
                let (a, b) = choose|a: int, b: int| 0 <= a <= n && a < height_map@.len() && 0 <= b < height_map@[a].1@.len() && (a < n || b < 0)
                    && (#[trigger] height_map@[a].1@[b]).0 == y;
                assert(height_map@[a].1@[b].0 == y);
            }
        }
    }
    let k = heights.len();
    let mut out: Vec<usize> = Vec::new();
    let mut q: usize = 0;
    while q < k
        invariant
            q <= k,
            k == heights@.len(),
            out@.len() == q,
            forall|t: int| 0 <= t < q ==> out@[t] == heights@[t],
            strictly_increasing(heights@),
            forall|y: u64| names_height(height_map@, y) <==> heights@.contains(y),
        decreases k - q,
    {
        let h = heights[q];
        if (h as u128) > (usize::MAX as u128) {
            proof {
                assert(heights@[q as int] == h);
                assert(heights@.contains(h));
                assert(names_height(height_map@, h));
            }
            return Err(WorkerError::ArithmeticError(ArithmeticError::Overflow));
        }
        out.push(h as usize);
        q = q + 1;
    }
    proof {
        assert forall|y: u64| heights@.contains(y) <==> (exists|t: int| 0 <= t < out@.len() && out@[t] == y) by {
            if heights@.contains(y) {
                let t = choose|t: int| 0 <= t < heights@.len() && heights@[t] == y;
                assert(out@[t] == y);
            }
        }
        if exists|h: u64| names_height(height_map@, h) && h > usize::MAX {
            let h = choose|h: u64| names_height(height_map@, h) && h > usize::MAX;
            assert(heights@.contains(h));
            let t = choose|t: int| 0 <= t < heights@.len() && heights@[t] == h;
            assert(out@[t] == h);
            assert(out@[t] <= usize::MAX);
            assert(false);
        }
        assert forall|i: int, j: int| 0 <= i < j < out@.len() implies out@[i] < out@[j] by {
            assert(out@[i] == heights@[i]);
            assert(out@[j] == heights@[j]);
        }
        assert forall|h: u64| names_height(height_map@, h) <==> (exists|t: int| 0 <= t < out@.len() && out@[t] == h) by {
            if names_height(height_map@, h) {
                assert(heights@.contains(h));
            }
            if exists|t: int| 0 <= t < out@.len() && out@[t] == h {
                let t = choose|t: int| 0 <= t < out@.len() && out@[t] == h;
                assert(heights@[t] == h);
                assert(heights@.contains(h));
            }
        }
        assert(lists_named_heights(height_map@, out@));
    }
    Ok(out)
}

/// The index of a message in its block, as a `usize`.
pub fn message_index(index: u32) -> (r: Result<usize, WorkerError>)
    ensures
        index <= usize::MAX ==> r == Ok::<usize, WorkerError>(index as usize),
        index > usize::MAX ==> r matches Err(WorkerError::ArithmeticError(ArithmeticError::Overflow)),
{
    if (index as u64) <= (usize::MAX as u64) {
        Ok(index as usize)
    } else {
        Err(WorkerError::ArithmeticError(ArithmeticError::Overflow))
    }
}

/// The highest height up to which the messages to some target were all delivered, given
/// for each target the height confirmed and whether all messages up to it are
/// delivered; zero when there is none.
pub open spec fn fully_delivered_height(latest: Seq<(BlockHeight, bool)>) -> u64
    decreases latest.len(),
{
    if latest.len() == 0 {
        0
    } else {
        let rest = fully_delivered_height(latest.drop_last());
        let (height, delivered) = latest.last();
        if delivered && height.0 > rest {
            height.0
        } else {
            rest
        }
    }
}

/// The height with fully delivered messages is the highest height among the targets
/// whose messages are all delivered: every such height is at most it, and it is zero or
/// the height of one of them. Targets whose messages are not all delivered play no part.
pub proof fn law_fully_delivered_height_is_highest_delivered(latest: Seq<(BlockHeight, bool)>)
    ensures
        forall|i: int| 0 <= i < latest.len() && (#[trigger] latest[i]).1 ==> latest[i].0.0 <= fully_delivered_height(latest),
        fully_delivered_height(latest) == 0 || exists|i: int|
            0 <= i < latest.len() && (#[trigger] latest[i]).1 && latest[i].0.0 == fully_delivered_height(latest),
    decreases latest.len(),
{
    if latest.len() > 0 {
        let p = latest.drop_last();
        law_fully_delivered_height_is_highest_delivered(p);
        assert forall|i: int| 0 <= i < latest.len() && (#[trigger] latest[i]).1 implies latest[i].0.0 <= fully_delivered_height(latest) by {
            if i < latest.len() - 1 {
                assert(p[i] == latest[i]);
            }
        }
        if fully_delivered_height(latest) != 0 {
            if fully_delivered_height(latest) == fully_delivered_height(p) {
                let i = choose|i: int| 0 <= i < p.len() && (#[trigger] p[i]).1 && p[i].0.0 == fully_delivered_height(p);
                assert(latest[i] == p[i]);
            } else {
                let k = latest.len() - 1;
                assert(latest[k].1 && latest[k].0.0 == fully_delivered_height(latest));
            }
        }
    }
}

/// Computes the height with fully delivered messages: the highest height among the
/// targets whose messages are all delivered, or zero when there is none.
pub fn height_with_fully_delivered_messages(latest: &Vec<(BlockHeight, bool)>) -> (r: BlockHeight)
    ensures
        r.0 == fully_delivered_height(latest@),
        forall|i: int| 0 <= i < latest@.len() && (#[trigger] latest@[i]).1 ==> latest@[i].0.0 <= r.0,
        r.0 == 0 || exists|i: int| 0 <= i < latest@.len() && (#[trigger] latest@[i]).1 && latest@[i].0 == r,
{
    proof {
        law_fully_delivered_height_is_highest_delivered(latest@);
    }
    let n = latest.len();
    let mut best = BlockHeight(0);
    let mut i: usize = 0;
    while i < n
        invariant
            i <= n,
            n == latest@.len(),
            best.0 == fully_delivered_height(latest@.take(i as int)),
            forall|j: int| 0 <= j < i && (#[trigger] latest@[j]).1 ==> latest@[j].0.0 <= best.0,
        decreases n - i,
    {
        proof {
            assert(latest@.take(i + 1).drop_last() =~= latest@.take(i as int));
        }
        let (height, fully_delivered) = latest[i];
        if fully_delivered && height.0 > best.0 {
            best = height;
        }
        i = i + 1;
    }
    proof {
        assert(latest@.take(n as int) =~= latest@);
    }
    best
}

/// The notifiers waiting for the delivery of messages, by block height, in increasing
/// height order.
#[derive(Debug)]
pub struct DeliveryNotifiers<N> {
    entries: Vec<(BlockHeight, Vec<N>)>,
}

/// Whether the heights of `s` strictly increase.
pub open spec fn heights_increase<N>(s: Seq<(BlockHeight, Vec<N>)>) -> bool {
    forall|i: int, j: int| 0 <= i < j < s.len() ==> s[i].0.0 < s[j].0.0
}

impl<N> View for DeliveryNotifiers<N> {
    type V = Seq<(BlockHeight, Seq<N>)>;

    closed spec fn view(&self) -> Seq<(BlockHeight, Seq<N>)> {
        self.entries@.map_values(|e: (BlockHeight, Vec<N>)| (e.0, e.1@))
    }
}

/// The notifiers of heights up to `h`, from the lowest height to the highest.
pub open spec fn notifiers_up_to<N>(s: Seq<(BlockHeight, Seq<N>)>, h: u64) -> Seq<N>
    decreases s.len(),
{
    if s.len() == 0 || s[0].0.0 > h {
        seq![]
    } else {
        s[0].1 + notifiers_up_to(s.drop_first(), h)
    }
}

/// The number of leading entries of `s` with heights up to `h`.
pub open spec fn count_up_to<N>(s: Seq<(BlockHeight, Seq<N>)>, h: u64) -> nat
    decreases s.len(),
{
    if s.len() == 0 || s[0].0.0 > h {
        0
    } else {
        1 + count_up_to(s.drop_first(), h)
    }
}

/// The number of leading entries of `s` with heights below `h`.
pub open spec fn count_below<N>(s: Seq<(BlockHeight, Seq<N>)>, h: u64) -> nat
    decreases s.len(),
{
    if s.len() == 0 || s[0].0.0 >= h {
        0
    } else {
        1 + count_below(s.drop_first(), h)
    }
}

/// The notifiers after `notifier` is registered for `height`: it joins the notifiers of
/// that height, or a new entry for the height is placed after the lower heights.
pub open spec fn with_notifier<N>(s: Seq<(BlockHeight, Seq<N>)>, height: BlockHeight, notifier: N) -> Seq<(BlockHeight, Seq<N>)> {
    let p = count_below(s, height.0) as int;
    if p < s.len() && s[p].0.0 == height.0 {
        s.update(p, (s[p].0, s[p].1.push(notifier)))
    } else {
        s.insert(p, (height, seq![notifier]))
    }
}

/// The position after the leading heights below `h` is the count of those heights.
proof fn lemma_count_below<N>(s: Seq<(BlockHeight, Seq<N>)>, h: u64, p: int)
    requires
        0 <= p <= s.len(),
        forall|j: int| 0 <= j < p ==> (#[trigger] s[j]).0.0 < h,
        p == s.len() || s[p].0.0 >= h,
    ensures
        count_below(s, h) == p,
    decreases p,
{
    if p > 0 {
        assert(s[0].0.0 < h);
        let t = s.drop_first();
        assert forall|j: int| 0 <= j < p - 1 implies (#[trigger] t[j]).0.0 < h by {
            assert(t[j] == s[j + 1]);
        }
        if p < s.len() {
            assert(t[p - 1] == s[p]);
        }
        lemma_count_below(t, h, p - 1);
    }
}

/// Registering behind a lower first height registers in the rest.
proof fn lemma_with_notifier_skips_lower<N>(s: Seq<(BlockHeight, Seq<N>)>, height: BlockHeight, notifier: N)
    requires
        s.len() > 0,
        s[0].0.0 < height.0,
    ensures
        with_notifier(s, height, notifier) == seq![s[0]] + with_notifier(s.drop_first(), height, notifier),
{
    let t = s.drop_first();
    let p = count_below(s, height.0) as int;
    assert(p == 1 + count_below(t, height.0));
    lemma_count_below_at_most_len(t, height.0);
    if p < s.len() && s[p].0.0 == height.0 {
        assert(s[p] == t[p - 1]);
        let x = (s[p].0, s[p].1.push(notifier));
        assert(with_notifier(t, height, notifier) == t.update(p - 1, x));
        assert(s.update(p, x) =~= seq![s[0]] + t.update(p - 1, x));
    } else {
        if p < s.len() {
            assert(s[p] == t[p - 1]);
        }
        let x = (height, seq![notifier]);
        assert(with_notifier(t, height, notifier) == t.insert(p - 1, x));
        assert(s.insert(p, x) =~= seq![s[0]] + t.insert(p - 1, x));
    }
}

proof fn lemma_count_below_at_most_len<N>(s: Seq<(BlockHeight, Seq<N>)>, h: u64)
    ensures
        count_below(s, h) <= s.len(),
    decreases s.len(),
{
    if s.len() > 0 {
        lemma_count_below_at_most_len(s.drop_first(), h);
    }
}

/// A notifier registered for a height is among the notifiers taken up to any height at
/// least as high; registering above a height changes nothing of what is taken up to it.
pub proof fn law_registered_notifier_is_taken<N>(
    s: Seq<(BlockHeight, Seq<N>)>,
    height: BlockHeight,
    notifier: N,
    up_to: u64,
)
    ensures
        height.0 <= up_to ==> notifiers_up_to(with_notifier(s, height, notifier), up_to).contains(notifier),
        height.0 > up_to ==> notifiers_up_to(with_notifier(s, height, notifier), up_to) == notifiers_up_to(s, up_to),
    decreases s.len(),
{
    let w = with_notifier(s, height, notifier);
    if s.len() > 0 && s[0].0.0 < height.0 {
        lemma_with_notifier_skips_lower(s, height, notifier);
        let t = s.drop_first();
        law_registered_notifier_is_taken(t, height, notifier, up_to);
        let wt = with_notifier(t, height, notifier);
        assert(w.drop_first() =~= wt);
        if s[0].0.0 <= up_to {
            let rest = notifiers_up_to(wt, up_to);
            assert(notifiers_up_to(w, up_to) == s[0].1 + rest);
            if height.0 <= up_to {
                let i = choose|i: int| 0 <= i < rest.len() && rest[i] == notifier;
                assert((s[0].1 + rest)[s[0].1.len() + i] == notifier);
            }
        }
    } else {
        assert(count_below(s, height.0) == 0);
        if s.len() > 0 && s[0].0.0 == height.0 {
            let l = s[0].1.push(notifier);
            assert(w[0] == (s[0].0, l));
            assert(w.drop_first() =~= s.drop_first());
            if height.0 <= up_to {
                assert(notifiers_up_to(w, up_to) == l + notifiers_up_to(s.drop_first(), up_to));
                assert((l + notifiers_up_to(s.drop_first(), up_to))[s[0].1.len() as int] == notifier);
            }
        } else {
            assert(w[0] == (height, seq![notifier]));
            assert(w.drop_first() =~= s);
            if height.0 <= up_to {
                assert(notifiers_up_to(w, up_to) == seq![notifier] + notifiers_up_to(s, up_to));
                assert((seq![notifier] + notifiers_up_to(s, up_to))[0] == notifier);
            }
        }
    }
}

impl<N> DeliveryNotifiers<N> {
    #[verifier::type_invariant]
    spec fn sorted(self) -> bool {
        heights_increase(self.entries@)
    }

    /// Whether the heights strictly increase.
    pub closed spec fn well_formed(&self) -> bool {
        heights_increase(self.entries@)
    }

    /// No notifier.
    pub fn new() -> (r: DeliveryNotifiers<N>)
        ensures
            r@ == Seq::<(BlockHeight, Seq<N>)>::empty(),
    {
        let r = DeliveryNotifiers { entries: Vec::new() };
        assert(r@ =~= Seq::<(BlockHeight, Seq<N>)>::empty());
        r
    }

    /// Whether there is no notifier.
    pub fn is_empty(&self) -> (r: bool)
        ensures
            r == (self@.len() == 0),
    {
        self.entries.len() == 0
    }

    /// Registers `notifier` to be told when the messages up to `height` are delivered.
    pub fn register(&mut self, height: BlockHeight, notifier: N)
        ensures
            final(self)@ == with_notifier(old(self)@, height, notifier),
    {
        proof {
            use_type_invariant(&*self);
        }
        let ghost pre = self.entries@;
        let ghost pre_view = self@;
        let n = self.entries.len();
        let mut p: usize = 0;
        while p < n && self.entries[p].0.0 < height.0
            invariant
                p <= n,
                n == self.entries@.len(),
                forall|j: int| 0 <= j < p ==> self.entries@[j].0.0 < height.0,
            decreases n - p,
        {
            p = p + 1;
        }
        proof {
            lemma_count_below(pre_view, height.0, p as int);
        }
        let mut entries = Vec::new();
        std::mem::swap(&mut entries, &mut self.entries);
        if p < n && entries[p].0.0 == height.0 {
            let (h, mut list) = entries.remove(p);
            list.push(notifier);
            entries.insert(p, (h, list));
            proof {
                assert forall|i: int, j: int| 0 <= i < j < entries@.len() implies entries@[i].0.0 < entries@[j].0.0 by {
                    assert(entries@[i].0 == pre[i].0);
                    assert(entries@[j].0 == pre[j].0);
                }
            }
        } else {
            let mut list = Vec::new();
            list.push(notifier);
            entries.insert(p, (height, list));
            proof {
                assert forall|i: int, j: int| 0 <= i < j < entries@.len() implies entries@[i].0.0 < entries@[j].0.0 by {
                    if j < p {
                    } else if j == p {
                    } else if i < p {
                        assert(entries@[j] == pre[j - 1]);
                        assert(height.0 < pre[p as int].0.0);
                    } else if i == p {
                        assert(entries@[j] == pre[j - 1]);
                        assert(height.0 < pre[p as int].0.0);
                    } else {
                        assert(entries@[i] == pre[i - 1]);
                        assert(entries@[j] == pre[j - 1]);
                    }
                }
            }
        }
        self.entries = entries;
        proof {
            assert(self@ =~= with_notifier(pre_view, height, notifier));
        }
    }

    /// Takes out the notifiers of all heights up to `height`, from the lowest height to
    /// the highest. The notifiers of higher heights stay.
    pub fn take_up_to(&mut self, height: BlockHeight) -> (r: Vec<N>)
        ensures
            r@ == notifiers_up_to(old(self)@, height.0),
            final(self)@ == old(self)@.skip(count_up_to(old(self)@, height.0) as int),
            forall|i: int| 0 <= i < final(self)@.len() ==> (#[trigger] final(self)@[i]).0.0 > height.0,
    {
        proof {
            use_type_invariant(&*self);
        }
        let ghost pre = self@;
        let mut out: Vec<N> = Vec::new();
        let mut entries = Vec::new();
        std::mem::swap(&mut entries, &mut self.entries);
        let ghost mut taken: nat = 0;
        while entries.len() > 0 && entries[0].0.0 <= height.0
            invariant
                taken <= pre.len(),
                entries@.map_values(|e: (BlockHeight, Vec<N>)| (e.0, e.1@)) == pre.skip(taken as int),
                out@ + notifiers_up_to(pre.skip(taken as int), height.0) == notifiers_up_to(pre, height.0),
                count_up_to(pre, height.0) == taken + count_up_to(pre.skip(taken as int), height.0),
                heights_increase(entries@),
            decreases entries@.len(),
        {
            let ghost before = entries@;
            let (_, mut list) = entries.remove(0);
            let ghost l = list@;
            proof {
                assert(pre.skip(taken as int).drop_first() =~= pre.skip(taken + 1 as int));
            }
            out.append(&mut list);
            proof {
                taken = taken + 1;
                assert(entries@.map_values(|e: (BlockHeight, Vec<N>)| (e.0, e.1@)) =~= pre.skip(taken as int));
                assert forall|i: int, j: int| 0 <= i < j < entries@.len() implies entries@[i].0.0 < entries@[j].0.0 by {
                    assert(entries@[i] == before[i + 1]);
                    assert(entries@[j] == before[j + 1]);
                }
            }
        }
        proof {
            assert(notifiers_up_to(pre.skip(taken as int), height.0) =~= Seq::<N>::empty());
            assert(count_up_to(pre.skip(taken as int), height.0) == 0);
            assert forall|i: int| 0 <= i < entries@.len() implies (#[trigger] entries@[i]).0.0 > height.0 by {
                if i > 0 {
                    assert(entries@[0].0.0 < entries@[i].0.0);
                }
            }
        }
        self.entries = entries;
        out
    }
}

/// The configuration of the workers of a chain.
#[derive(Clone, Copy, Debug)]
pub struct ChainWorkerConfig {
    /// Whether inactive chains are allowed in storage.
    pub allow_inactive_chains: bool,
    /// Whether new messages from deprecated epochs are allowed.
    pub allow_messages_from_deprecated_epochs: bool,
    /// How far in the future, in microseconds, the timestamp of a block may be; the
    /// worker waits until that time before voting.
    pub grace_period_micros: u64,
}

impl ChainWorkerConfig {
    /// The default configuration: no inactive chain, no message from deprecated epochs,
    /// no grace period.
    pub fn new() -> (r: ChainWorkerConfig)
        ensures
            !r.allow_inactive_chains,
            !r.allow_messages_from_deprecated_epochs,
            r.grace_period_micros == 0,
    {
        ChainWorkerConfig {
            allow_inactive_chains: false,
            allow_messages_from_deprecated_epochs: false,
            grace_period_micros: 0,
        }
    }

    /// The configuration with the given choice for inactive chains.
    pub fn with_allow_inactive_chains(self, value: bool) -> (r: ChainWorkerConfig)
        ensures
            r == (ChainWorkerConfig { allow_inactive_chains: value, ..self }),
    {
        ChainWorkerConfig { allow_inactive_chains: value, ..self }
    }

    /// The configuration with the given choice for messages from deprecated epochs.
    pub fn with_allow_messages_from_deprecated_epochs(self, value: bool) -> (r: ChainWorkerConfig)
        ensures
            r == (ChainWorkerConfig { allow_messages_from_deprecated_epochs: value, ..self }),
    {
        ChainWorkerConfig { allow_messages_from_deprecated_epochs: value, ..self }
    }

    /// The configuration with the given grace period, in microseconds.
    pub fn with_grace_period(self, grace_period_micros: u64) -> (r: ChainWorkerConfig)
        ensures
            r == (ChainWorkerConfig { grace_period_micros, ..self }),
    {
        ChainWorkerConfig { grace_period_micros, ..self }
    }
}

/// The checks of a block proposal that need no chain state: a validation certificate
/// comes exactly with forced oracle responses, and without a certificate, the signer of
/// the operations must be the owner who proposes the block.
pub fn check_proposal_signers(
    has_validated_certificate: bool,
    has_forced_oracle_responses: bool,
    authenticated_signer: Option<Owner>,
    proposal_owner: Owner,
) -> (r: Result<(), WorkerError>)
    ensures
        has_validated_certificate != has_forced_oracle_responses ==> (r matches Err(WorkerError::InvalidBlockProposal(m))
            && m@ == "Must contain a validation certificate if and only if oracle responses are forced from a previous round"@),
        has_validated_certificate == has_forced_oracle_responses && !has_validated_certificate
            && (authenticated_signer matches Some(s) && s != proposal_owner) ==> (r matches Err(WorkerError::InvalidSigner(x)) && authenticated_signer == Some(x)),
        has_validated_certificate == has_forced_oracle_responses && (has_validated_certificate
            || !(authenticated_signer matches Some(s) && s != proposal_owner)) ==> r is Ok,
{
    if has_validated_certificate != has_forced_oracle_responses {
        return Err(WorkerError::InvalidBlockProposal(
            "Must contain a validation certificate if and only if oracle responses are forced from a previous round".to_owned(),
        ));
    }
    if !has_validated_certificate {
        if let Some(signer) = authenticated_signer {
            let same = signer.0.equals(&proposal_owner.0);
            proof {
                if same {
                    assert(signer.0.bytes =~= proposal_owner.0.bytes);
                }
            }
            if !same {
                return Err(WorkerError::InvalidSigner(signer));
            }
        }
    }
    Ok(())
}

/// Checks that a block's timestamp is at most the grace period ahead of the local time
/// (all in microseconds).
pub fn check_block_timestamp(block_timestamp: u64, local_time: u64, grace_period_micros: u64) -> (r: Result<(), WorkerError>)
    ensures
        (if block_timestamp > local_time { block_timestamp - local_time } else { 0 }) <= grace_period_micros ==> r is Ok,
        (if block_timestamp > local_time { block_timestamp - local_time } else { 0 }) > grace_period_micros ==> r matches Err(WorkerError::InvalidTimestamp),
{
    let ahead = if block_timestamp > local_time { block_timestamp - local_time } else { 0 };
    if ahead <= grace_period_micros {
        Ok(())
    } else {
        Err(WorkerError::InvalidTimestamp)
    }
}

/// The range of the confirmed log that a chain information query asks for: from
/// `start`, at most `limit` entries (all when there is no limit), within the `count`
/// entries of the log.
pub fn sent_certificate_range(start: u64, limit: Option<u64>, count: usize) -> (r: Result<(usize, usize), WorkerError>)
    ensures
        start > usize::MAX ==> r matches Err(WorkerError::ArithmeticError(ArithmeticError::Overflow)),
        start <= usize::MAX ==> match limit {
            None => r == Ok::<(usize, usize), WorkerError>((start as usize, count)),
            Some(l) => if l > usize::MAX || start + l > usize::MAX {
                r matches Err(WorkerError::ArithmeticError(ArithmeticError::Overflow))
            } else {
                r == Ok::<(usize, usize), WorkerError>((start as usize, if start + l < count { (start + l) as usize } else { count }))
            },
        },
{
    if start > usize::MAX as u64 {
        return Err(WorkerError::ArithmeticError(ArithmeticError::Overflow));
    }
    let start = start as usize;
    let end = match limit {
        None => count,
        Some(limit) => {
            if limit > usize::MAX as u64 {
                return Err(WorkerError::ArithmeticError(ArithmeticError::Overflow));
            }
            match start.checked_add(limit as usize) {
                None => {
                    return Err(WorkerError::ArithmeticError(ArithmeticError::Overflow));
                },
                Some(end) => if end < count {
                    end
                } else {
                    count
                },
            }
        },
    };
    Ok((start, end))
}

/// Checks the height of the next block against the one a query expects.
pub fn check_next_block_height(expected: Option<BlockHeight>, found: BlockHeight) -> (r: Result<(), WorkerError>)
    ensures
        match expected {
            None => r is Ok,
            Some(e) => if e.0 == found.0 {
                r is Ok
            } else {
                r matches Err(WorkerError::UnexpectedBlockHeight { expected_block_height, found_block_height })
                    && expected_block_height == e && found_block_height == found
            },
        },
{
    match expected {
        None => Ok(()),
        Some(e) => if e.0 == found.0 {
            Ok(())
        } else {
            Err(WorkerError::UnexpectedBlockHeight { expected_block_height: e, found_block_height: found })
        },
    }
}

/// What is done with a pending incoming message.
#[derive(Clone, Copy, Debug, PartialEq, Eq, Structural)]
pub enum MessageAction {
    Accept,
    Reject,
}

/// The action proposed for pending messages: a closed chain rejects them.
pub fn pending_message_action(closed: bool) -> (r: MessageAction)
    ensures
        r == if closed { MessageAction::Reject } else { MessageAction::Accept },
{
    if closed {
        MessageAction::Reject
    } else {
        MessageAction::Accept
    }
}

/// Whether to keep a delivery notifier for later: only when some cross-chain request
/// created by the certificate carries messages up to the certificate's height.
pub fn should_wait_for_delivery(requests_with_messages_up_to_height: &Vec<bool>) -> (r: bool)
    ensures
        r == exists|i: int| 0 <= i < requests_with_messages_up_to_height@.len() && requests_with_messages_up_to_height@[i],
{
    let n = requests_with_messages_up_to_height.len();
    let mut i: usize = 0;
    while i < n
        invariant
            i <= n,
            n == requests_with_messages_up_to_height@.len(),
            forall|j: int| 0 <= j < i ==> !requests_with_messages_up_to_height@[j],
        decreases n - i,
    {
        if requests_with_messages_up_to_height[i] {
            return true;
        }
        i = i + 1;
    }
    false
}

/// A cross-chain request that a worker sends in answer to an update of a recipient.
#[derive(Debug)]
pub enum CrossChainRequest {
    /// The recipient confirms the heights up to which it received the messages of the
    /// sender, for each medium.
    ConfirmUpdatedRecipient { sender: ChainId, recipient: ChainId, latest_heights: Vec<(Medium, BlockHeight)> },
}

/// What the networking layer is asked to do: send cross-chain requests and push
/// notifications.
#[derive(Debug)]
pub struct NetworkActions {
    pub cross_chain_requests: Vec<CrossChainRequest>,
    pub notifications: Vec<Notification>,
}

/// The media of `updates` that received new messages, each with the height of the last
/// one, in the order of `updates`.
pub open spec fn updated_heights(updates: Seq<(MediumView, Option<BlockHeight>)>) -> Seq<(MediumView, BlockHeight)>
    decreases updates.len(),
{
    if updates.len() == 0 {
        Seq::empty()
    } else {
        let rest = updated_heights(updates.drop_last());
        match updates.last().1 {
            Some(height) => rest.push((updates.last().0, height)),
            None => rest,
        }
    }
}

/// The abstract value of a list of updates, with media by their views.
pub open spec fn updates_view(updates: Seq<(Medium, Option<BlockHeight>)>) -> Seq<(MediumView, Option<BlockHeight>)> {
    updates.map_values(|u: (Medium, Option<BlockHeight>)| (u.0@, u.1))
}

/// Whether `n` tells `recipient` of new messages from `sender` on `medium` up to
/// `height`.
pub open spec fn notifies_incoming(n: Notification, recipient: ChainId, sender: ChainId, medium: MediumView, height: BlockHeight) -> bool {
    &&& n.chain_id == recipient
    &&& n.reason matches Reason::NewIncomingMessage { origin, height: h }
        && origin.sender == sender && origin.medium@ == medium && h == height
}

/// Whether `request` confirms to `sender` that `recipient` received its messages up to
/// the heights `expected`, medium by medium.
pub open spec fn confirms_heights(request: CrossChainRequest, sender: ChainId, recipient: ChainId, expected: Seq<(MediumView, BlockHeight)>) -> bool {
    match request {
        CrossChainRequest::ConfirmUpdatedRecipient { sender: s, recipient: t, latest_heights } => {
            &&& s == sender
            &&& t == recipient
            &&& latest_heights@.len() == expected.len()
            &&& forall|i: int| 0 <= i < expected.len() ==> (#[trigger] latest_heights@[i]).0@ == expected[i].0
                && latest_heights@[i].1 == expected[i].1
        },
    }
}

/// The actions after the messages of `sender` were handed to `recipient`, medium by
/// medium: `updates` holds, for each medium, the height of the last new message, or
/// `None` when nothing new arrived. Without anything new there is nothing to do.
/// Otherwise `recipient` is notified once per medium that received messages, and a
/// single request confirms those heights to `sender`.
pub fn update_recipient_actions(sender: ChainId, recipient: ChainId, updates: Vec<(Medium, Option<BlockHeight>)>) -> (r: NetworkActions)
    ensures
        ({
            let expected = updated_heights(updates_view(updates@));
            &&& r.notifications.len() == expected.len()
            &&& forall|i: int| 0 <= i < expected.len() ==> notifies_incoming(
                #[trigger] r.notifications@[i], recipient, sender, expected[i].0, expected[i].1)
            &&& expected.len() == 0 ==> r.cross_chain_requests.len() == 0
            &&& expected.len() > 0 ==> r.cross_chain_requests.len() == 1
                && confirms_heights(r.cross_chain_requests@[0], sender, recipient, expected)
        }),
{
    let ghost input = updates_view(updates@);
    let mut updates = updates;
    let n = updates.len();
    let mut notifications: Vec<Notification> = Vec::new();
    let mut latest_heights: Vec<(Medium, BlockHeight)> = Vec::new();
    let mut i: usize = 0;
    while i < n
        invariant
            i <= n,
            n == input.len(),
            updates@.len() == n - i,
            forall|j: int| 0 <= j < n - i ==> (#[trigger] updates@[j]).0@ == input[j + i].0 && updates@[j].1 == input[j + i].1,
            latest_heights@.len() == notifications@.len(),
            latest_heights@.len() == updated_heights(input.take(i as int)).len(),
            forall|j: int| 0 <= j < latest_heights@.len() ==> (#[trigger] latest_heights@[j]).0@ == updated_heights(input.take(i as int))[j].0
                && latest_heights@[j].1 == updated_heights(input.take(i as int))[j].1,
            forall|j: int| 0 <= j < notifications@.len() ==> notifies_incoming(#[trigger] notifications@[j], recipient, sender,
                updated_heights(input.take(i as int))[j].0, updated_heights(input.take(i as int))[j].1),
        decreases n - i,
    {
        proof {
            assert(input.take(i + 1).drop_last() =~= input.take(i as int));
        }
        let (medium, height) = updates.remove(0);
        match height {
            Some(h) => {
                let copy = medium.duplicate();
                notifications.push(Notification {
                    chain_id: recipient,
                    reason: Reason::NewIncomingMessage { origin: Origin { sender, medium: copy }, height: h },
                });
                latest_heights.push((medium, h));
            },
            None => {},
        }
        i = i + 1;
    }
    proof {
        assert(input.take(n as int) =~= input);
    }
    if notifications.len() == 0 {
        return NetworkActions { cross_chain_requests: Vec::new(), notifications };
    }
    let mut cross_chain_requests: Vec<CrossChainRequest> = Vec::new();
    cross_chain_requests.push(CrossChainRequest::ConfirmUpdatedRecipient { sender, recipient, latest_heights });
    NetworkActions { cross_chain_requests, notifications }
}

} // verus!

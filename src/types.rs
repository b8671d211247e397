use std::cmp::Ordering;

use vstd::prelude::*;

verus! {

/// Content hash identifying a block.
pub type BlockId = u64;

/// Round number of a proposal.
pub type BlockRound = u64;

/// Identity of a replica in the validator table.
pub type ReplicaId = u64;

/// Opaque signature value produced by the signer capability.
pub type Signature = u64;

/// A transaction of a block payload, held as an opaque word.
pub type Transaction = u64;

/// Identifies a candidate block and its position in the chain.
#[derive(Clone, Copy, Debug, PartialEq, Eq, Structural)]
pub struct VoteInfo {
    /// Id of the block.
    pub id: BlockId,
    /// Round of the block.
    pub round: BlockRound,
    /// Id of the parent block.
    pub parent_id: BlockId,
    /// Round of the parent block.
    pub parent_round: BlockRound,
    /// Speculated execution state.
    pub exec_state_id: Option<u64>,
}

/// Speculated commit outcome voted on together with a `VoteInfo`.
#[derive(Clone, Copy, Debug, PartialEq, Eq, Structural)]
pub struct LedgerCommitInfo {
    /// The block whose state becomes final once this vote forms a QC; `None` when
    /// no commit happens.
    pub commit_state_id: Option<BlockId>,
    /// Hash of the vote's `VoteInfo`.
    pub vote_info_hash: u64,
}

/// The exact pair that a vote attests; votes only accumulate per claim.
#[derive(Clone, Copy, Debug, PartialEq, Eq, Structural)]
pub struct Claim {
    pub vote_info: VoteInfo,
    pub ledger_commit_info: LedgerCommitInfo,
}

/// Mathematical model of a quorum certificate.
pub struct QcModel {
    pub vote_info: VoteInfo,
    pub ledger_commit_info: LedgerCommitInfo,
    pub signatures: Seq<(ReplicaId, Signature)>,
    pub author: ReplicaId,
    pub author_signature: Signature,
}

/// Aggregated proof that a quorum of replicas signed one claim.
#[derive(Clone, Debug)]
pub struct QuorumCertificate {
    pub vote_info: VoteInfo,
    pub ledger_commit_info: LedgerCommitInfo,
    /// A quorum of (signer, signature) pairs.
    pub signatures: Vec<(ReplicaId, Signature)>,
    /// The replica that aggregated the certificate.
    pub author: ReplicaId,
    pub author_signature: Signature,
}

impl View for QuorumCertificate {
    type V = QcModel;

    open spec fn view(&self) -> QcModel {
        QcModel {
            vote_info: self.vote_info,
            ledger_commit_info: self.ledger_commit_info,
            signatures: self.signatures@,
            author: self.author,
            author_signature: self.author_signature,
        }
    }
}

/// Copies a sequence of signature pairs.
pub fn copy_signatures(s: &Vec<(ReplicaId, Signature)>) -> (r: Vec<(ReplicaId, Signature)>)
    ensures
        r@ == s@,
{
    let mut r: Vec<(ReplicaId, Signature)> = Vec::new();
    let mut i: usize = 0;
    while i < s.len()
        invariant
            i <= s@.len(),
            r@ == s@.subrange(0, i as int),
        decreases s@.len() - i,
    {
        r.push(s[i]);
        i = i + 1;
        assert(r@ =~= s@.subrange(0, i as int));
    }
    assert(r@ =~= s@);
    r
}

impl QuorumCertificate {
    /// Round of the certified block: certificates are ordered by it.
    pub open spec fn spec_round(&self) -> BlockRound {
        self.vote_info.round
    }

    pub fn round(&self) -> (r: BlockRound)
        ensures
            r == self.spec_round(),
    {
        self.vote_info.round
    }

    /// The claim this certificate attests.
    pub open spec fn spec_claim(&self) -> Claim {
        Claim { vote_info: self.vote_info, ledger_commit_info: self.ledger_commit_info }
    }

    /// Whether this certificate finalizes a block.
    pub open spec fn is_commit_qc(&self) -> bool {
        self.ledger_commit_info.commit_state_id.is_some()
    }

    /// A copy with the same model.
    pub fn duplicate(&self) -> (r: QuorumCertificate)
        ensures
            r@ == self@,
    {
        QuorumCertificate {
            vote_info: self.vote_info,
            ledger_commit_info: self.ledger_commit_info,
            signatures: copy_signatures(&self.signatures),
            author: self.author,
            author_signature: self.author_signature,
        }
    }
}

impl PartialEq for QuorumCertificate {
    fn eq(&self, other: &QuorumCertificate) -> (r: bool) {
        self.vote_info == other.vote_info && self.ledger_commit_info == other.ledger_commit_info
    }
}

impl vstd::std_specs::cmp::PartialEqSpecImpl for QuorumCertificate {
    open spec fn obeys_eq_spec() -> bool {
        true
    }

    open spec fn eq_spec(&self, other: &QuorumCertificate) -> bool {
        self.vote_info == other.vote_info && self.ledger_commit_info == other.ledger_commit_info
    }
}

/// Certificates are ordered by round alone: at most one claim is certified per
/// round.
pub open spec fn round_order(a: BlockRound, b: BlockRound) -> Option<Ordering> {
    if a < b {
        Some(Ordering::Less)
    } else if a > b {
        Some(Ordering::Greater)
    } else {
        Some(Ordering::Equal)
    }
}

impl PartialOrd for QuorumCertificate {
    fn partial_cmp(&self, other: &QuorumCertificate) -> (r: Option<Ordering>) {
        if self.vote_info.round < other.vote_info.round {
            Some(Ordering::Less)
        } else if self.vote_info.round > other.vote_info.round {
            Some(Ordering::Greater)
        } else {
            Some(Ordering::Equal)
        }
    }
}

impl vstd::std_specs::cmp::PartialOrdSpecImpl for QuorumCertificate {
    open spec fn obeys_partial_cmp_spec() -> bool {
        true
    }

    open spec fn partial_cmp_spec(&self, other: &QuorumCertificate) -> Option<Ordering> {
        round_order(self.vote_info.round, other.vote_info.round)
    }
}

/// One replica's signed vote, with its highest known commit certificate.
#[derive(Clone, Debug)]
pub struct VoteMsg {
    pub vote_info: VoteInfo,
    pub ledger_commit_info: LedgerCommitInfo,
    /// Piggybacked certificate used to synchronize on committed blocks.
    pub high_commit_qc: QuorumCertificate,
    pub sender: ReplicaId,
    /// Signature over (vote_info, ledger_commit_info).
    pub signature: Signature,
}

impl VoteMsg {
    /// Builds a vote from its parts; `signature` is what the author's signer
    /// produced over the claim.
    pub fn new(
        vote_info: VoteInfo,
        ledger_commit_info: LedgerCommitInfo,
        high_commit_qc: QuorumCertificate,
        author: ReplicaId,
        signature: Signature,
    ) -> (r: VoteMsg)
        ensures
            r.vote_info == vote_info,
            r.ledger_commit_info == ledger_commit_info,
            r.high_commit_qc@ == high_commit_qc@,
            r.sender == author,
            r.signature == signature,
    {
        VoteMsg { vote_info, ledger_commit_info, high_commit_qc, sender: author, signature }
    }

    pub open spec fn spec_claim(&self) -> Claim {
        Claim { vote_info: self.vote_info, ledger_commit_info: self.ledger_commit_info }
    }
}

/// A proposal extending the block certified by `qc`.
#[derive(Clone, Debug)]
pub struct Block {
    pub author: ReplicaId,
    pub round: BlockRound,
    pub payload: Vec<Transaction>,
    /// Certificate of the parent block.
    pub qc: QuorumCertificate,
    /// Digest of author, round, payload, qc.vote_info.id and qc.signatures.
    pub id: BlockId,
}

impl Block {
    /// The block whose speculative state this one executes on and must find in
    /// the tree before it enters: the parent named by its certificate's
    /// vote_info.
    pub open spec fn spec_parent(&self) -> BlockId {
        self.qc.vote_info.parent_id
    }
}

pub const DIGEST_OFFSET: u64 = 0xcbf29ce484222325;

pub const DIGEST_PRIME: u64 = 0x100000001b3;

/// One step of the word digest: xor the word in, then multiply modulo 2^64.
pub open spec fn digest_step(h: u64, w: u64) -> u64 {
    (h ^ w).wrapping_mul(DIGEST_PRIME)
}

/// Digest of a sequence of words, folded from the left.
pub open spec fn digest(words: Seq<u64>) -> u64
    decreases words.len(),
{
    if words.len() == 0 {
        DIGEST_OFFSET
    } else {
        digest_step(digest(words.drop_last()), words.last())
    }
}

/// Signature pairs laid out as words, signer first.
pub open spec fn signature_words(s: Seq<(ReplicaId, Signature)>) -> Seq<u64>
    decreases s.len(),
{
    if s.len() == 0 {
        Seq::empty()
    } else {
        signature_words(s.drop_last()) + seq![s.last().0, s.last().1]
    }
}

/// The words a block id is computed from; lengths are included so that the
/// layout is unambiguous.
pub open spec fn block_words(
    author: ReplicaId,
    round: BlockRound,
    payload: Seq<Transaction>,
    qc_block: BlockId,
    signatures: Seq<(ReplicaId, Signature)>,
) -> Seq<u64> {
    seq![author, round, payload.len() as u64] + payload + seq![qc_block, signatures.len() as u64]
        + signature_words(signatures)
}

/// Block identity over its contents: the 64-bit FNV-1a digest of `block_words`.
/// It is deterministic and spreads its input well, but it is not collision
/// resistant: a deployment facing adversarial proposers needs a cryptographic
/// digest in its place.
pub open spec fn spec_block_id(
    author: ReplicaId,
    round: BlockRound,
    payload: Seq<Transaction>,
    qc_block: BlockId,
    signatures: Seq<(ReplicaId, Signature)>,
) -> BlockId {
    digest(block_words(author, round, payload, qc_block, signatures))
}

/// Computes `digest` of the given words.
pub fn digest_words(words: &Vec<u64>) -> (r: u64)
    ensures
        r == digest(words@),
{
    let mut h: u64 = DIGEST_OFFSET;
    let mut i: usize = 0;
    while i < words.len()
        invariant
            i <= words@.len(),
            h == digest(words@.subrange(0, i as int)),
        decreases words@.len() - i,
    {
        assert(words@.subrange(0, i + 1 as int).drop_last() =~= words@.subrange(0, i as int));
        h = (h ^ words[i]).wrapping_mul(DIGEST_PRIME);
        i = i + 1;
    }
    assert(words@.subrange(0, words@.len() as int) =~= words@);
    h
}

/// Computes the id of a block with the given contents.
pub fn block_id(
    author: ReplicaId,
    round: BlockRound,
    payload: &Vec<Transaction>,
    qc_block: BlockId,
    signatures: &Vec<(ReplicaId, Signature)>,
) -> (r: BlockId)
    ensures
        r == spec_block_id(author, round, payload@, qc_block, signatures@),
{
    let mut words: Vec<u64> = Vec::new();
    words.push(author);
    words.push(round);
    words.push(payload.len() as u64);
    let mut i: usize = 0;
    while i < payload.len()
        invariant
            i <= payload@.len(),
            words@ == seq![author, round, payload@.len() as u64] + payload@.subrange(0, i as int),
        decreases payload@.len() - i,
    {
        words.push(payload[i]);
        i = i + 1;
        assert(words@ =~= seq![author, round, payload@.len() as u64] + payload@.subrange(0, i as int));
    }
    assert(payload@.subrange(0, payload@.len() as int) =~= payload@);
    words.push(qc_block);
    words.push(signatures.len() as u64);
    let ghost head = seq![author, round, payload@.len() as u64] + payload@ + seq![qc_block, signatures@.len() as u64];
    assert(words@ =~= head);
    let mut j: usize = 0;
    while j < signatures.len()
        invariant
            j <= signatures@.len(),
            words@ == head + signature_words(signatures@.subrange(0, j as int)),
        decreases signatures@.len() - j,
    {
        let pair = signatures[j];
        assert(signatures@.subrange(0, j + 1 as int).drop_last() =~= signatures@.subrange(0, j as int));
        words.push(pair.0);
        words.push(pair.1);
        j = j + 1;
        assert(words@ =~= head + signature_words(signatures@.subrange(0, j as int)));
    }
    assert(signatures@.subrange(0, signatures@.len() as int) =~= signatures@);
    digest_words(&words)
}

} // verus!

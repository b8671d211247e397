use vstd::prelude::*;

use crate::types::{
    block_id, copy_signatures, spec_block_id, Block, BlockId, BlockRound, Claim, QcModel,
    QuorumCertificate, ReplicaId, Signature, Transaction, VoteMsg,
};

verus! {

/// Failure reported by the ledger.
#[derive(Clone, Copy, Debug, PartialEq, Eq, Structural)]
pub struct LedgerFault {
    pub code: u64,
}

/// Why a block was not inserted into the pending tree.
#[derive(Clone, Copy, Debug, PartialEq, Eq, Structural)]
pub enum InsertError {
    /// The parent is neither pending nor committed.
    UnknownParent,
    /// The ledger could not execute the payload.
    ExecutionFailure,
    /// The block's round is not above the round its certificate certifies.
    RoundNotAboveQc,
}

/// Speculative execution and finalization of block state, provided by the user.
pub trait Ledger {
    /// Executes `payload` against the speculative state of `parent_id`, recording
    /// the result under `block_id` without touching durable state.
    fn speculate(&mut self, parent_id: BlockId, block_id: BlockId, payload: &Vec<Transaction>) -> Result<(), LedgerFault>;

    /// Makes the speculated state of `block_id` authoritative.
    fn commit(&mut self, block_id: BlockId) -> Result<(), LedgerFault>;
}

/// Signature operations of the replica, provided by the user.
pub trait Keys {
    /// Whether `signature` is `sender`'s signature over `claim`.
    fn verify(&self, sender: ReplicaId, claim: &Claim, signature: Signature) -> bool;

    /// This replica's signature over `claim`.
    fn sign(&self, claim: &Claim) -> Signature;
}

/// Number of distinct signers that certify a claim among `n = 3F + 1` replicas:
/// `2F + 1`.
pub open spec fn quorum_of(n: nat) -> nat {
    2 * ((n - 1) as nat / 3) + 1
}

/// Why signatures could not be aggregated into a certificate.
#[derive(Clone, Copy, Debug, PartialEq, Eq, Structural)]
pub enum AggregateError {
    /// Fewer than `2F + 1` distinct registered signers.
    InsufficientSignatures,
    /// Some vote attests a different claim.
    MixedClaim,
}

/// Whether some vote in `votes` attests another claim than `c`.
pub open spec fn mixes_claims(votes: Seq<VoteMsg>, c: Claim) -> bool {
    exists|k: int| 0 <= k < votes.len() && votes[k].spec_claim() != c
}

/// The registered replicas that sent a vote in `votes`.
pub open spec fn registered_signers(votes: Seq<VoteMsg>, members: Seq<ReplicaId>) -> Set<ReplicaId> {
    Set::new(|x: ReplicaId| members.contains(x) && exists|k: int| 0 <= k < votes.len() && votes[k].sender == x)
}

/// Whether some vote in `votes` carries this (sender, signature) pair.
pub open spec fn sent_in(votes: Seq<VoteMsg>, p: (ReplicaId, Signature)) -> bool {
    exists|k: int| 0 <= k < votes.len() && votes[k].sender == p.0 && votes[k].signature == p.1
}

/// The signers of a list of signature pairs, in order.
pub open spec fn signers(s: Seq<(ReplicaId, Signature)>) -> Seq<ReplicaId> {
    s.map_values(|p: (ReplicaId, Signature)| p.0)
}

fn seq_contains(s: &Vec<ReplicaId>, x: ReplicaId) -> (r: bool)
    ensures
        r == s@.contains(x),
{
    let mut i: usize = 0;
    while i < s.len()
        invariant
            i <= s@.len(),
            forall|k: int| 0 <= k < i ==> s@[k] != x,
        decreases s@.len() - i,
    {
        if s[i] == x {
            assert(s@[i as int] == x);
            return true;
        }
        i = i + 1;
    }
    false
}

fn has_signer(s: &Vec<(ReplicaId, Signature)>, x: ReplicaId) -> (r: bool)
    ensures
        r == signers(s@).contains(x),
{
    let mut i: usize = 0;
    while i < s.len()
        invariant
            i <= s@.len(),
            forall|k: int| 0 <= k < i ==> s@[k].0 != x,
        decreases s@.len() - i,
    {
        if s[i].0 == x {
            assert(signers(s@)[i as int] == x);
            return true;
        }
        i = i + 1;
    }
    false
}

impl QuorumCertificate {
    /// Builds the certificate of `claim` from `votes`: one signature per distinct
    /// registered sender, in order of first appearance. Fails with `MixedClaim` if
    /// a vote attests another claim, else with `InsufficientSignatures` below
    /// `2F + 1` distinct registered senders.
    pub fn aggregate(
        claim: Claim,
        votes: &Vec<VoteMsg>,
        validators: &Vec<ReplicaId>,
        author: ReplicaId,
        author_signature: Signature,
    ) -> (r: Result<QuorumCertificate, AggregateError>)
        requires
            validators@.len() >= 1,
        ensures
            (r == Err::<QuorumCertificate, AggregateError>(AggregateError::MixedClaim)) == mixes_claims(votes@, claim),
            !mixes_claims(votes@, claim) ==> {
                &&& registered_signers(votes@, validators@).finite()
                &&& (r == Err::<QuorumCertificate, AggregateError>(AggregateError::InsufficientSignatures))
                    == (registered_signers(votes@, validators@).len() < quorum_of(validators@.len()))
                &&& (r is Ok) == (registered_signers(votes@, validators@).len() >= quorum_of(validators@.len()))
            },
            r is Ok ==> {
                let q = r->Ok_0;
                &&& q.spec_claim() == claim
                &&& q.author == author
                &&& q.author_signature == author_signature
                &&& signers(q.signatures@).no_duplicates()
                &&& signers(q.signatures@).to_set() == registered_signers(votes@, validators@)
                &&& forall|m: int| 0 <= m < q.signatures@.len() ==> sent_in(votes@, #[trigger] q.signatures@[m])
            },
    {
        let mut i: usize = 0;
        while i < votes.len()
            invariant
                i <= votes@.len(),
                forall|k: int| 0 <= k < i ==> votes@[k].spec_claim() == claim,
            decreases votes@.len() - i,
        {
            if !(votes[i].vote_info == claim.vote_info && votes[i].ledger_commit_info == claim.ledger_commit_info) {
                assert(votes@[i as int].spec_claim() != claim);
                return Err(AggregateError::MixedClaim);
            }
            i = i + 1;
        }
        let mut sigs: Vec<(ReplicaId, Signature)> = Vec::new();
        let mut j: usize = 0;
        while j < votes.len()
            invariant
                j <= votes@.len(),
                signers(sigs@).no_duplicates(),
                signers(sigs@).to_set() == registered_signers(votes@.subrange(0, j as int), validators@),
                forall|m: int| 0 <= m < sigs@.len() ==> sent_in(votes@, #[trigger] sigs@[m]),
            decreases votes@.len() - j,
        {
            let sender = votes[j].sender;
            let ghost before = sigs@;
            let ghost pre_votes = votes@.subrange(0, j as int);
            let ghost next_votes = votes@.subrange(0, j + 1 as int);
            let ghost pre_set = registered_signers(pre_votes, validators@);
            let ghost next_set = registered_signers(next_votes, validators@);
            if seq_contains(validators, sender) && !has_signer(&sigs, sender) {
                sigs.push((sender, votes[j].signature));
                assert(signers(sigs@) =~= signers(before).push(sender));
                assert forall|m: int| 0 <= m < sigs@.len() implies sent_in(votes@, #[trigger] sigs@[m]) by {
                    if m == before.len() {
                        assert(votes@[j as int].sender == sigs@[m].0);
                    } else {
                        assert(sigs@[m] == before[m]);
                    }
                }
                assert(signers(sigs@).to_set() =~= next_set) by {
                    assert forall|x: ReplicaId| next_set.contains(x) implies signers(sigs@).to_set().contains(x) by {
                        if x != sender {
                            let k = choose|k: int| 0 <= k < j + 1 && next_votes[k].sender == x;
                            assert(pre_votes[k].sender == x);
                            assert(pre_set.contains(x));
                            assert(signers(before).contains(x));
                            let m = choose|m: int| 0 <= m < signers(before).len() && signers(before)[m] == x;
                            assert(signers(sigs@)[m] == x);
                        } else {
                            assert(signers(sigs@)[before.len() as int] == x);
                        }
                    }
                    assert forall|x: ReplicaId| signers(sigs@).to_set().contains(x) implies next_set.contains(x) by {
                        let m = choose|m: int| 0 <= m < signers(sigs@).len() && signers(sigs@)[m] == x;
                        if m == before.len() {
                            assert(next_votes[j as int].sender == x);
                        } else {
                            assert(signers(before)[m] == x);
                            assert(signers(before).to_set().contains(x));
                            let k = choose|k: int| 0 <= k < j && pre_votes[k].sender == x;
                            assert(next_votes[k].sender == x);
                        }
                    }
                }
            } else {
                assert(signers(sigs@).to_set() =~= next_set) by {
                    assert forall|x: ReplicaId| next_set.contains(x) implies signers(sigs@).to_set().contains(x) by {
                        let k = choose|k: int| 0 <= k < j + 1 && next_votes[k].sender == x;
                        if k < j {
                            assert(pre_votes[k].sender == x);
                            assert(pre_set.contains(x));
                        } else {
                            assert(x == sender);
                        }
                    }
                    assert forall|x: ReplicaId| signers(sigs@).to_set().contains(x) implies next_set.contains(x) by {
                        assert(pre_set.contains(x));
                        let k = choose|k: int| 0 <= k < j && pre_votes[k].sender == x;
                        assert(next_votes[k].sender == x);
                    }
                }
            }
            j = j + 1;
        }
        assert(votes@.subrange(0, votes@.len() as int) =~= votes@);
        proof {
            signers(sigs@).unique_seq_to_set();
        }
        let n = validators.len();
        if sigs.len() < 2 * ((n - 1) / 3) + 1 {
            return Err(AggregateError::InsufficientSignatures);
        }
        Ok(QuorumCertificate {
            vote_info: claim.vote_info,
            ledger_commit_info: claim.ledger_commit_info,
            signatures: sigs,
            author,
            author_signature,
        })
    }
}

/// The signatures gathered for one claim, and whether its certificate has formed.
struct VoteSet {
    claim: Claim,
    signatures: Vec<(ReplicaId, Signature)>,
    formed: bool,
}

/// What the accumulator holds for one claim: its signatures, and whether the
/// certificate for it was formed (its signatures then cleared).
pub type Tally = (Seq<(ReplicaId, Signature)>, bool);

/// Whether the signers of `s` are distinct and all in `members`.
pub open spec fn distinct_members(s: Seq<(ReplicaId, Signature)>, members: Seq<ReplicaId>) -> bool {
    &&& signers(s).no_duplicates()
    &&& forall|k: int| 0 <= k < s.len() ==> members.contains(#[trigger] s[k].0)
}

proof fn lemma_push_new_signer(s: Seq<(ReplicaId, Signature)>, members: Seq<ReplicaId>, p: (ReplicaId, Signature))
    requires
        distinct_members(s, members),
        !signed_by(s, p.0),
        members.contains(p.0),
    ensures
        distinct_members(s.push(p), members),
{
    let t = s.push(p);
    assert(signers(t) =~= signers(s).push(p.0));
    assert forall|i: int, j: int| 0 <= i < signers(t).len() && 0 <= j < signers(t).len() && i != j implies signers(t)[i]
        != signers(t)[j] by {
        if i == s.len() {
            assert(signers(t)[j] == s[j].0);
        } else if j == s.len() {
            assert(signers(t)[i] == s[i].0);
        } else {
            assert(signers(t)[i] == signers(s)[i]);
            assert(signers(t)[j] == signers(s)[j]);
        }
    }
    assert forall|k: int| 0 <= k < t.len() implies members.contains(#[trigger] t[k].0) by {
        if k < s.len() {
            assert(t[k] == s[k]);
        }
    }
}

/// Whether `sender` signed in `s`.
pub open spec fn signed_by(s: Seq<(ReplicaId, Signature)>, sender: ReplicaId) -> bool {
    exists|k: int| 0 <= k < s.len() && s[k].0 == sender
}

/// The block tree of one replica: pending blocks, vote accumulator and watermarks.
pub struct BlockTree {
    pending_block_tree: Vec<Block>,
    committed: Vec<BlockId>,
    pending_votes: Vec<VoteSet>,
    votes: Ghost<Map<Claim, Tally>>,
    validators: Vec<ReplicaId>,
    author: ReplicaId,
    /// Highest known certificate.
    pub high_qc: QuorumCertificate,
    /// Highest certificate that finalized a block.
    pub high_commit_qc: QuorumCertificate,
}

impl BlockTree {
    /// Whether a block with this id waits in the pending tree.
    pub closed spec fn has_pending(&self, id: BlockId) -> bool {
        exists|i: int| 0 <= i < self.pending_block_tree@.len() && self.pending_block_tree@[i].id == id
    }

    /// The pending block with this id.
    pub closed spec fn pending_block(&self, id: BlockId) -> Block {
        self.pending_block_tree@[choose|i: int| 0 <= i < self.pending_block_tree@.len() && self.pending_block_tree@[i].id == id]
    }

    /// Whether this block was committed (the genesis block counts as committed).
    pub closed spec fn is_committed(&self, id: BlockId) -> bool {
        self.committed@.contains(id)
    }

    /// The vote accumulator, per claim.
    pub closed spec fn tally(&self) -> Map<Claim, Tally> {
        self.votes@
    }

    /// The registered replicas.
    pub closed spec fn members(&self) -> Seq<ReplicaId> {
        self.validators@
    }

    /// This replica's identity.
    pub closed spec fn spec_author(&self) -> ReplicaId {
        self.author
    }

    /// Model of the highest known certificate.
    pub closed spec fn high_qc_model(&self) -> QcModel {
        self.high_qc@
    }

    /// Model of the highest commit certificate.
    pub closed spec fn high_commit_qc_model(&self) -> QcModel {
        self.high_commit_qc@
    }

    pub open spec fn quorum(&self) -> nat {
        quorum_of(self.members().len())
    }

    /// Signatures gathered so far for `c`.
    pub open spec fn gathered(&self, c: Claim) -> Seq<(ReplicaId, Signature)> {
        if self.tally().contains_key(c) {
            self.tally()[c].0
        } else {
            Seq::empty()
        }
    }

    /// Whether the certificate for `c` was already formed.
    pub open spec fn formed(&self, c: Claim) -> bool {
        self.tally().contains_key(c) && self.tally()[c].1
    }

    pub closed spec fn wf(&self) -> bool {
        let blocks = self.pending_block_tree@;
        let sets = self.pending_votes@;
        &&& self.validators@.len() >= 1
        &&& forall|i: int, j: int|
            0 <= i < j < blocks.len() ==> blocks[i].id != blocks[j].id
        &&& forall|i: int| 0 <= i < blocks.len() ==> !self.committed@.contains(#[trigger] blocks[i].id)
        &&& forall|i: int| 0 <= i < blocks.len() ==> (#[trigger] blocks[i]).round > blocks[i].qc.vote_info.round
        &&& forall|i: int, j: int|
            0 <= i < j < sets.len() ==> sets[i].claim != sets[j].claim
        &&& forall|i: int|
            0 <= i < sets.len() ==> self.votes@.contains_key(#[trigger] sets[i].claim)
                && self.votes@[sets[i].claim] == (sets[i].signatures@, sets[i].formed)
        &&& forall|c: Claim|
            #[trigger] self.votes@.contains_key(c) ==> exists|i: int|
                0 <= i < sets.len() && sets[i].claim == c
        &&& forall|c: Claim|
            #[trigger] self.votes@.contains_key(c) ==> if self.votes@[c].1 {
                self.votes@[c].0.len() == 0
            } else {
                self.votes@[c].0.len() < quorum_of(self.validators@.len())
            }
        &&& forall|c: Claim| #[trigger] self.votes@.contains_key(c) ==> distinct_members(self.votes@[c].0, self.validators@)
    }

    /// Same pending and committed blocks.
    pub open spec fn same_blocks(&self, other: &BlockTree) -> bool {
        &&& forall|id: BlockId| self.has_pending(id) == other.has_pending(id)
        &&& forall|id: BlockId| self.is_committed(id) == other.is_committed(id)
    }

    /// Same validator table and identity.
    pub open spec fn same_setup(&self, other: &BlockTree) -> bool {
        &&& self.members() == other.members()
        &&& self.spec_author() == other.spec_author()
    }

    /// `self` is `old` with block `x` committed and pruned.
    pub open spec fn committed_from(&self, old: &BlockTree, x: BlockId) -> bool {
        &&& !self.has_pending(x)
        &&& self.is_committed(x)
        &&& forall|id: BlockId| id != x ==> self.has_pending(id) == old.has_pending(id)
        &&& forall|id: BlockId| id != x ==> self.is_committed(id) == old.is_committed(id)
    }

    /// The block that processing `qc` finalizes: the one its commit info names,
    /// when that block is pending.
    pub open spec fn spec_commit_target(&self, qc: &QuorumCertificate) -> Option<BlockId> {
        match qc.ledger_commit_info.commit_state_id {
            Some(x) => if self.has_pending(x) { Some(x) } else { None },
            None => None,
        }
    }

    /// `self` is what applying `qc` to `old` gives, where `commit_ok` tells
    /// whether the ledger committed the block that `qc` finalizes (it is ignored
    /// when there is no such block). high_qc rises to `qc` when `qc` is of a
    /// higher round. A commit QC whose block is pending and committed prunes that
    /// block and raises high_commit_qc by round; one whose commit failed changes
    /// no block and leaves high_commit_qc as it was. A commit QC naming a block
    /// that is not pending only raises high_commit_qc.
    pub open spec fn qc_applied(&self, old: &BlockTree, qc: &QuorumCertificate, commit_ok: bool) -> bool {
        let new_commit_high = if qc.is_commit_qc() && qc.spec_round() > old.high_commit_qc_model().vote_info.round {
            qc@
        } else {
            old.high_commit_qc_model()
        };
        &&& self.wf()
        &&& self.same_setup(old)
        &&& self.tally() == old.tally()
        &&& self.high_qc_model() == if qc.spec_round() > old.high_qc_model().vote_info.round {
            qc@
        } else {
            old.high_qc_model()
        }
        &&& match old.spec_commit_target(qc) {
            None => self.same_blocks(old) && self.high_commit_qc_model() == new_commit_high,
            Some(x) => if commit_ok {
                self.committed_from(old, x) && self.high_commit_qc_model() == new_commit_high
            } else {
                self.same_blocks(old) && self.high_commit_qc_model() == old.high_commit_qc_model()
            },
        }
    }

    /// `self` and `ledger` are what processing `qc` on `old` and `old_ledger`
    /// may leave: the ledger is asked to commit only the block that `qc`
    /// finalizes, and the tree follows what the ledger answered.
    pub open spec fn qc_processed<L>(&self, old: &BlockTree, qc: &QuorumCertificate, old_ledger: L, ledger: L) -> bool {
        &&& exists|commit_ok: bool| self.qc_applied(old, qc, commit_ok)
        &&& old.spec_commit_target(qc).is_none() ==> ledger == old_ledger
    }

    /// Whether `old` counts a vote of `sender` for `c` whose signature checked
    /// out (`sig_ok`).
    pub open spec fn accepts(&self, c: Claim, sender: ReplicaId, sig_ok: bool) -> bool {
        &&& sig_ok
        &&& self.members().contains(sender)
        &&& !self.formed(c)
        &&& !signed_by(self.gathered(c), sender)
    }

    /// `self` and `r` are what adding a vote to `old` gives: an accepted vote
    /// joins its claim's signatures, and the one that reaches the quorum forms
    /// the certificate, signed by this replica with `aggregator_sig`.
    pub open spec fn vote_added(
        &self,
        old: &BlockTree,
        c: Claim,
        sender: ReplicaId,
        signature: Signature,
        sig_ok: bool,
        aggregator_sig: Signature,
        r: Option<QuorumCertificate>,
    ) -> bool {
        let grown = old.gathered(c).push((sender, signature));
        &&& self.wf()
        &&& self.same_setup(old)
        &&& self.same_blocks(old)
        &&& self.high_qc_model() == old.high_qc_model()
        &&& self.high_commit_qc_model() == old.high_commit_qc_model()
        &&& if !old.accepts(c, sender, sig_ok) {
            r.is_none() && self.tally() == old.tally()
        } else if grown.len() < old.quorum() {
            r.is_none() && self.tally() == old.tally().insert(c, (grown, false))
        } else {
            &&& self.tally() == old.tally().insert(c, (Seq::empty(), true))
            &&& distinct_members(grown, old.members())
            &&& grown.len() == old.quorum()
            &&& r.is_some()
            &&& r.unwrap()@ == (QcModel {
                vote_info: c.vote_info,
                ledger_commit_info: c.ledger_commit_info,
                signatures: grown,
                author: old.spec_author(),
                author_signature: aggregator_sig,
            })
        }
    }

    /// A tree whose only certified and committed block is the one `genesis`
    /// certifies.
    pub fn new(genesis: QuorumCertificate, validators: Vec<ReplicaId>, author: ReplicaId) -> (r: BlockTree)
        requires
            validators@.len() >= 1,
        ensures
            r.wf(),
            r.members() == validators@,
            r.spec_author() == author,
            r.high_qc_model() == genesis@,
            r.high_commit_qc_model() == genesis@,
            r.tally() == Map::<Claim, Tally>::empty(),
            forall|id: BlockId| !r.has_pending(id),
            forall|id: BlockId| r.is_committed(id) <==> id == genesis.vote_info.id,
    {
        let mut committed: Vec<BlockId> = Vec::new();
        committed.push(genesis.vote_info.id);
        let r = BlockTree {
            pending_block_tree: Vec::new(),
            committed,
            pending_votes: Vec::new(),
            votes: Ghost(Map::empty()),
            validators,
            author,
            high_qc: genesis.duplicate(),
            high_commit_qc: genesis,
        };
        assert forall|id: BlockId| r.is_committed(id) <==> id == genesis.vote_info.id by {
            if id == genesis.vote_info.id {
                assert(r.committed@[0] == id);
            }
        }
        r
    }

    fn find_pending(&self, id: BlockId) -> (r: Option<usize>)
        ensures
            match r {
                Some(i) => i < self.pending_block_tree@.len() && self.pending_block_tree@[i as int].id == id,
                None => !self.has_pending(id),
            },
    {
        let mut i: usize = 0;
        while i < self.pending_block_tree.len()
            invariant
                i <= self.pending_block_tree@.len(),
                forall|k: int| 0 <= k < i ==> self.pending_block_tree@[k].id != id,
            decreases self.pending_block_tree@.len() - i,
        {
            if self.pending_block_tree[i].id == id {
                return Some(i);
            }
            i = i + 1;
        }
        None
    }

    fn committed_contains(&self, id: BlockId) -> (r: bool)
        ensures
            r == self.is_committed(id),
    {
        let mut i: usize = 0;
        while i < self.committed.len()
            invariant
                i <= self.committed@.len(),
                forall|k: int| 0 <= k < i ==> self.committed@[k] != id,
            decreases self.committed@.len() - i,
        {
            if self.committed[i] == id {
                assert(self.committed@[i as int] == id);
                return true;
            }
            i = i + 1;
        }
        false
    }

    /// The highest known certificate, as the field `high_qc` holds it.
    pub fn current_high_qc(&self) -> (r: &QuorumCertificate)
        ensures
            r@ == self.high_qc_model(),
    {
        &self.high_qc
    }

    /// The highest commit certificate, as the field `high_commit_qc` holds it.
    pub fn current_high_commit_qc(&self) -> (r: &QuorumCertificate)
        ensures
            r@ == self.high_commit_qc_model(),
    {
        &self.high_commit_qc
    }

    /// Whether `id` is pending in this tree.
    pub fn contains_pending(&self, id: BlockId) -> (r: bool)
        ensures
            r == self.has_pending(id),
    {
        self.find_pending(id).is_some()
    }

    /// Whether `id` was committed.
    pub fn contains_committed(&self, id: BlockId) -> (r: bool)
        ensures
            r == self.is_committed(id),
    {
        self.committed_contains(id)
    }

    /// Removes the pending block at `i` and records it as committed.
    fn prune_committed(&mut self, i: usize)
        requires
            old(self).wf(),
            i < old(self).pending_block_tree@.len(),
        ensures
            final(self).wf(),
            final(self).committed_from(old(self), old(self).pending_block_tree@[i as int].id),
            final(self).same_setup(old(self)),
            final(self).tally() == old(self).tally(),
            final(self).high_qc@ == old(self).high_qc@,
            final(self).high_commit_qc@ == old(self).high_commit_qc@,
    {
        let ghost pre = *self;
        let b = self.pending_block_tree.remove(i);
        let x = b.id;
        self.committed.push(x);
        let ghost blocks = pre.pending_block_tree@;
        assert forall|id: BlockId| id != x implies self.has_pending(id) == pre.has_pending(id) by {
            if pre.has_pending(id) {
                let k = choose|k: int| 0 <= k < blocks.len() && blocks[k].id == id;
                if k < i {
                    assert(self.pending_block_tree@[k].id == id);
                } else {
                    assert(self.pending_block_tree@[k - 1].id == id);
                }
            }
            if self.has_pending(id) {
                let k = choose|k: int| 0 <= k < self.pending_block_tree@.len() && self.pending_block_tree@[k].id == id;
                if k < i {
                    assert(blocks[k].id == id);
                } else {
                    assert(blocks[k + 1].id == id);
                }
            }
        }
        assert forall|id: BlockId| id != x implies self.is_committed(id) == pre.is_committed(id) by {
            assert(self.committed@ == pre.committed@.push(x));
            if pre.committed@.contains(id) {
                let k = choose|k: int| 0 <= k < pre.committed@.len() && pre.committed@[k] == id;
                assert(self.committed@[k] == id);
            }
        }
        assert(self.committed@[self.committed@.len() - 1] == x);
        assert(!self.has_pending(x)) by {
            if self.has_pending(x) {
                let k = choose|k: int| 0 <= k < self.pending_block_tree@.len() && self.pending_block_tree@[k].id == x;
                if k < i {
                    assert(blocks[k].id == blocks[i as int].id);
                } else {
                    assert(blocks[k + 1].id == blocks[i as int].id);
                }
            }
        }
        assert forall|k: int| 0 <= k < self.pending_block_tree@.len() implies !self.committed@.contains(
            #[trigger] self.pending_block_tree@[k].id,
        ) by {
            let j = if k < i { k } else { k + 1 };
            assert(self.pending_block_tree@[k] == blocks[j]);
            assert(!pre.committed@.contains(blocks[j].id));
            assert(blocks[j].id != x);
            if self.committed@.contains(blocks[j].id) {
                let m = choose|m: int| 0 <= m < self.committed@.len() && self.committed@[m] == blocks[j].id;
                assert(pre.committed@[m] == blocks[j].id);
            }
        }
    }

    /// Applies `qc` given what the ledger answered to the commit of the block
    /// that `qc` finalizes.
    pub fn apply_qc(&mut self, qc: QuorumCertificate, commit_outcome: Result<(), LedgerFault>)
        requires
            old(self).wf(),
        ensures
            final(self).qc_applied(old(self), &qc, commit_outcome is Ok),
    {
        let ghost pre = *self;
        let mut committed_ok = true;
        if let Some(x) = qc.ledger_commit_info.commit_state_id {
            if let Some(i) = self.find_pending(x) {
                match commit_outcome {
                    Ok(()) => {
                        self.prune_committed(i);
                    },
                    Err(_) => {
                        committed_ok = false;
                    },
                }
            }
            if committed_ok && qc > self.high_commit_qc {
                self.high_commit_qc = qc.duplicate();
            }
        }
        if qc > self.high_qc {
            self.high_qc = qc;
        }
        proof {
            assert(self.tally() == pre.tally());
        }
    }

    /// Applies a certificate: asks the ledger to commit the block that its commit
    /// info names, if that block is pending, and applies the certificate with
    /// the ledger's answer.
    pub fn process_qc<L: Ledger>(&mut self, qc: QuorumCertificate, ledger: &mut L)
        requires
            old(self).wf(),
        ensures
            final(self).qc_processed(old(self), &qc, *old(ledger), *final(ledger)),
            final(self).high_qc_model().vote_info.round >= old(self).high_qc_model().vote_info.round,
            final(self).high_commit_qc_model().vote_info.round >= old(self).high_commit_qc_model().vote_info.round,
    {
        let outcome = match self.commit_target(&qc) {
            Some(x) => ledger.commit(x),
            None => Ok(()),
        };
        let ghost ok = outcome is Ok;
        self.apply_qc(qc, outcome);
        assert(self.qc_applied(old(self), &qc, ok));
    }

    /// `self` and `r` are what inserting `b` into `old` gives, where
    /// `speculate_ok` tells whether the ledger executed its payload. A block
    /// already pending or committed is a stale re-delivery: `Ok`, nothing
    /// changes. A block whose parent is neither pending nor committed is refused
    /// with `UnknownParent`, and one whose round is not above its certificate's
    /// with `RoundNotAboveQc`. Otherwise a successful execution puts the block in
    /// the pending tree, and a failed one is surfaced as `ExecutionFailure` with
    /// nothing inserted.
    pub open spec fn block_inserted(&self, old: &BlockTree, b: &Block, speculate_ok: bool, r: Result<(), InsertError>) -> bool {
        let fresh = !old.has_pending(b.id) && !old.is_committed(b.id);
        let parent_known = old.has_pending(b.spec_parent()) || old.is_committed(b.spec_parent());
        &&& self.wf()
        &&& self.same_setup(old)
        &&& self.tally() == old.tally()
        &&& self.high_qc_model() == old.high_qc_model()
        &&& self.high_commit_qc_model() == old.high_commit_qc_model()
        &&& if !fresh {
            r == Ok::<(), InsertError>(()) && self.same_blocks(old)
        } else if !parent_known {
            r == Err::<(), InsertError>(InsertError::UnknownParent) && self.same_blocks(old)
        } else if b.round <= b.qc.spec_round() {
            r == Err::<(), InsertError>(InsertError::RoundNotAboveQc) && self.same_blocks(old)
        } else if speculate_ok {
            &&& r == Ok::<(), InsertError>(())
            &&& self.has_pending(b.id)
            &&& self.pending_block(b.id) == *b
            &&& forall|id: BlockId| id != b.id ==> self.has_pending(id) == old.has_pending(id)
            &&& forall|id: BlockId| self.is_committed(id) == old.is_committed(id)
        } else {
            r == Err::<(), InsertError>(InsertError::ExecutionFailure) && self.same_blocks(old)
        }
    }

    /// Inserts `b` given what the ledger answered to its speculative execution.
    pub fn insert_speculated(&mut self, b: Block, speculated: Result<(), LedgerFault>) -> (r: Result<(), InsertError>)
        requires
            old(self).wf(),
        ensures
            final(self).block_inserted(old(self), &b, speculated is Ok, r),
    {
        if self.find_pending(b.id).is_some() || self.committed_contains(b.id) {
            return Ok(());
        }
        let parent = b.qc.vote_info.parent_id;
        if self.find_pending(parent).is_none() && !self.committed_contains(parent) {
            return Err(InsertError::UnknownParent);
        }
        if b.round <= b.qc.vote_info.round {
            return Err(InsertError::RoundNotAboveQc);
        }
        if speculated.is_err() {
            return Err(InsertError::ExecutionFailure);
        }
        let ghost pre = *self;
        let ghost x = b.id;
        let ghost bb = b;
        self.pending_block_tree.push(b);
        let ghost blocks = self.pending_block_tree@;
        let ghost n = pre.pending_block_tree@.len();
        assert(blocks[n as int].id == x);
        assert forall|id: BlockId| id != x implies self.has_pending(id) == pre.has_pending(id) by {
            if pre.has_pending(id) {
                let k = choose|k: int| 0 <= k < n && pre.pending_block_tree@[k].id == id;
                assert(blocks[k].id == id);
            }
            if self.has_pending(id) {
                let k = choose|k: int| 0 <= k < blocks.len() && blocks[k].id == id;
                assert(pre.pending_block_tree@[k].id == id);
            }
        }
        assert forall|i: int, j: int| 0 <= i < j < blocks.len() implies blocks[i].id != blocks[j].id by {
            if j == n {
                assert(pre.pending_block_tree@[i].id == blocks[i].id);
            }
        }
        assert(self.has_pending(x));
        let ghost k = choose|k: int| 0 <= k < blocks.len() && blocks[k].id == x;
        assert(k == n);
        assert(self.pending_block(x) == bb);
        Ok(())
    }

    /// Speculatively executes `b` on its parent's state and adds it to the
    /// pending tree. The ledger is asked only for a block that is new and whose
    /// parent is pending or committed, and whose round is above its certificate's;
    /// the tree then follows its answer.
    pub fn execute_and_insert<L: Ledger>(&mut self, b: Block, ledger: &mut L) -> (r: Result<(), InsertError>)
        requires
            old(self).wf(),
        ensures
            exists|speculate_ok: bool| final(self).block_inserted(old(self), &b, speculate_ok, r),
            !(!old(self).has_pending(b.id) && !old(self).is_committed(b.id) && (old(self).has_pending(b.spec_parent())
                || old(self).is_committed(b.spec_parent())) && b.round > b.qc.spec_round()) ==> *final(ledger) == *old(ledger),
    {
        let fresh = self.find_pending(b.id).is_none() && !self.committed_contains(b.id);
        let parent = b.qc.vote_info.parent_id;
        let known = self.find_pending(parent).is_some() || self.committed_contains(parent);
        let outcome = if fresh && known && b.round > b.qc.vote_info.round {
            ledger.speculate(parent, b.id, &b.payload)
        } else {
            Ok(())
        };
        let ghost ok = outcome is Ok;
        let ghost bb = b;
        let r = self.insert_speculated(b, outcome);
        assert(self.block_inserted(old(self), &bb, ok, r));
        r
    }

    /// A proposal at `current_round` carrying `txns`, authored by this replica and
    /// extending the highest known certificate.
    pub fn generate_block(&self, txns: Vec<Transaction>, current_round: BlockRound) -> (r: Block)
        ensures
            r.author == self.spec_author(),
            r.round == current_round,
            r.payload@ == txns@,
            r.qc@ == self.high_qc_model(),
            r.id == spec_block_id(
                self.spec_author(),
                current_round,
                txns@,
                self.high_qc_model().vote_info.id,
                self.high_qc_model().signatures,
            ),
    {
        let id = block_id(self.author, current_round, &txns, self.high_qc.vote_info.id, &self.high_qc.signatures);
        Block { author: self.author, round: current_round, payload: txns, qc: self.high_qc.duplicate(), id }
    }

    fn find_claim(&self, c: &Claim) -> (r: Option<usize>)
        requires
            self.wf(),
        ensures
            match r {
                Some(i) => i < self.pending_votes@.len() && self.pending_votes@[i as int].claim == *c,
                None => !self.tally().contains_key(*c),
            },
    {
        let mut i: usize = 0;
        while i < self.pending_votes.len()
            invariant
                self.wf(),
                i <= self.pending_votes@.len(),
                forall|k: int| 0 <= k < i ==> self.pending_votes@[k].claim != *c,
            decreases self.pending_votes@.len() - i,
        {
            if self.pending_votes[i].claim == *c {
                return Some(i);
            }
            i = i + 1;
        }
        None
    }

    fn is_member(&self, sender: ReplicaId) -> (r: bool)
        ensures
            r == self.members().contains(sender),
    {
        let mut i: usize = 0;
        while i < self.validators.len()
            invariant
                i <= self.validators@.len(),
                forall|k: int| 0 <= k < i ==> self.validators@[k] != sender,
            decreases self.validators@.len() - i,
        {
            if self.validators[i] == sender {
                assert(self.validators@[i as int] == sender);
                return true;
            }
            i = i + 1;
        }
        false
    }

    /// The quorum size `2F + 1` of this tree's validator table.
    pub fn quorum_size(&self) -> (r: usize)
        requires
            self.wf(),
        ensures
            r == self.quorum(),
    {
        let n = self.validators.len();
        2 * ((n - 1) / 3) + 1
    }

    /// Stores `set` as the accumulator entry of its claim; `found` is where that
    /// claim's entry stands, if it has one.
    fn store_set(&mut self, found: Option<usize>, set: VoteSet)
        requires
            old(self).wf(),
            match found {
                Some(i) => i < old(self).pending_votes@.len() && old(self).pending_votes@[i as int].claim == set.claim,
                None => !old(self).tally().contains_key(set.claim),
            },
            if set.formed {
                set.signatures@.len() == 0
            } else {
                set.signatures@.len() < old(self).quorum()
            },
            distinct_members(set.signatures@, old(self).members()),
        ensures
            final(self).wf(),
            final(self).tally() == old(self).tally().insert(set.claim, (set.signatures@, set.formed)),
            final(self).same_setup(old(self)),
            final(self).pending_block_tree@ == old(self).pending_block_tree@,
            final(self).committed@ == old(self).committed@,
            final(self).high_qc@ == old(self).high_qc@,
            final(self).high_commit_qc@ == old(self).high_commit_qc@,
    {
        let ghost pre = *self;
        let ghost c = set.claim;
        let ghost entry: Tally = (set.signatures@, set.formed);
        match found {
            Some(i) => {
                self.pending_votes.set(i, set);
                proof {
                    self.votes = Ghost(pre.votes@.insert(c, entry));
                    let sets = self.pending_votes@;
                    assert forall|k: int| 0 <= k < sets.len() implies self.votes@.contains_key(#[trigger] sets[k].claim)
                        && self.votes@[sets[k].claim] == (sets[k].signatures@, sets[k].formed) by {
                        if k != i {
                            assert(pre.pending_votes@[k] == sets[k]);
                            if k < i {
                                assert(pre.pending_votes@[k].claim != pre.pending_votes@[i as int].claim);
                            } else {
                                assert(pre.pending_votes@[i as int].claim != pre.pending_votes@[k].claim);
                            }
                        }
                    }
                    assert forall|a: Claim| #[trigger] self.votes@.contains_key(a) implies exists|k: int|
                        0 <= k < sets.len() && sets[k].claim == a by {
                        if a == c {
                            assert(sets[i as int].claim == a);
                        } else {
                            let k = choose|k: int| 0 <= k < pre.pending_votes@.len() && pre.pending_votes@[k].claim == a;
                            assert(sets[k].claim == a);
                        }
                    }
                    assert forall|k: int, j: int| 0 <= k < j < sets.len() implies sets[k].claim != sets[j].claim by {
                        if k != i && j != i {
                            assert(pre.pending_votes@[k] == sets[k]);
                            assert(pre.pending_votes@[j] == sets[j]);
                        } else if k == i {
                            assert(pre.pending_votes@[j] == sets[j]);
                        } else {
                            assert(pre.pending_votes@[k] == sets[k]);
                        }
                    }
                }
            },
            None => {
                self.pending_votes.push(set);
                proof {
                    self.votes = Ghost(pre.votes@.insert(c, entry));
                    let sets = self.pending_votes@;
                    let n = pre.pending_votes@.len();
                    assert(sets[n as int].claim == c);
                    assert forall|k: int| 0 <= k < sets.len() implies self.votes@.contains_key(#[trigger] sets[k].claim)
                        && self.votes@[sets[k].claim] == (sets[k].signatures@, sets[k].formed) by {
                        if k < n {
                            assert(pre.pending_votes@[k] == sets[k]);
                            assert(pre.votes@.contains_key(pre.pending_votes@[k].claim));
                        }
                    }
                    assert forall|a: Claim| #[trigger] self.votes@.contains_key(a) implies exists|k: int|
                        0 <= k < sets.len() && sets[k].claim == a by {
                        if a != c {
                            let k = choose|k: int| 0 <= k < pre.pending_votes@.len() && pre.pending_votes@[k].claim == a;
                            assert(sets[k].claim == a);
                        }
                    }
                    assert forall|k: int, j: int| 0 <= k < j < sets.len() implies sets[k].claim != sets[j].claim by {
                        assert(pre.pending_votes@[k] == sets[k]);
                        if j < n {
                            assert(pre.pending_votes@[j] == sets[j]);
                        } else {
                            assert(pre.votes@.contains_key(pre.pending_votes@[k].claim));
                        }
                    }
                }
            },
        }
        assert(self.same_blocks(&pre));
    }

    /// Counts a vote of `sender` with `signature` for `claim`, given whether the
    /// signature checked out (`sig_ok`). A vote with a bad signature or from a
    /// non-member, one for a claim whose certificate already formed, and one from
    /// a sender already counted for that claim change nothing. The vote that brings
    /// the claim to `2F + 1` distinct signers forms its certificate, signed by this
    /// replica with `aggregator_sig`, and clears the claim's signatures.
    pub fn aggregate_vote(
        &mut self,
        claim: Claim,
        sender: ReplicaId,
        signature: Signature,
        sig_ok: bool,
        aggregator_sig: Signature,
    ) -> (r: Option<QuorumCertificate>)
        requires
            old(self).wf(),
        ensures
            final(self).vote_added(old(self), claim, sender, signature, sig_ok, aggregator_sig, r),
    {
        let ghost pre = *self;
        if !sig_ok || !self.is_member(sender) {
            assert(self.same_blocks(&pre));
            return None;
        }
        let found = self.find_claim(&claim);
        let mut sigs: Vec<(ReplicaId, Signature)> = Vec::new();
        if let Some(i) = found {
            if self.pending_votes[i].formed {
                assert(self.same_blocks(&pre));
                return None;
            }
            let mut k: usize = 0;
            let n = self.pending_votes[i].signatures.len();
            while k < n
                invariant
                    *self == pre,
                    pre.wf(),
                    0 <= i < self.pending_votes@.len(),
                    self.pending_votes@[i as int].claim == claim,
                    n == self.pending_votes@[i as int].signatures@.len(),
                    k <= n,
                    forall|m: int| 0 <= m < k ==> self.pending_votes@[i as int].signatures@[m].0 != sender,
                decreases n - k,
            {
                if self.pending_votes[i].signatures[k].0 == sender {
                    assert(pre.votes@.contains_key(claim));
                    assert(pre.gathered(claim)[k as int].0 == sender);
                    assert(signed_by(pre.gathered(claim), sender));
                    assert(self.same_blocks(&pre));
                    return None;
                }
                k = k + 1;
            }
            sigs = copy_signatures(&self.pending_votes[i].signatures);
        }
        assert(sigs@ == pre.gathered(claim));
        assert(!signed_by(pre.gathered(claim), sender));
        proof {
            if pre.tally().contains_key(claim) {
                assert(pre.votes@.contains_key(claim));
            } else {
                assert(distinct_members(pre.gathered(claim), pre.members())) by {
                    assert(signers(pre.gathered(claim)) =~= Seq::<ReplicaId>::empty());
                }
            }
            lemma_push_new_signer(pre.gathered(claim), pre.members(), (sender, signature));
        }
        sigs.push((sender, signature));
        let q = self.quorum_size();
        if sigs.len() >= q {
            proof {
                assert(distinct_members(Seq::<(ReplicaId, Signature)>::empty(), pre.members())) by {
                    assert(signers(Seq::<(ReplicaId, Signature)>::empty()) =~= Seq::<ReplicaId>::empty());
                }
            }
            self.store_set(found, VoteSet { claim, signatures: Vec::new(), formed: true });
            assert(self.same_blocks(&pre));
            Some(QuorumCertificate {
                vote_info: claim.vote_info,
                ledger_commit_info: claim.ledger_commit_info,
                signatures: sigs,
                author: self.author,
                author_signature: aggregator_sig,
            })
        } else {
            self.store_set(found, VoteSet { claim, signatures: sigs, formed: false });
            assert(self.same_blocks(&pre));
            None
        }
    }

    /// Handles an incoming vote: first applies its piggybacked commit certificate,
    /// then checks its signature with `keys` and counts it. Returns the certificate
    /// that this vote completes, if any.
    pub fn process_vote<L: Ledger, K: Keys>(&mut self, v: VoteMsg, ledger: &mut L, keys: &K) -> (r: Option<
        QuorumCertificate,
    >)
        requires
            old(self).wf(),
        ensures
            final(self).wf(),
            exists|mid: BlockTree, mid_ledger: L, sig_ok: bool, aggregator_sig: Signature|
                {
                    &&& mid.qc_processed(old(self), &v.high_commit_qc, *old(ledger), mid_ledger)
                    &&& final(self).vote_added(&mid, v.spec_claim(), v.sender, v.signature, sig_ok, aggregator_sig, r)
                    &&& *final(ledger) == mid_ledger
                },
    {
        let claim = Claim { vote_info: v.vote_info, ledger_commit_info: v.ledger_commit_info };
        let sender = v.sender;
        let signature = v.signature;
        let ghost hcq = v.high_commit_qc;
        self.process_qc(v.high_commit_qc, ledger);
        let ghost mid = *self;
        let ghost mid_ledger = *ledger;
        let sig_ok = keys.verify(sender, &claim, signature);
        let aggregator_sig = keys.sign(&claim);
        let r = self.aggregate_vote(claim, sender, signature, sig_ok, aggregator_sig);
        assert(mid.qc_processed(old(self), &hcq, *old(ledger), mid_ledger));
        r
    }

    /// How many signatures are gathered for `c` and not yet formed into a
    /// certificate.
    pub fn votes_for(&self, c: &Claim) -> (r: usize)
        requires
            self.wf(),
        ensures
            r == self.gathered(*c).len(),
    {
        match self.find_claim(c) {
            Some(i) => self.pending_votes[i].signatures.len(),
            None => 0,
        }
    }

    /// The block that processing `qc` would finalize.
    pub fn commit_target(&self, qc: &QuorumCertificate) -> (r: Option<BlockId>)
        ensures
            r == self.spec_commit_target(qc),
    {
        match qc.ledger_commit_info.commit_state_id {
            Some(x) => if self.find_pending(x).is_some() { Some(x) } else { None },
            None => None,
        }
    }
}

/// The certificate of a claim forms exactly on the accepted vote that brings its
/// distinct signers to `2F + 1`; with four replicas that is the third one.
pub proof fn lemma_quorum_exact(
    pre: BlockTree,
    post: BlockTree,
    c: Claim,
    sender: ReplicaId,
    signature: Signature,
    aggregator_sig: Signature,
    r: Option<QuorumCertificate>,
)
    requires
        pre.wf(),
        pre.accepts(c, sender, true),
        post.vote_added(&pre, c, sender, signature, true, aggregator_sig, r),
    ensures
        r.is_some() <==> pre.gathered(c).len() + 1 == pre.quorum(),
        r.is_none() ==> post.gathered(c).len() == pre.gathered(c).len() + 1,
        r.is_some() ==> post.formed(c),
        quorum_of(4) == 3,
{
    if pre.tally().contains_key(c) {
        assert(pre.votes@.contains_key(c));
    }
}

/// Once a claim's certificate has formed, further votes for it form no other
/// certificate and leave the accumulator as it is.
pub proof fn lemma_formed_claim_is_stale(
    pre: BlockTree,
    post: BlockTree,
    c: Claim,
    sender: ReplicaId,
    signature: Signature,
    sig_ok: bool,
    aggregator_sig: Signature,
    r: Option<QuorumCertificate>,
)
    requires
        pre.formed(c),
        post.vote_added(&pre, c, sender, signature, sig_ok, aggregator_sig, r),
    ensures
        r.is_none(),
        post.tally() == pre.tally(),
{
}

/// A certificate only ever carries signatures gathered for its own claim, and a
/// vote leaves the signatures of every other claim untouched; so votes that
/// agree on vote_info but not on ledger_commit_info never end up in one
/// certificate.
pub proof fn lemma_no_claim_mixing(
    pre: BlockTree,
    post: BlockTree,
    c: Claim,
    sender: ReplicaId,
    signature: Signature,
    sig_ok: bool,
    aggregator_sig: Signature,
    r: Option<QuorumCertificate>,
    d: Claim,
)
    requires
        post.vote_added(&pre, c, sender, signature, sig_ok, aggregator_sig, r),
        d != c,
    ensures
        r.is_some() ==> r.unwrap().spec_claim() == c,
        r.is_some() ==> r.unwrap()@.signatures == pre.gathered(c).push((sender, signature)),
        post.gathered(d) == pre.gathered(d),
        post.formed(d) == pre.formed(d),
{
}

/// Submitting a vote again after it was counted changes nothing and forms no
/// second certificate.
pub proof fn lemma_vote_resubmission(
    pre: BlockTree,
    mid: BlockTree,
    post: BlockTree,
    c: Claim,
    sender: ReplicaId,
    signature: Signature,
    aggregator_sig: Signature,
    again_ok: bool,
    again_sig: Signature,
    r1: Option<QuorumCertificate>,
    r2: Option<QuorumCertificate>,
)
    requires
        pre.wf(),
        pre.accepts(c, sender, true),
        mid.vote_added(&pre, c, sender, signature, true, aggregator_sig, r1),
        post.vote_added(&mid, c, sender, signature, again_ok, again_sig, r2),
    ensures
        r2.is_none(),
        post.tally() == mid.tally(),
{
    let grown = pre.gathered(c).push((sender, signature));
    if grown.len() < pre.quorum() {
        assert(mid.gathered(c) == grown);
        assert(mid.gathered(c)[grown.len() - 1].0 == sender);
        assert(signed_by(mid.gathered(c), sender));
    } else {
        assert(mid.formed(c));
    }
}

/// A commit certificate for a pending block, once the ledger has committed that
/// block, leaves it committed and pruned and nothing else changed.
pub proof fn lemma_commit_finalizes(pre: BlockTree, post: BlockTree, qc: QuorumCertificate, x: BlockId)
    requires
        pre.has_pending(x),
        qc.ledger_commit_info.commit_state_id == Some(x),
        post.qc_applied(&pre, &qc, true),
    ensures
        post.committed_from(&pre, x),
        !post.has_pending(x),
        post.is_committed(x),
        qc.spec_round() > pre.high_commit_qc_model().vote_info.round ==> post.high_commit_qc_model() == qc@,
{
}

/// Once a certificate has been applied with its commit done, delivering it
/// again makes no ledger call and changes nothing.
pub proof fn lemma_qc_resubmission<L>(
    pre: BlockTree,
    mid: BlockTree,
    post: BlockTree,
    qc: QuorumCertificate,
    l1: L,
    l2: L,
)
    requires
        mid.qc_applied(&pre, &qc, true),
        post.qc_processed(&mid, &qc, l1, l2),
    ensures
        mid.spec_commit_target(&qc).is_none(),
        l2 == l1,
        post.same_blocks(&mid),
        post.high_qc_model() == mid.high_qc_model(),
        post.high_commit_qc_model() == mid.high_commit_qc_model(),
{
    if let Some(x) = qc.ledger_commit_info.commit_state_id {
        match pre.spec_commit_target(&qc) {
            None => {
                assert(!pre.has_pending(x));
                assert(!mid.has_pending(x));
            },
            Some(y) => {
                assert(!mid.has_pending(x));
            },
        }
    }
    let ok = choose|ok: bool| post.qc_applied(&mid, &qc, ok);
}

/// The watermarks never go back: after two commit certificates whose commits
/// went through, in either order, high_qc and high_commit_qc stand at the
/// highest of their old round and the two certificates' rounds.
pub proof fn lemma_watermarks_monotone(
    pre: BlockTree,
    mid: BlockTree,
    post: BlockTree,
    q1: QuorumCertificate,
    q2: QuorumCertificate,
)
    requires
        q1.is_commit_qc(),
        q2.is_commit_qc(),
        mid.qc_applied(&pre, &q1, true),
        post.qc_applied(&mid, &q2, true),
    ensures
        post.high_qc_model().vote_info.round == vstd::math::max(
            vstd::math::max(pre.high_qc_model().vote_info.round as int, q1.spec_round() as int),
            q2.spec_round() as int,
        ),
        post.high_commit_qc_model().vote_info.round == vstd::math::max(
            vstd::math::max(pre.high_commit_qc_model().vote_info.round as int, q1.spec_round() as int),
            q2.spec_round() as int,
        ),
{
}

/// Whatever the ledger answers, processing a certificate never lowers either
/// watermark.
pub proof fn lemma_watermarks_never_fall<L>(pre: BlockTree, post: BlockTree, qc: QuorumCertificate, l0: L, l1: L)
    requires
        post.qc_processed(&pre, &qc, l0, l1),
    ensures
        post.high_qc_model().vote_info.round >= pre.high_qc_model().vote_info.round,
        post.high_commit_qc_model().vote_info.round >= pre.high_commit_qc_model().vote_info.round,
{
    let ok = choose|ok: bool| post.qc_applied(&pre, &qc, ok);
}

/// A committed block is never pending again, and a certificate that names it
/// finalizes nothing: its commit is not repeated.
pub proof fn lemma_committed_block_is_pruned(t: BlockTree, x: BlockId, qc: QuorumCertificate)
    requires
        t.wf(),
        t.is_committed(x),
        qc.ledger_commit_info.commit_state_id == Some(x),
    ensures
        !t.has_pending(x),
        t.spec_commit_target(&qc).is_none(),
{
    if t.has_pending(x) {
        let k = choose|k: int| 0 <= k < t.pending_block_tree@.len() && t.pending_block_tree@[k].id == x;
        assert(!t.committed@.contains(t.pending_block_tree@[k].id));
    }
}

/// Processing a certificate keeps every committed block committed and out of
/// the pending tree: a commit is final.
pub proof fn lemma_commit_is_permanent<L>(
    pre: BlockTree,
    post: BlockTree,
    qc: QuorumCertificate,
    l0: L,
    l1: L,
    y: BlockId,
)
    requires
        pre.wf(),
        pre.is_committed(y),
        post.qc_processed(&pre, &qc, l0, l1),
    ensures
        post.is_committed(y),
        !post.has_pending(y),
{
    assert(post.is_committed(y));
    if post.has_pending(y) {
        let k = choose|k: int| 0 <= k < post.pending_block_tree@.len() && post.pending_block_tree@[k].id == y;
        assert(!post.committed@.contains(post.pending_block_tree@[k].id));
    }
}

} // verus!

use consensus::block_tree::{AggregateError, BlockTree, InsertError, Keys, Ledger, LedgerFault};
use consensus::types::{
    block_id, Block, BlockId, Claim, LedgerCommitInfo, QuorumCertificate, ReplicaId, Signature,
    Transaction, VoteInfo, VoteMsg,
};

const GENESIS: BlockId = 100;

struct RecordingLedger {
    speculated: Vec<(BlockId, BlockId)>,
    committed: Vec<BlockId>,
    fail_speculate: bool,
    fail_commit: bool,
}

impl RecordingLedger {
    fn new() -> Self {
        RecordingLedger { speculated: Vec::new(), committed: Vec::new(), fail_speculate: false, fail_commit: false }
    }
}

impl Ledger for RecordingLedger {
    fn speculate(&mut self, parent_id: BlockId, block_id: BlockId, _payload: &Vec<Transaction>) -> Result<(), LedgerFault> {
        if self.fail_speculate {
            return Err(LedgerFault { code: 1 });
        }
        self.speculated.push((parent_id, block_id));
        Ok(())
    }

    fn commit(&mut self, block_id: BlockId) -> Result<(), LedgerFault> {
        if self.fail_commit {
            return Err(LedgerFault { code: 2 });
        }
        self.committed.push(block_id);
        Ok(())
    }
}

/// Accepts a signature when it equals the sender id plus 1000.
struct TestKeys;

impl Keys for TestKeys {
    fn verify(&self, sender: ReplicaId, _claim: &Claim, signature: Signature) -> bool {
        signature == sender + 1000
    }

    fn sign(&self, _claim: &Claim) -> Signature {
        4242
    }
}

fn vote_info(id: BlockId, round: u64, parent_id: BlockId, parent_round: u64) -> VoteInfo {
    VoteInfo { id, round, parent_id, parent_round, exec_state_id: None }
}

fn lci(commit: Option<BlockId>) -> LedgerCommitInfo {
    LedgerCommitInfo { commit_state_id: commit, vote_info_hash: 0 }
}

fn qc(vi: VoteInfo, commit: Option<BlockId>) -> QuorumCertificate {
    QuorumCertificate { vote_info: vi, ledger_commit_info: lci(commit), signatures: Vec::new(), author: 0, author_signature: 0 }
}

fn genesis_qc() -> QuorumCertificate {
    qc(vote_info(GENESIS, 0, GENESIS, 0), None)
}

fn tree() -> BlockTree {
    BlockTree::new(genesis_qc(), vec![1, 2, 3, 4], 1)
}

fn vote(vi: VoteInfo, commit: Option<BlockId>, sender: ReplicaId) -> VoteMsg {
    VoteMsg::new(vi, lci(commit), genesis_qc(), sender, sender + 1000)
}

fn block(id: BlockId, round: u64, parent: &QuorumCertificate) -> Block {
    Block { author: 1, round, payload: vec![7], qc: parent.clone(), id }
}

#[test]
fn new_tree_has_genesis_committed() {
    let t = tree();
    assert!(t.contains_committed(GENESIS));
    assert!(!t.contains_pending(GENESIS));
    assert_eq!(t.high_qc.vote_info.id, GENESIS);
    assert_eq!(t.quorum_size(), 3);
}

#[test]
fn quorum_forms_on_third_distinct_vote() {
    let mut t = tree();
    let mut l = RecordingLedger::new();
    let vi = vote_info(1, 1, GENESIS, 0);
    assert!(t.process_vote(vote(vi, None, 1), &mut l, &TestKeys).is_none());
    assert!(t.process_vote(vote(vi, None, 2), &mut l, &TestKeys).is_none());
    let q = t.process_vote(vote(vi, None, 3), &mut l, &TestKeys).expect("third vote forms the QC");
    assert_eq!(q.vote_info, vi);
    assert_eq!(q.signatures, vec![(1, 1001), (2, 1002), (3, 1003)]);
    assert_eq!(q.author, 1);
    assert_eq!(q.author_signature, 4242);
    assert!(t.process_vote(vote(vi, None, 4), &mut l, &TestKeys).is_none());
    let c = Claim { vote_info: vi, ledger_commit_info: lci(None) };
    assert_eq!(t.votes_for(&c), 0);
}

#[test]
fn claims_with_different_commit_info_do_not_mix() {
    let mut t = tree();
    let mut l = RecordingLedger::new();
    let vi = vote_info(1, 1, GENESIS, 0);
    assert!(t.process_vote(vote(vi, None, 1), &mut l, &TestKeys).is_none());
    assert!(t.process_vote(vote(vi, None, 2), &mut l, &TestKeys).is_none());
    assert!(t.process_vote(vote(vi, Some(GENESIS), 3), &mut l, &TestKeys).is_none());
    assert!(t.process_vote(vote(vi, Some(GENESIS), 4), &mut l, &TestKeys).is_none());
    assert_eq!(t.votes_for(&Claim { vote_info: vi, ledger_commit_info: lci(None) }), 2);
    assert_eq!(t.votes_for(&Claim { vote_info: vi, ledger_commit_info: lci(Some(GENESIS)) }), 2);
}

#[test]
fn duplicate_vote_is_counted_once() {
    let mut t = tree();
    let mut l = RecordingLedger::new();
    let vi = vote_info(1, 1, GENESIS, 0);
    let c = Claim { vote_info: vi, ledger_commit_info: lci(None) };
    assert!(t.process_vote(vote(vi, None, 1), &mut l, &TestKeys).is_none());
    assert!(t.process_vote(vote(vi, None, 2), &mut l, &TestKeys).is_none());
    assert!(t.process_vote(vote(vi, None, 2), &mut l, &TestKeys).is_none());
    assert_eq!(t.votes_for(&c), 2);
    assert!(t.process_vote(vote(vi, None, 3), &mut l, &TestKeys).is_some());
}

#[test]
fn bad_signature_and_non_member_are_rejected() {
    let mut t = tree();
    let mut l = RecordingLedger::new();
    let vi = vote_info(1, 1, GENESIS, 0);
    let c = Claim { vote_info: vi, ledger_commit_info: lci(None) };
    let forged = VoteMsg::new(vi, lci(None), genesis_qc(), 2, 5);
    assert!(t.process_vote(forged, &mut l, &TestKeys).is_none());
    assert!(t.process_vote(vote(vi, None, 9), &mut l, &TestKeys).is_none());
    assert_eq!(t.votes_for(&c), 0);
}

#[test]
fn aggregate_vote_exact_step() {
    let mut t = tree();
    let vi = vote_info(5, 5, 4, 4);
    let c = Claim { vote_info: vi, ledger_commit_info: lci(Some(3)) };
    assert!(t.aggregate_vote(c, 1, 11, true, 0).is_none());
    assert!(t.aggregate_vote(c, 2, 12, false, 0).is_none());
    assert!(t.aggregate_vote(c, 2, 12, true, 0).is_none());
    let q = t.aggregate_vote(c, 4, 14, true, 99).unwrap();
    assert_eq!(q.ledger_commit_info, lci(Some(3)));
    assert_eq!(q.signatures, vec![(1, 11), (2, 12), (4, 14)]);
    assert_eq!(q.author_signature, 99);
    assert!(t.aggregate_vote(c, 3, 13, true, 0).is_none());
}

#[test]
fn watermarks_never_go_back() {
    let mut t = tree();
    let mut l = RecordingLedger::new();
    t.process_qc(qc(vote_info(50, 5, 40, 4), Some(GENESIS)), &mut l);
    t.process_qc(qc(vote_info(30, 3, 20, 2), Some(GENESIS)), &mut l);
    assert_eq!(t.high_qc.vote_info.round, 5);
    assert_eq!(t.high_commit_qc.vote_info.round, 5);
    assert!(l.committed.is_empty());
}

#[test]
fn insert_rejects_unknown_parent() {
    let mut t = tree();
    let mut l = RecordingLedger::new();
    let orphan_parent = qc(vote_info(77, 1, 78, 0), None);
    assert_eq!(t.execute_and_insert(block(2, 2, &orphan_parent), &mut l), Err(InsertError::UnknownParent));
    assert!(!t.contains_pending(2));
    assert!(l.speculated.is_empty());
}

#[test]
fn insert_surfaces_execution_failure() {
    let mut t = tree();
    let mut l = RecordingLedger::new();
    l.fail_speculate = true;
    assert_eq!(t.execute_and_insert(block(1, 1, &genesis_qc()), &mut l), Err(InsertError::ExecutionFailure));
    assert!(!t.contains_pending(1));
}

#[test]
fn commit_prunes_once() {
    let mut t = tree();
    let mut l = RecordingLedger::new();
    assert_eq!(t.execute_and_insert(block(1, 1, &genesis_qc()), &mut l), Ok(()));
    assert_eq!(l.speculated, vec![(GENESIS, 1)]);
    assert!(t.contains_pending(1));
    let commit = qc(vote_info(3, 3, 2, 2), Some(1));
    t.process_qc(commit.clone(), &mut l);
    assert_eq!(l.committed, vec![1]);
    assert!(!t.contains_pending(1));
    assert!(t.contains_committed(1));
    t.process_qc(commit, &mut l);
    assert_eq!(l.committed, vec![1]);
    assert_eq!(t.execute_and_insert(block(1, 1, &genesis_qc()), &mut l), Ok(()));
    assert!(!t.contains_pending(1));
    assert_eq!(l.speculated, vec![(GENESIS, 1)]);
}

#[test]
fn failed_commit_keeps_block_pending() {
    let mut t = tree();
    let mut l = RecordingLedger::new();
    assert_eq!(t.execute_and_insert(block(1, 1, &genesis_qc()), &mut l), Ok(()));
    l.fail_commit = true;
    t.process_qc(qc(vote_info(3, 3, 2, 2), Some(1)), &mut l);
    assert!(t.contains_pending(1));
    assert_eq!(t.high_commit_qc.vote_info.id, GENESIS);
    assert_eq!(t.high_qc.vote_info.round, 3);
}

#[test]
fn block_id_digest_value() {
    assert_eq!(block_id(1, 2, &vec![5], 9, &vec![(1, 2)]), 12579801386148256425);
    assert_eq!(block_id(3, 7, &vec![], 4, &vec![]), 15081885672510913729);
}

#[test]
fn generate_block_extends_high_qc() {
    let t = BlockTree::new(genesis_qc(), vec![1, 2, 3, 4], 3);
    let b = t.generate_block(vec![], 7);
    assert_eq!(b.author, 3);
    assert_eq!(b.round, 7);
    assert_eq!(b.qc.vote_info.id, GENESIS);
    assert_eq!(b.id, block_id(3, 7, &vec![], GENESIS, &vec![]));
    assert_ne!(b.id, block_id(3, 8, &vec![], GENESIS, &vec![]));
}

#[test]
fn three_chain_end_to_end() {
    let mut t = tree();
    let mut l = RecordingLedger::new();
    let keys = TestKeys;
    let vote_all = |t: &mut BlockTree, l: &mut RecordingLedger, vi: VoteInfo, commit: Option<BlockId>| {
        let mut out = None;
        for s in 1..=3 {
            let r = t.process_vote(vote(vi, commit, s), l, &keys);
            if s < 3 {
                assert!(r.is_none());
            } else {
                out = r;
            }
        }
        out.expect("quorum reached")
    };

    let b1 = t.generate_block(vec![1], 1);
    assert_eq!(t.execute_and_insert(b1.clone(), &mut l), Ok(()));
    let qc1 = vote_all(&mut t, &mut l, vote_info(b1.id, 1, GENESIS, 0), None);
    assert!(qc1.ledger_commit_info.commit_state_id.is_none());
    t.process_qc(qc1.clone(), &mut l);
    assert_eq!(t.high_qc.vote_info.id, b1.id);

    let b2 = t.generate_block(vec![2], 2);
    assert_eq!(b2.qc.vote_info.id, b1.id);
    assert_eq!(t.execute_and_insert(b2.clone(), &mut l), Ok(()));
    let qc2 = vote_all(&mut t, &mut l, vote_info(b2.id, 2, b1.id, 1), None);
    assert!(qc2.ledger_commit_info.commit_state_id.is_none());
    t.process_qc(qc2.clone(), &mut l);

    let b3 = t.generate_block(vec![3], 3);
    assert_eq!(t.execute_and_insert(b3.clone(), &mut l), Ok(()));
    let qc3 = vote_all(&mut t, &mut l, vote_info(b3.id, 3, b2.id, 2), Some(b1.id));
    assert_eq!(qc3.ledger_commit_info.commit_state_id, Some(b1.id));
    assert!(l.committed.is_empty());
    t.process_qc(qc3.clone(), &mut l);
    assert_eq!(l.committed, vec![b1.id]);
    assert!(!t.contains_pending(b1.id));
    assert!(t.contains_pending(b2.id));
    assert!(t.high_commit_qc == qc3);
    assert!(t.high_qc == qc3);
    assert_eq!(t.high_qc.vote_info.round, 3);
}

#[test]
fn aggregate_counts_distinct_registered_signers() {
    let vi = vote_info(1, 1, GENESIS, 0);
    let c = Claim { vote_info: vi, ledger_commit_info: lci(None) };
    let members = vec![1, 2, 3, 4];
    let votes = vec![vote(vi, None, 1), vote(vi, None, 1), vote(vi, None, 9), vote(vi, None, 2)];
    assert_eq!(
        QuorumCertificate::aggregate(c, &votes, &members, 4, 44).map(|q| q.signatures),
        Err(AggregateError::InsufficientSignatures)
    );
    let mut more = votes.clone();
    more.push(vote(vi, None, 4));
    let q = QuorumCertificate::aggregate(c, &more, &members, 4, 44).unwrap();
    assert_eq!(q.signatures, vec![(1, 1001), (2, 1002), (4, 1004)]);
    assert_eq!(q.vote_info, vi);
    assert_eq!(q.author, 4);
    assert_eq!(q.author_signature, 44);
}

#[test]
fn aggregate_rejects_mixed_claims() {
    let vi = vote_info(1, 1, GENESIS, 0);
    let c = Claim { vote_info: vi, ledger_commit_info: lci(None) };
    let votes = vec![vote(vi, None, 1), vote(vi, None, 2), vote(vi, Some(GENESIS), 3), vote(vi, None, 4)];
    assert_eq!(
        QuorumCertificate::aggregate(c, &votes, &vec![1, 2, 3, 4], 1, 0).map(|q| q.signatures),
        Err(AggregateError::MixedClaim)
    );
}

#[test]
fn certificates_order_by_round_and_compare_by_claim() {
    let a = qc(vote_info(1, 5, 0, 4), None);
    let b = qc(vote_info(2, 3, 0, 2), Some(7));
    assert!(a > b);
    assert!(b < a);
    assert!(a != b);
    let c = qc(vote_info(1, 5, 0, 4), Some(7));
    assert!(a != c);
    assert!(a == qc(vote_info(1, 5, 0, 4), None));
}

#[test]
fn insert_checks_parent_named_by_qc() {
    let mut t = tree();
    let mut l = RecordingLedger::new();
    let certifies_genesis = qc(vote_info(GENESIS, 0, 7, 0), None);
    assert_eq!(t.execute_and_insert(block(5, 1, &certifies_genesis), &mut l), Err(InsertError::UnknownParent));
    assert!(!t.contains_pending(5));
}

#[test]
fn insert_speculated_follows_ledger_answer() {
    let mut t = tree();
    assert_eq!(t.insert_speculated(block(1, 1, &genesis_qc()), Err(LedgerFault { code: 3 })), Err(InsertError::ExecutionFailure));
    assert!(!t.contains_pending(1));
    assert_eq!(t.insert_speculated(block(1, 1, &genesis_qc()), Ok(())), Ok(()));
    assert!(t.contains_pending(1));
}

#[test]
fn apply_qc_follows_ledger_answer() {
    let mut t = tree();
    let mut l = RecordingLedger::new();
    assert_eq!(t.execute_and_insert(block(1, 1, &genesis_qc()), &mut l), Ok(()));
    let commit = qc(vote_info(3, 3, 2, 2), Some(1));
    t.apply_qc(commit.clone(), Err(LedgerFault { code: 9 }));
    assert!(t.contains_pending(1));
    assert_eq!(t.current_high_commit_qc().vote_info.id, GENESIS);
    assert_eq!(t.current_high_qc().vote_info.round, 3);
    t.apply_qc(commit, Ok(()));
    assert!(!t.contains_pending(1));
    assert!(t.contains_committed(1));
    assert_eq!(t.current_high_commit_qc().vote_info.round, 3);
}

#[test]
fn insert_rejects_round_not_above_qc() {
    let mut t = tree();
    let mut l = RecordingLedger::new();
    let parent = qc(vote_info(GENESIS, 4, GENESIS, 0), None);
    assert_eq!(t.execute_and_insert(block(6, 4, &parent), &mut l), Err(InsertError::RoundNotAboveQc));
    assert!(!t.contains_pending(6));
    assert!(l.speculated.is_empty());
}

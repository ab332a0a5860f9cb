use primusdb::cluster::sync::reconciliation::MerkleNode;
use primusdb::consensus::{
    verify_signature, LedgerState, NodeSigner, SignedMessage, ValidatorSet,
    block_by_hash, block_by_height, block_is_valid, proposal_result, resolve_fork, validator_for_round, verify_chain,
    ForkResolution, LedgerBlock,
};
use primusdb::merkle::{build_merkle_tree, build_table_merkle_tree, root_of_hashes, sha256_hex, sha256_hex_text, transactions_merkle_root};
use primusdb::strmap::StrMap;
use sha2::{Digest, Sha256};

fn hex_digest(bytes: &[u8]) -> String {
    hex::encode(Sha256::digest(bytes))
}

fn strings(v: &[&str]) -> Vec<String> {
    v.iter().map(|s| s.to_string()).collect()
}

fn block(height: u64, hash: &str, txs: &[&str], root: String) -> LedgerBlock {
    LedgerBlock {
        hash: primusdb::consensus::Hash(hash.to_string()),
        previous_hash: primusdb::consensus::Hash("genesis".to_string()),
        height,
        tx_hashes: strings(txs),
        merkle_root: primusdb::consensus::Hash(root),
        validator: "v".to_string(),
        signature: String::new(),
    }
}

#[test]
fn digest_of_nothing() {
    assert_eq!(sha256_hex(&[]), "e3b0c44298fc1c149afbf4c8996fb92427ae41e4649b934ca495991b7852b855");
    assert_eq!(sha256_hex_text("abc"), "ba7816bf8f01cfea414140de5dae2223b00361a396177a9cb410ff61f20015ad");
}

#[test]
fn single_hash_is_its_own_root() {
    assert_eq!(root_of_hashes(&strings(&["aa"])), "aa");
}

#[test]
fn pairs_are_hashed_and_odd_ones_carried() {
    let ab = hex_digest(b"ab");
    assert_eq!(root_of_hashes(&strings(&["a", "b"])), ab);
    let expected = hex_digest(format!("{}{}", ab, "c").as_bytes());
    assert_eq!(root_of_hashes(&strings(&["a", "b", "c"])), expected);
    let cd = hex_digest(b"cd");
    let four = hex_digest(format!("{}{}", ab, cd).as_bytes());
    assert_eq!(root_of_hashes(&strings(&["a", "b", "c", "d"])), four);
}

#[test]
fn tree_root_carries_range_and_children() {
    let leaves = vec![("k1".to_string(), "a".to_string()), ("k2".to_string(), "b".to_string()), ("k3".to_string(), "c".to_string())];
    let root: MerkleNode = build_merkle_tree(&leaves);
    assert_eq!(root.hash, root_of_hashes(&strings(&["a", "b", "c"])));
    assert_eq!(root.key_range, Some(("k1".to_string(), "k3".to_string())));
    assert!(!root.is_leaf);
    assert_eq!(root.children, Some(vec![hex_digest(b"ab"), "c".to_string()]));
    let one = build_merkle_tree(&vec![("only".to_string(), "h".to_string())]);
    assert!(one.is_leaf);
    assert_eq!(one.hash, "h");
    assert_eq!(one.key_range, Some(("only".to_string(), "only".to_string())));
}

#[test]
fn table_tree_hashes_rows() {
    let empty = build_table_merkle_tree(&vec![]);
    assert_eq!(empty.hash, hex_digest(b""));
    assert!(empty.key_range.is_none());
    let rows = vec![("r1".to_string(), StrMap::new(), 3u64, "sum".to_string())];
    let t = build_table_merkle_tree(&rows);
    assert_eq!(t.hash, hex_digest(b"r1:sum:3"));
    assert!(t.is_leaf);
}

#[test]
fn transaction_roots() {
    assert_eq!(transactions_merkle_root(&vec![]), hex_digest(b""));
    assert_eq!(transactions_merkle_root(&strings(&["x", "y"])), hex_digest(b"xy"));
}

#[test]
fn chain_verification_checks_roots_from_height() {
    let good = block(1, "h1", &["x", "y"], hex_digest(b"xy"));
    let bad = block(2, "h2", &["z"], "wrong".to_string());
    let blocks = vec![good, bad];
    assert!(verify_chain(&blocks, 3));
    assert!(!verify_chain(&blocks, 2));
    assert!(!verify_chain(&blocks, 0));
    assert_eq!(block_by_height(&blocks, 2).unwrap().hash.as_str(), "h2");
    assert!(block_by_height(&blocks, 9).is_none());
    assert_eq!(block_by_hash(&blocks, &primusdb::consensus::Hash("h1".to_string())).unwrap().height, 1);
}

#[test]
fn block_validity() {
    let b = block(1, "h1", &["x"], "x".to_string());
    assert!(block_is_valid(&b, true, &vec![true]));
    assert!(!block_is_valid(&b, false, &vec![true]));
    assert!(!block_is_valid(&b, true, &vec![false]));
    let empty = block(1, "h", &[], hex_digest(b""));
    assert!(!block_is_valid(&empty, true, &vec![]));
    let wrong_root = block(1, "h", &["x"], "y".to_string());
    assert!(!block_is_valid(&wrong_root, true, &vec![true]));
}

#[test]
fn fork_resolution() {
    let blocks = vec![block(1, "h1", &["x"], "x".to_string())];
    let tip = primusdb::consensus::Hash("tip".to_string());
    assert_eq!(resolve_fork(&primusdb::consensus::Hash("tip".to_string()), &tip, Some(&blocks)), ForkResolution::ManualIntervention);
    assert_eq!(resolve_fork(&primusdb::consensus::Hash("h1".to_string()), &tip, Some(&blocks)), ForkResolution::KeepCurrent);
    assert_eq!(resolve_fork(&primusdb::consensus::Hash("zz".to_string()), &tip, Some(&blocks)), ForkResolution::ManualIntervention);
    assert_eq!(resolve_fork(&primusdb::consensus::Hash("h1".to_string()), &tip, None), ForkResolution::ManualIntervention);
}

#[test]
fn round_robin_validator() {
    assert_eq!(validator_for_round(7, 0), None);
    assert_eq!(validator_for_round(7, 3), Some(1));
    assert_eq!(validator_for_round(9, 3), Some(0));
}

#[test]
fn proposals() {
    let refused = proposal_result(false, "tx1", "sig".to_string(), 4);
    assert!(!refused.accepted);
    assert!(refused.block_hash.is_none());
    let ok = proposal_result(true, "tx1", "sig".to_string(), 4);
    assert!(ok.accepted);
    assert_eq!(ok.block_hash.unwrap().into_inner(), hex_digest(b"tx1"));
    assert_eq!(ok.validator_signatures, vec!["sig".to_string()]);
    assert_eq!(ok.consensus_round, 5);
}

#[test]
fn signatures_hold_only_for_their_message() {
    let (signer, fresh) = NodeSigner::load_or_generate(None).unwrap();
    assert!(fresh);
    let sig = signer.sign(b"hello");
    assert!(verify_signature(&signer.public_key, &sig, b"hello"));
    assert!(!verify_signature(&signer.public_key, &sig, b"hellO"));
    assert!(!verify_signature("not base64!", &sig, b"hello"));
    let (again, fresh) = NodeSigner::load_or_generate(Some(signer.keypair.clone())).unwrap();
    assert!(!fresh);
    assert_eq!(again.public_key, signer.public_key);
    let (other, fresh) = NodeSigner::load_or_generate(Some(vec![1, 2, 3])).unwrap();
    assert!(fresh);
    assert_ne!(other.public_key, signer.public_key);
}

#[test]
fn validator_set_operations() {
    let mut set = ValidatorSet::new();
    set.add_validator("a".to_string(), "ka".to_string(), 10, 1);
    set.add_validator("b".to_string(), "kb".to_string(), 20, 1);
    assert_eq!(set.get_validator("a").unwrap().stake, 10);
    assert_eq!(set.update_validator_stake("a", 15), Some(()));
    assert_eq!(set.get_validator("a").unwrap().stake, 15);
    assert_eq!(set.update_validator_stake("zz", 1), None);
    assert_eq!(set.select_validator(3).unwrap().id, "b");
    assert_eq!(set.select_validator(4).unwrap().id, "a");
    set.remove_validator("a");
    assert!(set.get_validator("a").is_none());
    assert!(ValidatorSet::new().select_validator(1).is_none());
}

#[test]
fn proposals_and_block_checks() {
    let (signer, _) = NodeSigner::load_or_generate(None).unwrap();
    let node_key = signer.public_key.clone();
    let mut ledger = LedgerState::new(4, 9, None, signer);
    assert_eq!(ledger.last_block_hash.as_str(), "genesis");
    let r = ledger.propose_transaction("tx1", "node-a", b"payload", 5);
    assert!(r.accepted);
    assert_eq!(r.consensus_round, 5);
    assert_eq!(r.block_hash.unwrap().as_str(), sha256_hex_text("tx1"));
    assert!(verify_signature(&node_key, &r.validator_signatures[0], b"tx1"));
    assert_eq!(ledger.pending.len(), 1);
    assert_eq!(ledger.validators.get_validator("node-a").unwrap().stake, 1000);

    let (stranger, _) = NodeSigner::load_or_generate(None).unwrap();
    ledger.validators.add_validator("node-b".to_string(), stranger.public_key.clone(), 5, 6);
    let r = ledger.propose_transaction("tx2", "node-b", b"other", 6);
    assert!(!r.accepted);
    assert_eq!(r.consensus_round, 0);
    assert_eq!(ledger.pending.len(), 1);

    let (height, prev, validator) = ledger.next_block_slot();
    assert_eq!(height, 5);
    assert_eq!(prev.as_str(), "genesis");
    assert_eq!(validator, "node-b");
    let drained = ledger.drain_pending();
    assert_eq!(drained.len(), 1);
    assert!(ledger.pending.is_empty());

    let tx_hash = hex_digest(b"tx1-json");
    let message = b"block-json".to_vec();
    let mut b = block(5, "h5", &[tx_hash.as_str()], tx_hash.clone());
    b.validator = "node-a".to_string();
    b.signature = ledger.signer.sign(&message);
    let txs = vec![SignedMessage {
        signer: "node-a".to_string(),
        signature: drained[0].signature.clone(),
        message: drained[0].message.clone(),
    }];
    assert!(ledger.validators.validate_block(&b, &node_key, &message, &txs));
    assert!(!ledger.validators.validate_block(&b, &node_key, b"other", &txs));
    let bad_tx = vec![SignedMessage { signer: "node-b".to_string(), ..txs[0].clone_fields() }];
    assert!(!ledger.validators.validate_block(&b, &node_key, &message, &bad_tx));
    ledger.record_commit(5, primusdb::consensus::Hash("h5".to_string()), 1);
    assert_eq!(ledger.current_height, 5);
    assert_eq!(ledger.total_transactions, 10);
}

trait CloneFields {
    fn clone_fields(&self) -> SignedMessage;
}

impl CloneFields for SignedMessage {
    fn clone_fields(&self) -> SignedMessage {
        SignedMessage { signer: self.signer.clone(), signature: self.signature.clone(), message: self.message.clone() }
    }
}

#[test]
fn produced_blocks_follow_the_chain_and_commit() {
    let (signer, _) = NodeSigner::load_or_generate(None).unwrap();
    let mut ledger = LedgerState::new(4, 9, None, signer);
    let r = ledger.propose_transaction("tx1", "node-a", b"payload", 5);
    assert!(r.accepted);
    let drained = ledger.drain_pending();
    let txs = vec![SignedMessage {
        signer: "node-a".to_string(),
        signature: drained[0].signature.clone(),
        message: drained[0].message.clone(),
    }];
    let tx_hash = hex_digest(b"tx1-json");
    let empty = ledger.produce_block(Vec::new(), b"header", b"block", &Vec::new());
    assert!(matches!(empty, Err(ref e) if e == "Block validation failed"));
    assert_eq!(ledger.current_height, 4);
    let b = match ledger.produce_block(vec![tx_hash.clone()], b"header", b"block", &txs) {
        Ok(b) => b,
        Err(e) => panic!("{}", e),
    };
    assert_eq!(b.height, 5);
    assert_eq!(b.previous_hash.as_str(), "genesis");
    assert_eq!(b.validator, "node-a");
    assert_eq!(b.hash.as_str(), hex_digest(b"header"));
    assert_eq!(b.merkle_root.as_str(), transactions_merkle_root(&vec![tx_hash]));
    assert!(verify_signature(&ledger.signer.public_key, &b.signature, b"block"));
    assert_eq!(ledger.current_height, 5);
    assert_eq!(ledger.total_transactions, 10);
    assert_eq!(ledger.last_block_hash.as_str(), hex_digest(b"header"));
}

//! Ledger consensus decisions: Merkle checks of blocks, fork resolution,
//! round-robin validator choice and the answer to a proposed transaction.
//!
//! Signing, signature checks, encoding and storage of blocks are the
//! caller's; it hands the outcomes in as plain values.

use vstd::prelude::*;
use vstd::utf8::encode_utf8;
use vstd::string::StrSliceExecFns;
use crate::merkle::{merkle_root, sha256_hex_of, sha256_hex_text, transactions_merkle_root};
use crate::strmap::StrMap;
use crate::text::{owned, str_eq};
use ring::signature::KeyPair;

verus! {

/// A SHA-256 content hash in lowercase hexadecimal.
pub struct Hash(pub String);

impl Hash {
    /// The hash as text.
    pub fn as_str(&self) -> (s: &str)
        ensures
            s@ == self.0@,
    {
        self.0.as_str()
    }

    /// The hash's text, taken out.
    pub fn into_inner(self) -> (s: String)
        ensures
            s == self.0,
    {
        self.0
    }
}

/// Kinds of database operation a transaction carries.
#[derive(Debug, Clone, Copy, PartialEq, Eq, Structural)]
pub enum OperationType {
    Insert,
    Update,
    Delete,
    Create,
    Drop,
}

/// The answer to a proposed transaction.
pub struct ConsensusResult {
    pub accepted: bool,
    /// Hash of the block expected to hold the transaction.
    pub block_hash: Option<Hash>,
    pub validator_signatures: Vec<String>,
    pub consensus_round: u64,
}

/// How a detected fork is settled.
#[derive(Debug, Clone, Copy, PartialEq, Eq, Structural)]
pub enum ForkResolution {
    /// Keep the current chain; the fork is stale.
    KeepCurrent,
    /// Switch to the fork, which reaches the given height.
    SwitchToFork { new_height: u64 },
    /// The fork cannot be settled automatically.
    ManualIntervention,
}

/// A stored block as the checks read it: its hashes, height, the hashes of
/// its transactions in order, and its validator.
pub struct LedgerBlock {
    pub hash: Hash,
    pub previous_hash: Hash,
    pub height: u64,
    pub tx_hashes: Vec<String>,
    pub merkle_root: Hash,
    pub validator: String,
    /// Base64 signature of the block by its validator.
    pub signature: String,
}

/// The Merkle root of a block's transactions, given their hashes.
pub open spec fn tx_root(tx_hashes: Seq<String>) -> Seq<char> {
    if tx_hashes.len() == 0 {
        sha256_hex_of(Seq::empty())
    } else {
        merkle_root(tx_hashes.map_values(|h: String| h@))
    }
}

/// Whether a block's recorded Merkle root is the one its transactions give.
pub open spec fn root_matches(b: LedgerBlock) -> bool {
    b.merkle_root.0@ == tx_root(b.tx_hashes@)
}

/// Whether a block's recorded Merkle root is the one its transactions give.
pub fn check_merkle_root(block: &LedgerBlock) -> (ok: bool)
    ensures
        ok == root_matches(*block),
{
    let root = transactions_merkle_root(&block.tx_hashes);
    str_eq(root.as_str(), block.merkle_root.0.as_str())
}

/// Whether a block is valid: it holds transactions, its Merkle root
/// matches them, its validator's signature holds, and so does every
/// transaction's signature (`tx_signatures_valid`, one per transaction).
pub fn block_is_valid(block: &LedgerBlock, signature_valid: bool, tx_signatures_valid: &Vec<bool>) -> (ok: bool)
    ensures
        ok == (block.tx_hashes@.len() > 0 && root_matches(*block) && signature_valid && forall|i: int|
            0 <= i < tx_signatures_valid@.len() ==> #[trigger] tx_signatures_valid@[i]),
{
    if block.tx_hashes.len() == 0 {
        return false;
    }
    if !check_merkle_root(block) {
        return false;
    }
    if !signature_valid {
        return false;
    }
    let mut i: usize = 0;
    while i < tx_signatures_valid.len()
        invariant
            i <= tx_signatures_valid@.len(),
            forall|j: int| 0 <= j < i ==> #[trigger] tx_signatures_valid@[j],
        decreases tx_signatures_valid@.len() - i,
    {
        if !tx_signatures_valid[i] {
            return false;
        }
        i = i + 1;
    }
    true
}

/// Whether every block at or above `from_height` has the Merkle root its
/// transactions give.
pub fn verify_chain(blocks: &Vec<LedgerBlock>, from_height: u64) -> (ok: bool)
    ensures
        ok == forall|i: int|
            0 <= i < blocks@.len() && (#[trigger] blocks@[i]).height >= from_height ==> root_matches(blocks@[i]),
{
    let mut i: usize = 0;
    while i < blocks.len()
        invariant
            i <= blocks@.len(),
            forall|j: int| 0 <= j < i && (#[trigger] blocks@[j]).height >= from_height ==> root_matches(blocks@[j]),
        decreases blocks@.len() - i,
    {
        if blocks[i].height >= from_height && !check_merkle_root(&blocks[i]) {
            return false;
        }
        i = i + 1;
    }
    true
}

/// The first block at `height`, if any.
pub fn block_by_height(blocks: &Vec<LedgerBlock>, height: u64) -> (r: Option<&LedgerBlock>)
    ensures
        r is None <==> forall|i: int| 0 <= i < blocks@.len() ==> (#[trigger] blocks@[i]).height != height,
        r matches Some(b) ==> exists|i: int|
            0 <= i < blocks@.len() && *b == blocks@[i] && b.height == height && forall|j: int|
                0 <= j < i ==> (#[trigger] blocks@[j]).height != height,
{
    let mut i: usize = 0;
    while i < blocks.len()
        invariant
            i <= blocks@.len(),
            forall|j: int| 0 <= j < i ==> (#[trigger] blocks@[j]).height != height,
        decreases blocks@.len() - i,
    {
        if blocks[i].height == height {
            return Some(&blocks[i]);
        }
        i = i + 1;
    }
    None
}

/// The first block whose hash is `hash`, if any.
pub fn block_by_hash<'a>(blocks: &'a Vec<LedgerBlock>, hash: &Hash) -> (r: Option<&'a LedgerBlock>)
    ensures
        r is None <==> forall|i: int| 0 <= i < blocks@.len() ==> (#[trigger] blocks@[i]).hash.0@ != hash.0@,
        r matches Some(b) ==> exists|i: int|
            0 <= i < blocks@.len() && *b == blocks@[i] && b.hash.0@ == hash.0@ && forall|j: int|
                0 <= j < i ==> (#[trigger] blocks@[j]).hash.0@ != hash.0@,
{
    let mut i: usize = 0;
    while i < blocks.len()
        invariant
            i <= blocks@.len(),
            forall|j: int| 0 <= j < i ==> (#[trigger] blocks@[j]).hash.0@ != hash.0@,
        decreases blocks@.len() - i,
    {
        if str_eq(blocks[i].hash.0.as_str(), hash.0.as_str()) {
            return Some(&blocks[i]);
        }
        i = i + 1;
    }
    None
}

/// How a fork at `fork_point` is settled: at the chain's tip it needs a
/// person; a point found among the stored blocks is a stale fork, and the
/// current chain is kept; an unknown point, or stored blocks that could not
/// be read (`None`), needs a person.
pub fn resolve_fork(fork_point: &Hash, last_block_hash: &Hash, stored: Option<&Vec<LedgerBlock>>) -> (r: ForkResolution)
    ensures
        r == if fork_point.0@ == last_block_hash.0@ {
            ForkResolution::ManualIntervention
        } else if (stored matches Some(bs) && exists|i: int|
            0 <= i < bs@.len() && (#[trigger] bs@[i]).hash.0@ == fork_point.0@) {
            ForkResolution::KeepCurrent
        } else {
            ForkResolution::ManualIntervention
        },
{
    if str_eq(fork_point.0.as_str(), last_block_hash.0.as_str()) {
        return ForkResolution::ManualIntervention;
    }
    match stored {
        Some(bs) => {
            match block_by_hash(bs, fork_point) {
                Some(_) => ForkResolution::KeepCurrent,
                None => ForkResolution::ManualIntervention,
            }
        },
        None => ForkResolution::ManualIntervention,
    }
}

/// The position of the validator for `round` among `count` validators, by
/// round robin; none when there are no validators.
pub fn validator_for_round(round: u64, count: usize) -> (r: Option<usize>)
    ensures
        count == 0 ==> r is None,
        count > 0 ==> r == Some(((round as usize) % count) as usize),
{
    if count == 0 {
        None
    } else {
        Some((round as usize) % count)
    }
}

/// The answer to a proposed transaction: refused when its signature does
/// not hold; otherwise accepted for the next round, with the digest of its
/// id as the expected block hash and the validator's signature.
pub fn proposal_result(signature_valid: bool, tx_id: &str, validator_signature: String, current_height: u64) -> (r:
    ConsensusResult)
    requires
        signature_valid ==> current_height < u64::MAX,
    ensures
        !signature_valid ==> !r.accepted && r.block_hash is None && r.validator_signatures@.len() == 0
            && r.consensus_round == 0,
        signature_valid ==> r.accepted && (r.block_hash matches Some(h) && h.0@ == sha256_hex_of(encode_utf8(tx_id@)))
            && r.validator_signatures@ == seq![validator_signature] && r.consensus_round == current_height + 1,
{
    if !signature_valid {
        return ConsensusResult {
            accepted: false,
            block_hash: None,
            validator_signatures: Vec::new(),
            consensus_round: 0,
        };
    }
    let mut sigs: Vec<String> = Vec::new();
    sigs.push(validator_signature);
    ConsensusResult {
        accepted: true,
        block_hash: Some(Hash(sha256_hex_text(tx_id))),
        validator_signatures: sigs,
        consensus_round: current_height + 1,
    }
}

/// The bytes that standard base64 text decodes to, when it is valid base64.
pub uninterp spec fn base64_decoded(text: Seq<char>) -> Option<Seq<u8>>;

/// The standard base64 text of a byte string.
pub uninterp spec fn base64_text(bytes: Seq<u8>) -> Seq<char>;

/// `base64::engine::general_purpose::STANDARD.encode`: the text named by
/// `base64_text`; decoding it gives the bytes back.
#[verifier::external_body]
fn base64_encode(bytes: &[u8]) -> (r: String)
    ensures
        r@ == base64_text(bytes@),
        base64_decoded(r@) == Some(bytes@),
{
    base64::Engine::encode(&base64::engine::general_purpose::STANDARD, bytes)
}

/// `base64::engine::general_purpose::STANDARD.decode`: the bytes named by
/// `base64_decoded`, or none for text that is not valid base64.
#[verifier::external_body]
fn base64_decode(text: &str) -> (r: Option<Vec<u8>>)
    ensures
        r matches Some(v) ==> base64_decoded(text@) == Some(v@),
        r is None ==> base64_decoded(text@) is None,
{
    base64::Engine::decode(&base64::engine::general_purpose::STANDARD, text).ok()
}

/// Whether an Ed25519 signature of `message` holds under `public_key`.
pub uninterp spec fn ed25519_valid(public_key: Seq<u8>, message: Seq<u8>, signature: Seq<u8>) -> bool;

/// The public key of an Ed25519 key pair in PKCS#8 form, when the bytes are
/// a valid key pair.
pub uninterp spec fn ed25519_public(pkcs8: Seq<u8>) -> Option<Seq<u8>>;

/// The Ed25519 signature of `message` by a key pair in PKCS#8 form, when
/// the bytes are a valid key pair.
pub uninterp spec fn ed25519_signed(pkcs8: Seq<u8>, message: Seq<u8>) -> Option<Seq<u8>>;

/// `UnparsedPublicKey::new(&ED25519, public_key).verify(message,
/// signature)` of `ring`, as a yes or no named by `ed25519_valid`.
#[verifier::external_body]
fn ed25519_verify(public_key: &[u8], message: &[u8], signature: &[u8]) -> (b: bool)
    ensures
        b == ed25519_valid(public_key@, message@, signature@),
{
    ring::signature::UnparsedPublicKey::new(&ring::signature::ED25519, public_key).verify(message, signature).is_ok()
}

/// `Ed25519KeyPair::from_pkcs8` and `public_key` of `ring`: the public key
/// named by `ed25519_public`, or none when the bytes are not a key pair.
#[verifier::external_body]
fn ed25519_public_key(pkcs8: &[u8]) -> (r: Option<Vec<u8>>)
    ensures
        r matches Some(v) ==> ed25519_public(pkcs8@) == Some(v@),
        r is None ==> ed25519_public(pkcs8@) is None,
{
    match ring::signature::Ed25519KeyPair::from_pkcs8(pkcs8) {
        Ok(kp) => Some(kp.public_key().as_ref().to_vec()),
        Err(_) => None,
    }
}

/// `Ed25519KeyPair::from_pkcs8` and `sign` of `ring`: the signature named
/// by `ed25519_signed`, which holds under the key pair's public key; none
/// when the bytes are not a key pair.
#[verifier::external_body]
fn ed25519_sign(pkcs8: &[u8], message: &[u8]) -> (r: Option<Vec<u8>>)
    ensures
        r matches Some(s) ==> ed25519_signed(pkcs8@, message@) == Some(s@) && (ed25519_public(pkcs8@) matches Some(
            pk,
        ) && ed25519_valid(pk, message@, s@)),
        r is None ==> ed25519_signed(pkcs8@, message@) is None && ed25519_public(pkcs8@) is None,
{
    match ring::signature::Ed25519KeyPair::from_pkcs8(pkcs8) {
        Ok(kp) => Some(kp.sign(message).as_ref().to_vec()),
        Err(_) => None,
    }
}

/// `Ed25519KeyPair::generate_pkcs8` of `ring` with the system's random
/// generator: a fresh key pair in PKCS#8 form, which is a valid key pair;
/// otherwise the text of the generator's `ring::error::Unspecified`,
/// "ring::error::Unspecified". When the generator fails is not claimed.
#[verifier::external_body]
fn ed25519_generate() -> (r: Result<Vec<u8>, String>)
    ensures
        r matches Ok(kp) ==> ed25519_public(kp@) is Some,
        r matches Err(t) ==> t@ == "ring::error::Unspecified"@,
{
    match ring::signature::Ed25519KeyPair::generate_pkcs8(&ring::rand::SystemRandom::new()) {
        Ok(doc) => Ok(doc.as_ref().to_vec()),
        Err(e) => Err(e.to_string()),
    }
}

/// Whether a base64 signature of `message` holds under a base64 public key:
/// both must decode, and the Ed25519 check must pass.
pub open spec fn signature_valid(public_key: Seq<char>, signature: Seq<char>, message: Seq<u8>) -> bool {
    match (base64_decoded(public_key), base64_decoded(signature)) {
        (Some(pk), Some(sig)) => ed25519_valid(pk, message, sig),
        _ => false,
    }
}

/// Checks a base64 signature of `message` against a base64 public key.
pub fn verify_signature(public_key: &str, signature: &str, message: &[u8]) -> (b: bool)
    ensures
        b == signature_valid(public_key@, signature@, message@),
{
    let pk = match base64_decode(public_key) {
        Some(p) => p,
        None => {
            return false;
        },
    };
    let sig = match base64_decode(signature) {
        Some(s) => s,
        None => {
            return false;
        },
    };
    ed25519_verify(pk.as_slice(), message, sig.as_slice())
}

/// A node's signing identity: its Ed25519 key pair and the base64 text of
/// its public key.
pub struct NodeSigner {
    /// The key pair in PKCS#8 form.
    pub keypair: Vec<u8>,
    /// The public key, in base64.
    pub public_key: String,
}

impl NodeSigner {
    /// Whether the key pair is valid and the public key text is its public
    /// key in base64.
    pub open spec fn wf(&self) -> bool {
        ed25519_public(self.keypair@) matches Some(pk) && self.public_key@ == base64_text(pk) && base64_decoded(
            self.public_key@,
        ) == Some(pk)
    }

    /// The signer for a stored key pair when it is valid, which always
    /// succeeds; otherwise a fresh key pair is made, which fails only when
    /// the random generator does. The flag tells whether the key pair is new
    /// (and should be stored).
    pub fn load_or_generate(stored: Option<Vec<u8>>) -> (r: Result<(NodeSigner, bool), String>)
        ensures
            r matches Ok((s, fresh)) ==> s.wf() && (!fresh ==> (stored matches Some(b) && s.keypair@ == b@)),
            r matches Ok((s, fresh)) ==> fresh == !(stored matches Some(b) && ed25519_public(b@) is Some),
            (stored matches Some(b) && ed25519_public(b@) is Some) ==> (r matches Ok((s, fresh)) && !fresh),
            r matches Err(e) ==> e@ == "ring::error::Unspecified"@,
    {
        match stored {
            Some(bytes) => {
                match ed25519_public_key(bytes.as_slice()) {
                    Some(pk) => {
                        let text = base64_encode(pk.as_slice());
                        return Ok((NodeSigner { keypair: bytes, public_key: text }, false));
                    },
                    None => {},
                }
            },
            None => {},
        }
        let kp = match ed25519_generate() {
            Ok(k) => k,
            Err(e) => {
                return Err(e);
            },
        };
        match ed25519_public_key(kp.as_slice()) {
            Some(pk) => {
                let text = base64_encode(pk.as_slice());
                Ok((NodeSigner { keypair: kp, public_key: text }, true))
            },
            None => {
                proof {
                    assert(false);
                }
                Err(owned("generated keypair is invalid"))
            },
        }
    }

    /// The base64 signature of `message` by this node; it holds under the
    /// node's public key.
    pub fn sign(&self, message: &[u8]) -> (s: String)
        requires
            self.wf(),
        ensures
            signature_valid(self.public_key@, s@, message@),
            ed25519_signed(self.keypair@, message@) matches Some(sig) && s@ == base64_text(sig),
    {
        match ed25519_sign(self.keypair.as_slice(), message) {
            Some(sig) => base64_encode(sig.as_slice()),
            None => {
                proof {
                    assert(false);
                }
                String::new()
            },
        }
    }
}

/// A validator as the ledger reads it: id, base64 public key and stake.
pub struct Validator {
    /// Validator id (node id).
    pub id: String,
    /// Base64 Ed25519 public key.
    pub public_key: String,
    /// Committed stake.
    pub stake: u64,
    /// When the validator was last seen (ms).
    pub last_seen: i64,
}

/// A validator as plain values.
pub struct ValidatorView {
    pub id: Seq<char>,
    pub public_key: Seq<char>,
    pub stake: u64,
    pub last_seen: i64,
}

impl View for Validator {
    type V = ValidatorView;

    open spec fn view(&self) -> ValidatorView {
        ValidatorView { id: self.id@, public_key: self.public_key@, stake: self.stake, last_seen: self.last_seen }
    }
}

impl Validator {
    /// A copy of the validator.
    pub fn copy(&self) -> (r: Validator)
        ensures
            r@ == self@,
    {
        Validator {
            id: self.id.clone(),
            public_key: self.public_key.clone(),
            stake: self.stake,
            last_seen: self.last_seen,
        }
    }
}

/// The validators as plain values, by id.
pub open spec fn validator_views(m: Map<Seq<char>, Validator>) -> Map<Seq<char>, ValidatorView> {
    m.map_values(|v: Validator| v@)
}

/// A transaction's signature with the bytes it signs.
pub struct SignedMessage {
    /// Id of the signer.
    pub signer: String,
    /// Base64 signature.
    pub signature: String,
    /// The signed bytes.
    pub message: Vec<u8>,
}

/// The validators of the ledger, by id, in registration order.
pub struct ValidatorSet {
    pub validators: StrMap<Validator>,
}

/// Whether a signer's signature holds under the public key the set records
/// for it; an unknown signer's does not.
pub open spec fn signed_by_member(m: Map<Seq<char>, Validator>, signer: Seq<char>, signature: Seq<char>, message: Seq<u8>) -> bool {
    m.contains_key(signer) && signature_valid(m[signer].public_key@, signature, message)
}

impl ValidatorSet {
    /// Whether the map is well formed and each validator is filed under
    /// its id.
    pub open spec fn wf(&self) -> bool {
        &&& self.validators.wf()
        &&& forall|k: Seq<char>| #[trigger] self.validators@.contains_key(k) ==> self.validators@[k].id@ == k
    }

    /// An empty set.
    pub fn new() -> (s: Self)
        ensures
            s.wf(),
            s.validators@ == Map::<Seq<char>, Validator>::empty(),
    {
        ValidatorSet { validators: StrMap::new() }
    }

    /// Registers (or replaces) a validator with `stake`, seen at `now_ms`.
    pub fn add_validator(&mut self, id: String, public_key: String, stake: u64, now_ms: i64)
        requires
            old(self).wf(),
        ensures
            final(self).wf(),
            validator_views(final(self).validators@) == validator_views(old(self).validators@).insert(
                id@,
                ValidatorView { id: id@, public_key: public_key@, stake, last_seen: now_ms },
            ),
    {
        let ghost m0 = self.validators@;
        let key = id.clone();
        let v = Validator { id, public_key, stake, last_seen: now_ms };
        let ghost vv = v@;
        self.validators.insert(key, v);
        assert(validator_views(self.validators@) =~= validator_views(m0).insert(vv.id, vv));
    }

    /// Removes a validator.
    pub fn remove_validator(&mut self, id: &str)
        requires
            old(self).wf(),
        ensures
            final(self).wf(),
            final(self).validators@ == old(self).validators@.remove(id@),
    {
        let _ = self.validators.remove(&owned(id));
    }

    /// Sets a known validator's stake; `None` for an unknown id.
    pub fn update_validator_stake(&mut self, id: &str, new_stake: u64) -> (r: Option<()>)
        requires
            old(self).wf(),
        ensures
            final(self).wf(),
            r is Some <==> old(self).validators@.contains_key(id@),
            r is Some ==> validator_views(final(self).validators@) == validator_views(old(self).validators@).insert(
                id@,
                ValidatorView { stake: new_stake, ..old(self).validators@[id@]@ },
            ),
            r is None ==> final(self).validators@ == old(self).validators@,
    {
        let key = owned(id);
        let ghost m0 = self.validators@;
        match self.validators.get(&key) {
            Some(v) => {
                let mut w = v.copy();
                w.stake = new_stake;
                let ghost wv = w@;
                self.validators.insert(key, w);
                assert(validator_views(self.validators@) =~= validator_views(m0).insert(id@, wv));
                Some(())
            },
            None => None,
        }
    }

    /// The validator with this id, if any.
    pub fn get_validator(&self, id: &str) -> (r: Option<Validator>)
        requires
            self.wf(),
        ensures
            r is Some <==> self.validators@.contains_key(id@),
            r matches Some(v) ==> v@ == self.validators@[id@]@,
    {
        match self.validators.get(&owned(id)) {
            Some(v) => Some(v.copy()),
            None => None,
        }
    }

    /// The validator for `round`, by round robin over the validators in
    /// registration order; none when there are none.
    pub fn select_validator(&self, round: u64) -> (r: Option<Validator>)
        requires
            self.wf(),
        ensures
            self.validators.entry_seq().len() == 0 ==> r is None,
            self.validators.entry_seq().len() > 0 ==> (r matches Some(v) && v@ == self.validators.entry_seq()[(
            round as int) % (self.validators.entry_seq().len() as int)].1@),
    {
        let n = self.validators.entry_count();
        if n == 0 {
            return None;
        }
        let i = ((round as u128) % (n as u128)) as usize;
        Some(self.validators.value_at(i).copy())
    }

    /// Whether a signature by `signer` of `message` holds under the public
    /// key recorded for the signer.
    pub fn validate_signature(&self, signer: &str, signature: &str, message: &[u8]) -> (b: bool)
        requires
            self.wf(),
        ensures
            b == signed_by_member(self.validators@, signer@, signature@, message@),
    {
        match self.validators.get(&owned(signer)) {
            Some(v) => verify_signature(v.public_key.as_str(), signature, message),
            None => false,
        }
    }

    /// Whether a block is valid: it has transactions, its Merkle root
    /// matches them, its signature holds under its validator's key (this
    /// node's key for an unknown validator), and every transaction's
    /// signature holds under its proposer's key.
    pub fn validate_block(
        &self,
        block: &LedgerBlock,
        node_public_key: &str,
        block_message: &[u8],
        transactions: &Vec<SignedMessage>,
    ) -> (ok: bool)
        requires
            self.wf(),
        ensures
            ok == (block.tx_hashes@.len() > 0 && root_matches(*block) && signature_valid(
                if self.validators@.contains_key(block.validator@) {
                    self.validators@[block.validator@].public_key@
                } else {
                    node_public_key@
                },
                block.signature@,
                block_message@,
            ) && forall|i: int|
                0 <= i < transactions@.len() ==> signed_by_member(
                    self.validators@,
                    (#[trigger] transactions@[i]).signer@,
                    transactions@[i].signature@,
                    transactions@[i].message@,
                )),
    {
        let key: &str = match self.validators.get(&block.validator) {
            Some(v) => v.public_key.as_str(),
            None => node_public_key,
        };
        let signature_ok = verify_signature(key, block.signature.as_str(), block_message);
        let mut checks: Vec<bool> = Vec::new();
        let mut i: usize = 0;
        while i < transactions.len()
            invariant
                self.wf(),
                i <= transactions@.len(),
                checks@.len() == i,
                forall|j: int|
                    0 <= j < i ==> #[trigger] checks@[j] == signed_by_member(
                        self.validators@,
                        transactions@[j].signer@,
                        transactions@[j].signature@,
                        transactions@[j].message@,
                    ),
            decreases transactions@.len() - i,
        {
            let t = &transactions[i];
            let c = self.validate_signature(t.signer.as_str(), t.signature.as_str(), t.message.as_slice());
            checks.push(c);
            i = i + 1;
        }
        let ok = block_is_valid(block, signature_ok, &checks);
        proof {
            if ok {
                assert forall|j: int| 0 <= j < transactions@.len() implies signed_by_member(
                    self.validators@,
                    (#[trigger] transactions@[j]).signer@,
                    transactions@[j].signature@,
                    transactions@[j].message@,
                ) by {
                    assert(checks@[j]);
                }
            }
            if block.tx_hashes@.len() > 0 && root_matches(*block) && signature_ok && forall|j: int|
                0 <= j < transactions@.len() ==> signed_by_member(
                    self.validators@,
                    (#[trigger] transactions@[j]).signer@,
                    transactions@[j].signature@,
                    transactions@[j].message@,
                ) {
                assert forall|j: int| 0 <= j < checks@.len() implies #[trigger] checks@[j] by {
                    assert(signed_by_member(
                        self.validators@,
                        transactions@[j].signer@,
                        transactions@[j].signature@,
                        transactions@[j].message@,
                    ));
                }
            }
        }
        ok
    }
}

/// A transaction waiting in the mempool: its id, proposer, the bytes its
/// signature covers, and the signature.
pub struct PendingTransaction {
    pub id: String,
    pub proposer: String,
    pub message: Vec<u8>,
    pub signature: String,
}

/// The local chain: height, transaction count, last block hash, the
/// validators, the mempool and this node's signing identity.
pub struct LedgerState {
    pub current_height: u64,
    pub total_transactions: u64,
    pub last_block_hash: Hash,
    pub validators: ValidatorSet,
    pub pending: Vec<PendingTransaction>,
    pub signer: NodeSigner,
}

impl LedgerState {
    /// Whether the validator set and the signer are well formed.
    pub open spec fn wf(&self) -> bool {
        &&& self.validators.wf()
        &&& self.signer.wf()
    }

    /// A chain restored at `height` with `total_transactions` and the last
    /// block hash (`genesis` for an empty chain), no validators and an
    /// empty mempool.
    pub fn new(height: u64, total_transactions: u64, last_hash: Option<String>, signer: NodeSigner) -> (l: Self)
        requires
            signer.wf(),
        ensures
            l.wf(),
            l.current_height == height,
            l.total_transactions == total_transactions,
            last_hash matches Some(h) ==> l.last_block_hash.0@ == h@,
            last_hash is None ==> l.last_block_hash.0@ == "genesis"@,
            l.validators.validators@ == Map::<Seq<char>, Validator>::empty(),
            l.pending@.len() == 0,
            l.signer == signer,
    {
        let last = match last_hash {
            Some(h) => h,
            None => owned("genesis"),
        };
        LedgerState {
            current_height: height,
            total_transactions,
            last_block_hash: Hash(last),
            validators: ValidatorSet::new(),
            pending: Vec::new(),
            signer,
        }
    }

    /// Proposes a transaction whose signed bytes are `message`: this node
    /// signs it; a proposer that is not a validator yet is registered with
    /// this node's public key and a stake of 1000 (seen at `now_ms`); then
    /// the signature is checked against the proposer's recorded key. A
    /// transaction that fails the check is refused; otherwise it joins the
    /// mempool and is accepted for the next round, with the digest of its id
    /// as the expected block hash and this node's signature of its id.
    pub fn propose_transaction(&mut self, tx_id: &str, proposer: &str, message: &[u8], now_ms: i64) -> (r: ConsensusResult)
        requires
            old(self).wf(),
            old(self).current_height < u64::MAX,
        ensures
            final(self).wf(),
            final(self).current_height == old(self).current_height,
            final(self).signer == old(self).signer,
            old(self).validators.validators@.contains_key(proposer@) ==> final(self).validators.validators@
                == old(self).validators.validators@,
            !old(self).validators.validators@.contains_key(proposer@) ==> validator_views(
                final(self).validators.validators@,
            ) == validator_views(old(self).validators.validators@).insert(
                proposer@,
                ValidatorView {
                    id: proposer@,
                    public_key: old(self).signer.public_key@,
                    stake: 1000,
                    last_seen: now_ms,
                },
            ),
            ({
                let sig = ed25519_signed(old(self).signer.keypair@, message@)->0;
                let accepted = signed_by_member(final(self).validators.validators@, proposer@, base64_text(sig), message@);
                &&& r.accepted == accepted
                &&& !accepted ==> {
                    &&& r.block_hash is None
                    &&& r.validator_signatures@.len() == 0
                    &&& r.consensus_round == 0
                    &&& final(self).pending@ == old(self).pending@
                }
                &&& accepted ==> {
                    &&& (r.block_hash matches Some(h) && h.0@ == sha256_hex_of(encode_utf8(tx_id@)))
                    &&& r.validator_signatures@.len() == 1
                    &&& signature_valid(old(self).signer.public_key@, r.validator_signatures@[0]@, encode_utf8(tx_id@))
                    &&& r.consensus_round == old(self).current_height + 1
                    &&& final(self).pending@.len() == old(self).pending@.len() + 1
                    &&& final(self).pending@.take(old(self).pending@.len() as int) == old(self).pending@
                    &&& final(self).pending@.last().id@ == tx_id@
                    &&& final(self).pending@.last().proposer@ == proposer@
                    &&& final(self).pending@.last().message@ == message@
                    &&& final(self).pending@.last().signature@ == base64_text(sig)
                }
            }),
            !old(self).validators.validators@.contains_key(proposer@) ==> r.accepted,
    {
        let signature = self.signer.sign(message);
        if self.validators.get_validator(proposer).is_none() {
            let key = self.signer.public_key.clone();
            self.validators.add_validator(owned(proposer), key, 1000, now_ms);
            proof {
                assert(validator_views(self.validators.validators@).contains_key(proposer@));
                assert(self.validators.validators@.dom() == validator_views(self.validators.validators@).dom());
                assert(self.validators.validators@.contains_key(proposer@));
                assert(validator_views(self.validators.validators@)[proposer@] == self.validators.validators@[proposer@]@);
                assert(self.validators.validators@[proposer@].public_key@ == self.signer.public_key@);
                assert(signed_by_member(self.validators.validators@, proposer@, signature@, message@));
            }
        }
        let valid = self.validators.validate_signature(proposer, signature.as_str(), message);
        if !valid {
            return ConsensusResult {
                accepted: false,
                block_hash: None,
                validator_signatures: Vec::new(),
                consensus_round: 0,
            };
        }
        let ghost p0 = self.pending@;
        self.pending.push(
            PendingTransaction {
                id: owned(tx_id),
                proposer: owned(proposer),
                message: crate::text::copy_bytes(&slice_bytes(message)),
                signature,
            },
        );
        assert(self.pending@.take(p0.len() as int) =~= p0);
        let id_bytes = tx_id.as_bytes_vec();
        let validator_signature = self.signer.sign(id_bytes.as_slice());
        let mut sigs: Vec<String> = Vec::new();
        sigs.push(validator_signature);
        ConsensusResult {
            accepted: true,
            block_hash: Some(Hash(sha256_hex_text(tx_id))),
            validator_signatures: sigs,
            consensus_round: self.current_height + 1,
        }
    }

    /// The slot of the next block: one above the current height, after the
    /// last block, produced by the validator the round robin gives for that
    /// height (`genesis` when there is none).
    pub fn next_block_slot(&self) -> (r: (u64, Hash, String))
        requires
            self.wf(),
            self.current_height < u64::MAX,
        ensures
            r.0 == self.current_height + 1,
            r.1.0@ == self.last_block_hash.0@,
            self.validators.validators.entry_seq().len() == 0 ==> r.2@ == "genesis"@,
            self.validators.validators.entry_seq().len() > 0 ==> r.2@ == self.validators.validators.entry_seq()[(
            (self.current_height + 1) as int) % (self.validators.validators.entry_seq().len() as int)].1.id@,
    {
        let height = self.current_height + 1;
        let validator = match self.validators.select_validator(height) {
            Some(v) => v.id,
            None => owned("genesis"),
        };
        (height, Hash(self.last_block_hash.0.clone()), validator)
    }

    /// Takes the mempool's transactions out, in order.
    pub fn drain_pending(&mut self) -> (r: Vec<PendingTransaction>)
        ensures
            r@ == old(self).pending@,
            final(self).pending@.len() == 0,
            final(self).current_height == old(self).current_height,
            final(self).total_transactions == old(self).total_transactions,
            final(self).validators == old(self).validators,
            final(self).signer == old(self).signer,
    {
        let mut taken: Vec<PendingTransaction> = Vec::new();
        std::mem::swap(&mut taken, &mut self.pending);
        taken
    }

    /// Records a committed block: it becomes the last block at `height`,
    /// and its `tx_count` transactions are counted.
    pub fn record_commit(&mut self, height: u64, hash: Hash, tx_count: u64)
        requires
            old(self).total_transactions + tx_count <= u64::MAX,
        ensures
            final(self).current_height == height,
            final(self).last_block_hash == hash,
            final(self).total_transactions == old(self).total_transactions + tx_count,
            final(self).validators == old(self).validators,
            final(self).pending == old(self).pending,
            final(self).signer == old(self).signer,
    {
        self.current_height = height;
        self.last_block_hash = hash;
        self.total_transactions = self.total_transactions + tx_count;
    }
}

/// The validator that produces the next block of `l`: the round robin's
/// choice for the next height, `genesis` when there are no validators.
pub open spec fn slot_validator(l: LedgerState) -> Seq<char> {
    let es = l.validators.validators.entry_seq();
    if es.len() == 0 {
        "genesis"@
    } else {
        es[((l.current_height + 1) as int) % (es.len() as int)].1.id@
    }
}

/// The key a block's signature is checked under: its validator's, or this
/// node's for an unknown validator.
pub open spec fn block_key(l: LedgerState, validator: Seq<char>) -> Seq<char> {
    if l.validators.validators@.contains_key(validator) {
        l.validators.validators@[validator].public_key@
    } else {
        l.signer.public_key@
    }
}

/// The base64 signature this node gives `message`.
pub open spec fn node_signature(l: LedgerState, message: Seq<u8>) -> Seq<char> {
    base64_text(ed25519_signed(l.signer.keypair@, message)->0)
}

/// Whether the next block of `l` is accepted: it carries transactions, its
/// signature holds under its key, every transaction's signature holds under
/// its proposer's key, and the transaction count stays in range.
pub open spec fn block_accepted(
    l: LedgerState,
    tx_count: nat,
    block_message: Seq<u8>,
    transactions: Seq<SignedMessage>,
) -> bool {
    &&& tx_count > 0
    &&& signature_valid(block_key(l, slot_validator(l)), node_signature(l, block_message), block_message)
    &&& forall|i: int|
        0 <= i < transactions.len() ==> signed_by_member(
            l.validators.validators@,
            (#[trigger] transactions[i]).signer@,
            transactions[i].signature@,
            transactions[i].message@,
        )
    &&& l.total_transactions + tx_count <= u64::MAX
}

impl LedgerState {
    /// Produces and commits the next block: at the next height, after the
    /// last block, by the slot's validator, over the given transaction
    /// hashes and their Merkle root, hashed from the header bytes and signed
    /// by this node over `block_message`. It is validated, and on success
    /// it becomes the last block and its transactions are counted; a block
    /// that fails validation, or that would overflow the transaction count,
    /// is refused with nothing changed.
    pub fn produce_block(
        &mut self,
        tx_hashes: Vec<String>,
        header: &[u8],
        block_message: &[u8],
        transactions: &Vec<SignedMessage>,
    ) -> (r: Result<LedgerBlock, String>)
        requires
            old(self).wf(),
            old(self).current_height < u64::MAX,
        ensures
            final(self).wf(),
            r is Ok <==> block_accepted(*old(self), tx_hashes@.len(), block_message@, transactions@),
            r matches Ok(b) ==> {
                &&& b.height == old(self).current_height + 1
                &&& b.previous_hash.0@ == old(self).last_block_hash.0@
                &&& b.validator@ == slot_validator(*old(self))
                &&& b.tx_hashes@ == tx_hashes@
                &&& b.merkle_root.0@ == tx_root(tx_hashes@)
                &&& b.hash.0@ == sha256_hex_of(header@)
                &&& b.signature@ == node_signature(*old(self), block_message@)
                &&& final(self).current_height == b.height
                &&& final(self).last_block_hash == b.hash
                &&& final(self).total_transactions == old(self).total_transactions + tx_hashes@.len()
                &&& final(self).validators == old(self).validators
                &&& final(self).pending == old(self).pending
                &&& final(self).signer == old(self).signer
            },
            r matches Err(e) ==> *final(self) == *old(self) && (e@ == "Block validation failed"@ || e@
                == "Transaction count exhausted"@),
    {
        let (height, previous_hash, validator) = self.next_block_slot();
        let merkle_root = transactions_merkle_root(&tx_hashes);
        let hash = crate::merkle::sha256_hex(header);
        let signature = self.signer.sign(block_message);
        let block = LedgerBlock {
            hash: Hash(hash),
            previous_hash,
            height,
            tx_hashes,
            merkle_root: Hash(merkle_root),
            validator,
            signature,
        };
        proof {
            assert(block.merkle_root.0@ == tx_root(block.tx_hashes@));
        }
        let node_key = self.signer.public_key.clone();
        if !self.validators.validate_block(&block, node_key.as_str(), block_message, transactions) {
            return Err(owned("Block validation failed"));
        }
        let count = block.tx_hashes.len() as u64;
        if self.total_transactions > u64::MAX - count {
            return Err(owned("Transaction count exhausted"));
        }
        let committed = Hash(block.hash.0.clone());
        self.record_commit(height, committed, count);
        Ok(block)
    }
}

/// The bytes of a slice, as a vector.
fn slice_bytes(s: &[u8]) -> (v: Vec<u8>)
    ensures
        v@ == s@,
{
    let mut v: Vec<u8> = Vec::new();
    let mut i: usize = 0;
    while i < s.len()
        invariant
            i <= s@.len(),
            v@ == s@.take(i as int),
        decreases s@.len() - i,
    {
        v.push(s[i]);
        assert(s@.take(i + 1) =~= s@.take(i as int).push(s@[i as int]));
        i = i + 1;
    }
    assert(s@.take(s@.len() as int) =~= s@);
    v
}

} // verus!

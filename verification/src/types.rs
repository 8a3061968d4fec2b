//! The chain's data: transactions, blocks, wire messages and peer records.



pub use crate::chain_state::ChainState;
pub use crate::mempool::Mempool;
use vstd::prelude::*;

verus! {

/// A signed transfer of `amount` from one address to another.
#[derive(Debug)]
pub struct Transaction {
    pub from: String,
    /// The sender's raw public key, as hexadecimal text.
    pub from_pubkey: String,
    pub to: String,
    pub amount: u64,
    /// The sender's sequence number, starting at 0.
    pub nonce: u64,
    pub fee: u64,
    /// The Ed25519 signature over `from:to:amount:nonce:fee`, as hexadecimal
    /// text.
    pub signature: String,
}

pub struct TransactionView {
    pub from: Seq<char>,
    pub from_pubkey: Seq<char>,
    pub to: Seq<char>,
    pub amount: u64,
    pub nonce: u64,
    pub fee: u64,
    pub signature: Seq<char>,
}

impl View for Transaction {
    type V = TransactionView;

    open spec fn view(&self) -> TransactionView {
        TransactionView {
            from: self.from@,
            from_pubkey: self.from_pubkey@,
            to: self.to@,
            amount: self.amount,
            nonce: self.nonce,
            fee: self.fee,
            signature: self.signature@,
        }
    }
}

impl Clone for Transaction {
    fn clone(&self) -> (r: Self)
        ensures
            r@ == self@,
    {
        Transaction {
            from: self.from.clone(),
            from_pubkey: self.from_pubkey.clone(),
            to: self.to.clone(),
            amount: self.amount,
            nonce: self.nonce,
            fee: self.fee,
            signature: self.signature.clone(),
        }
    }
}

/// The views of a list of transactions, in order.
pub open spec fn transaction_views(txs: Seq<Transaction>) -> Seq<TransactionView> {
    Seq::new(txs.len(), |i: int| txs[i]@)
}

/// Copies a list of transactions.
pub fn clone_transactions(txs: &Vec<Transaction>) -> (r: Vec<Transaction>)
    ensures
        transaction_views(r@) == transaction_views(txs@),
{
    let mut out: Vec<Transaction> = Vec::new();
    let mut i: usize = 0;
    while i < txs.len()
        invariant
            i <= txs.len(),
            out.len() == i,
            forall|j: int| 0 <= j < i ==> (#[trigger] out[j])@ == txs[j]@,
        decreases txs.len() - i,
    {
        out.push(txs[i].clone());
        i = i + 1;
    }
    assert(transaction_views(out@) =~= transaction_views(txs@));
    out
}

/// One block of the chain.
#[derive(Debug)]
pub struct Block {
    pub slot: u64,
    /// Hash of the block of the slot before, or `"genesis"`.
    pub parent_hash: String,
    pub hash: String,
    /// Id of the validator that built the block.
    pub producer: String,
    /// Milliseconds since the Unix epoch.
    pub timestamp: u64,
    pub transactions: Vec<Transaction>,
}

pub struct BlockView {
    pub slot: u64,
    pub parent_hash: Seq<char>,
    pub hash: Seq<char>,
    pub producer: Seq<char>,
    pub timestamp: u64,
    pub transactions: Seq<TransactionView>,
}

impl View for Block {
    type V = BlockView;

    open spec fn view(&self) -> BlockView {
        BlockView {
            slot: self.slot,
            parent_hash: self.parent_hash@,
            hash: self.hash@,
            producer: self.producer@,
            timestamp: self.timestamp,
            transactions: transaction_views(self.transactions@),
        }
    }
}

impl Clone for Block {
    fn clone(&self) -> (r: Self)
        ensures
            r@ == self@,
    {
        Block {
            slot: self.slot,
            parent_hash: self.parent_hash.clone(),
            hash: self.hash.clone(),
            producer: self.producer.clone(),
            timestamp: self.timestamp,
            transactions: clone_transactions(&self.transactions),
        }
    }
}

/// The views of a list of blocks, in order.
pub open spec fn block_views(blocks: Seq<Block>) -> Seq<BlockView> {
    Seq::new(blocks.len(), |i: int| blocks[i]@)
}

/// The views of a list of scored ids, in order.
pub open spec fn scored_views(items: Seq<(String, u64)>) -> Seq<(Seq<char>, u64)> {
    Seq::new(items.len(), |i: int| (items[i].0@, items[i].1))
}

/// The views of a list of texts, in order.
pub open spec fn text_views(texts: Seq<String>) -> Seq<Seq<char>> {
    Seq::new(texts.len(), |i: int| texts[i]@)
}

/// Copies a list of texts.
pub fn clone_texts(texts: &Vec<String>) -> (r: Vec<String>)
    ensures
        text_views(r@) == text_views(texts@),
{
    let mut out: Vec<String> = Vec::new();
    let mut i: usize = 0;
    while i < texts.len()
        invariant
            i <= texts.len(),
            out.len() == i,
            forall|j: int| 0 <= j < i ==> (#[trigger] out[j])@ == texts[j]@,
        decreases texts.len() - i,
    {
        out.push(texts[i].clone());
        i = i + 1;
    }
    assert(text_views(out@) =~= text_views(texts@));
    out
}

/// What is known of one peer.
#[derive(Debug)]
pub struct PeerInfo {
    /// `host:port`.
    pub addr: String,
    /// Seconds since the Unix epoch at which the peer was last heard of.
    pub last_seen: u64,
    pub connected: bool,
}

pub struct PeerInfoView {
    pub addr: Seq<char>,
    pub last_seen: u64,
    pub connected: bool,
}

impl View for PeerInfo {
    type V = PeerInfoView;

    open spec fn view(&self) -> PeerInfoView {
        PeerInfoView { addr: self.addr@, last_seen: self.last_seen, connected: self.connected }
    }
}

impl Clone for PeerInfo {
    fn clone(&self) -> (r: Self)
        ensures
            r@ == self@,
    {
        PeerInfo { addr: self.addr.clone(), last_seen: self.last_seen, connected: self.connected }
    }
}

/// A message between two nodes.
#[derive(Debug)]
pub enum NetworkMessage {
    /// First message on a dialed connection.
    Handshake { peer_addr: String, known_peers: Vec<String>, genesis_timestamp: u64 },
    NewBlock(Block),
    Ping,
    /// One committee member's hash of its candidate block for a slot.
    TpiHash { slot: u64, validator_id: String, block_hash: String, signature: String },
}

pub enum NetworkMessageView {
    Handshake { peer_addr: Seq<char>, known_peers: Seq<Seq<char>>, genesis_timestamp: u64 },
    NewBlock(BlockView),
    Ping,
    TpiHash { slot: u64, validator_id: Seq<char>, block_hash: Seq<char>, signature: Seq<char> },
}

impl View for NetworkMessage {
    type V = NetworkMessageView;

    open spec fn view(&self) -> NetworkMessageView {
        match self {
            NetworkMessage::Handshake { peer_addr, known_peers, genesis_timestamp } => {
                NetworkMessageView::Handshake {
                    peer_addr: peer_addr@,
                    known_peers: text_views(known_peers@),
                    genesis_timestamp: *genesis_timestamp,
                }
            },
            NetworkMessage::NewBlock(block) => NetworkMessageView::NewBlock(block@),
            NetworkMessage::Ping => NetworkMessageView::Ping,
            NetworkMessage::TpiHash { slot, validator_id, block_hash, signature } => {
                NetworkMessageView::TpiHash {
                    slot: *slot,
                    validator_id: validator_id@,
                    block_hash: block_hash@,
                    signature: signature@,
                }
            },
        }
    }
}

impl Clone for NetworkMessage {
    fn clone(&self) -> (r: Self)
        ensures
            r@ == self@,
    {
        match self {
            NetworkMessage::Handshake { peer_addr, known_peers, genesis_timestamp } => {
                NetworkMessage::Handshake {
                    peer_addr: peer_addr.clone(),
                    known_peers: clone_texts(known_peers),
                    genesis_timestamp: *genesis_timestamp,
                }
            },
            NetworkMessage::NewBlock(block) => NetworkMessage::NewBlock(block.clone()),
            NetworkMessage::Ping => NetworkMessage::Ping,
            NetworkMessage::TpiHash { slot, validator_id, block_hash, signature } => {
                NetworkMessage::TpiHash {
                    slot: *slot,
                    validator_id: validator_id.clone(),
                    block_hash: block_hash.clone(),
                    signature: signature.clone(),
                }
            },
        }
    }
}

} // verus!

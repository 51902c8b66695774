use vstd::prelude::*;

use crate::hash::{blake2b_256, hash_bytes, hash_is_zero, is_zero_spec, FixedHash};

verus! {

/// A committee's verdict on a transaction.
#[derive(Clone, Copy, Debug, PartialEq, Eq, Structural)]
pub enum Decision {
    Commit,
    Abort,
}

impl Decision {
    pub fn is_commit(&self) -> (r: bool)
        ensures
            r == (*self == Decision::Commit),
    {
        matches!(self, Decision::Commit)
    }

    pub fn as_u8(&self) -> (r: u8)
        ensures
            r == decision_byte(*self),
    {
        match self {
            Decision::Commit => 0,
            Decision::Abort => 1,
        }
    }
}

pub open spec fn decision_byte(d: Decision) -> u8 {
    match d {
        Decision::Commit => 0u8,
        Decision::Abort => 1u8,
    }
}

/// The network a block belongs to.
#[derive(Clone, Copy, Debug, PartialEq, Eq, Structural)]
pub enum Network {
    MainNet,
    StageNet,
    NextNet,
    LocalNet,
    Igor,
    Esmeralda,
}

pub open spec fn network_byte(n: Network) -> u8 {
    match n {
        Network::MainNet => 0x00u8,
        Network::StageNet => 0x01u8,
        Network::NextNet => 0x02u8,
        Network::LocalNet => 0x10u8,
        Network::Igor => 0x24u8,
        Network::Esmeralda => 0x26u8,
    }
}

impl Network {
    /// The byte that stands for the network on the wire.
    pub fn as_byte(&self) -> (r: u8)
        ensures
            r == network_byte(*self),
    {
        match self {
            Network::MainNet => 0x00,
            Network::StageNet => 0x01,
            Network::NextNet => 0x02,
            Network::LocalNet => 0x10,
            Network::Igor => 0x24,
            Network::Esmeralda => 0x26,
        }
    }
}

/// A validator's signature, with the public key that made it.
#[derive(Clone, Copy, Debug)]
pub struct ValidatorSignature {
    pub public_key: FixedHash,
    pub signature: [u8; 64],
}

/// A quorum certificate: signatures of a committee over a block.
#[derive(Clone, Debug)]
pub struct QuorumCertificate {
    pub qc_id: FixedHash,
    pub block_id: FixedHash,
    pub block_height: u64,
    pub epoch: u64,
    pub shard_group: u32,
    pub decision: Decision,
    pub signatures: Vec<ValidatorSignature>,
}

impl QuorumCertificate {
    /// The zero QC justifies the genesis block and starts an epoch.
    pub open spec fn is_zero_spec(&self) -> bool {
        is_zero_spec(self.block_id@)
    }

    pub fn is_zero(&self) -> (r: bool)
        ensures
            r == self.is_zero_spec(),
    {
        hash_is_zero(&self.block_id)
    }
}

/// The atom of a transaction as a block carries it.
#[derive(Clone, Copy, Debug)]
pub struct TransactionAtom {
    pub id: FixedHash,
    pub decision: Decision,
    pub transaction_fee: u64,
    pub leader_fee: Option<u64>,
}

/// A compressed reference to another shard group's block.
#[derive(Clone, Copy, Debug)]
pub struct ForeignProposalAtom {
    pub block_id: FixedHash,
    pub shard_group: u32,
}

/// An action that a block orders.
#[derive(Clone, Copy, Debug)]
pub enum Command {
    Prepare(TransactionAtom),
    LocalPrepare(TransactionAtom),
    AllPrepare(TransactionAtom),
    SomePrepare(TransactionAtom),
    LocalAccept(TransactionAtom),
    AllAccept(TransactionAtom),
    SomeAccept(TransactionAtom),
    ForeignProposal(ForeignProposalAtom),
    EndEpoch,
}

impl Command {
    /// The transaction the command is about, if any.
    pub open spec fn transaction_spec(&self) -> Option<TransactionAtom> {
        match *self {
            Command::Prepare(a) => Some(a),
            Command::LocalPrepare(a) => Some(a),
            Command::AllPrepare(a) => Some(a),
            Command::SomePrepare(a) => Some(a),
            Command::LocalAccept(a) => Some(a),
            Command::AllAccept(a) => Some(a),
            Command::SomeAccept(a) => Some(a),
            _ => None,
        }
    }

    pub fn transaction(&self) -> (r: Option<TransactionAtom>)
        ensures
            r == self.transaction_spec(),
    {
        match *self {
            Command::Prepare(a) => Some(a),
            Command::LocalPrepare(a) => Some(a),
            Command::AllPrepare(a) => Some(a),
            Command::SomePrepare(a) => Some(a),
            Command::LocalAccept(a) => Some(a),
            Command::AllAccept(a) => Some(a),
            Command::SomeAccept(a) => Some(a),
            _ => None,
        }
    }
}

/// A block of the HotStuff chain.
#[derive(Clone, Debug)]
pub struct Block {
    pub id: FixedHash,
    pub parent: FixedHash,
    pub justify: QuorumCertificate,
    pub height: u64,
    pub epoch: u64,
    pub shard_group: u32,
    pub proposed_by: FixedHash,
    pub commands: Vec<Command>,
    pub merkle_root: FixedHash,
    pub network: Network,
    pub timestamp: u64,
    pub base_layer_block_hash: FixedHash,
    pub base_layer_block_height: u64,
    pub total_leader_fee: u64,
    pub signature: Option<ValidatorSignature>,
    pub is_dummy: bool,
    pub is_committed: bool,
    pub is_processed: bool,
}

impl Block {
    /// The genesis block is the one at height zero.
    pub open spec fn is_genesis_spec(&self) -> bool {
        self.height == 0
    }

    pub fn is_genesis(&self) -> (r: bool)
        ensures
            r == self.is_genesis_spec(),
    {
        self.height == 0
    }

    /// The id the block's content determines.
    pub open spec fn calculate_hash_spec(&self) -> Seq<u8> {
        blake2b_256(block_preimage(*self))
    }

    pub fn calculate_hash(&self) -> (r: FixedHash)
        ensures
            r@ == self.calculate_hash_spec(),
    {
        let pre = encode_block_preimage(self);
        hash_bytes(&pre)
    }
}

/// `n` little-endian bytes of `x`.
pub open spec fn le_bytes(x: nat, n: nat) -> Seq<u8>
    decreases n,
{
    if n == 0 {
        seq![]
    } else {
        seq![(x % 256) as u8] + le_bytes(x / 256, (n - 1) as nat)
    }
}

pub(crate) fn push_le(out: &mut Vec<u8>, x: u64, n: usize)
    ensures
        final(out)@ == old(out)@ + le_bytes(x as nat, n as nat),
    decreases n,
{
    if n == 0 {
        assert(old(out)@ + le_bytes(x as nat, 0) =~= old(out)@);
        return;
    }
    let ghost start = out@;
    out.push((x % 256) as u8);
    push_le(out, x / 256, n - 1);
    assert(start + le_bytes(x as nat, n as nat) =~= start + seq![(x % 256) as u8] + le_bytes(
        (x / 256) as nat,
        (n - 1) as nat,
    ));
}

pub(crate) fn push_hash(out: &mut Vec<u8>, h: &FixedHash)
    ensures
        final(out)@ == old(out)@ + h@,
{
    let ghost start = out@;
    let mut i: usize = 0;
    while i < 32
        invariant
            i <= 32,
            h@.len() == 32,
            out@ == start + h@.subrange(0, i as int),
        decreases 32 - i,
    {
        out.push(h[i]);
        assert(h@.subrange(0, i as int + 1) =~= h@.subrange(0, i as int).push(h@[i as int]));
        i = i + 1;
    }
    assert(h@.subrange(0, 32) =~= h@);
}

/// Bytes of a transaction atom inside a command.
pub open spec fn atom_bytes(a: TransactionAtom) -> Seq<u8> {
    a.id@ + seq![decision_byte(a.decision)] + le_bytes(a.transaction_fee as nat, 8) + match a.leader_fee {
        None => seq![0u8],
        Some(f) => seq![1u8] + le_bytes(f as nat, 8),
    }
}

/// Bytes of one command: a tag, then its fields.
pub open spec fn command_bytes(c: Command) -> Seq<u8> {
    match c {
        Command::Prepare(a) => seq![0u8] + atom_bytes(a),
        Command::LocalPrepare(a) => seq![1u8] + atom_bytes(a),
        Command::AllPrepare(a) => seq![2u8] + atom_bytes(a),
        Command::SomePrepare(a) => seq![3u8] + atom_bytes(a),
        Command::LocalAccept(a) => seq![4u8] + atom_bytes(a),
        Command::AllAccept(a) => seq![5u8] + atom_bytes(a),
        Command::SomeAccept(a) => seq![6u8] + atom_bytes(a),
        Command::ForeignProposal(f) => seq![7u8] + f.block_id@ + le_bytes(f.shard_group as nat, 4),
        Command::EndEpoch => seq![8u8],
    }
}

/// Bytes of a list of commands, in order.
pub open spec fn commands_bytes(cs: Seq<Command>) -> Seq<u8>
    decreases cs.len(),
{
    if cs.len() == 0 {
        seq![]
    } else {
        commands_bytes(cs.drop_last()) + command_bytes(cs.last())
    }
}

/// The content a block id is computed over (every field but the id, the signature and the
/// local flags).
pub open spec fn block_preimage(b: Block) -> Seq<u8> {
    b.parent@ + le_bytes(b.height as nat, 8) + le_bytes(b.epoch as nat, 8) + le_bytes(
        b.shard_group as nat,
        4,
    ) + b.proposed_by@ + le_bytes(b.commands@.len(), 8) + commands_bytes(b.commands@)
        + b.justify.qc_id@ + b.merkle_root@ + seq![network_byte(b.network)] + le_bytes(
        b.timestamp as nat,
        8,
    ) + b.base_layer_block_hash@ + le_bytes(b.base_layer_block_height as nat, 8) + le_bytes(
        b.total_leader_fee as nat,
        8,
    ) + seq![if b.is_dummy { 1u8 } else { 0u8 }]
}

fn push_atom(out: &mut Vec<u8>, a: &TransactionAtom)
    ensures
        final(out)@ == old(out)@ + atom_bytes(*a),
{
    let ghost start = out@;
    push_hash(out, &a.id);
    out.push(a.decision.as_u8());
    push_le(out, a.transaction_fee, 8);
    match a.leader_fee {
        None => {
            out.push(0u8);
        },
        Some(f) => {
            out.push(1u8);
            push_le(out, f, 8);
        },
    }
    assert(out@ =~= start + atom_bytes(*a));
}

fn push_command(out: &mut Vec<u8>, c: &Command)
    ensures
        final(out)@ == old(out)@ + command_bytes(*c),
{
    let ghost start = out@;
    match c {
        Command::Prepare(a) => {
            out.push(0u8);
            push_atom(out, a);
        },
        Command::LocalPrepare(a) => {
            out.push(1u8);
            push_atom(out, a);
        },
        Command::AllPrepare(a) => {
            out.push(2u8);
            push_atom(out, a);
        },
        Command::SomePrepare(a) => {
            out.push(3u8);
            push_atom(out, a);
        },
        Command::LocalAccept(a) => {
            out.push(4u8);
            push_atom(out, a);
        },
        Command::AllAccept(a) => {
            out.push(5u8);
            push_atom(out, a);
        },
        Command::SomeAccept(a) => {
            out.push(6u8);
            push_atom(out, a);
        },
        Command::ForeignProposal(f) => {
            out.push(7u8);
            push_hash(out, &f.block_id);
            push_le(out, f.shard_group as u64, 4);
        },
        Command::EndEpoch => {
            out.push(8u8);
        },
    }
    assert(out@ =~= start + command_bytes(*c));
}

/// Writes the bytes a block id is computed over.
pub fn encode_block_preimage(b: &Block) -> (r: Vec<u8>)
    ensures
        r@ == block_preimage(*b),
{
    let mut out: Vec<u8> = Vec::new();
    push_hash(&mut out, &b.parent);
    push_le(&mut out, b.height, 8);
    push_le(&mut out, b.epoch, 8);
    push_le(&mut out, b.shard_group as u64, 4);
    push_hash(&mut out, &b.proposed_by);
    push_le(&mut out, b.commands.len() as u64, 8);
    let ghost head = out@;
    let mut i: usize = 0;
    while i < b.commands.len()
        invariant
            i <= b.commands@.len(),
            out@ == head + commands_bytes(b.commands@.subrange(0, i as int)),
        decreases b.commands@.len() - i,
    {
        push_command(&mut out, &b.commands[i]);
        assert(b.commands@.subrange(0, i as int + 1).drop_last() =~= b.commands@.subrange(0, i as int));
        assert(out@ =~= head + commands_bytes(b.commands@.subrange(0, i as int + 1)));
        i = i + 1;
    }
    assert(b.commands@.subrange(0, b.commands@.len() as int) =~= b.commands@);
    push_hash(&mut out, &b.justify.qc_id);
    push_hash(&mut out, &b.merkle_root);
    out.push(b.network.as_byte());
    push_le(&mut out, b.timestamp, 8);
    push_hash(&mut out, &b.base_layer_block_hash);
    push_le(&mut out, b.base_layer_block_height, 8);
    push_le(&mut out, b.total_leader_fee, 8);
    out.push(if b.is_dummy { 1u8 } else { 0u8 });
    assert(out@ =~= block_preimage(*b));
    out
}

} // verus!

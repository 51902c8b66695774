use std::collections::BTreeMap;

use vstd::prelude::*;

verus! {

/// An event emitted by a template, as the indexer serves it.
#[derive(Clone, Debug)]
pub struct Event {
    pub substate_id: Option<String>,
    pub template_address: [u8; 32],
    pub tx_hash: [u8; 32],
    pub topic: String,
    pub payload: BTreeMap<String, String>,
}

/// The root of the indexer's event queries.
pub struct EventQuery;

/// Asks the swarm daemon for its validator nodes.
#[derive(Clone, Debug)]
pub struct ListValidatorNodesRequest {}

/// The swarm daemon's validator nodes.
#[derive(Clone, Debug)]
pub struct ListValidatorNodesResponse {
    pub nodes: Vec<ValidatorNodeInfo>,
}

/// Where a validator node can be reached, and whether it runs.
#[derive(Clone, Debug)]
pub struct ValidatorNodeInfo {
    pub name: String,
    pub web: String,
    pub jrpc: String,
    pub is_running: bool,
}

/// Asks the swarm daemon for a new validator node.
#[derive(Clone, Debug)]
pub struct ValidatorNodeCreateRequest {
    pub name: String,
    pub register: bool,
}

/// The instance the swarm daemon created.
#[derive(Clone, Copy, Debug)]
pub struct ValidatorNodeCreateResponse {
    pub instance_id: u32,
}

/// A commitment value encrypted for its receiver.
#[derive(Clone, Copy, Debug, PartialEq, Eq, Hash)]
pub struct EncryptedValue(pub [u8; 24]);

/// A confidential output: its commitment and what the receiver needs to open it.
#[derive(Clone, Copy, Debug)]
pub struct ConfidentialStatement {
    pub commitment: [u8; 32],
    /// Public nonce (R) used to generate the commitment mask.
    pub sender_public_nonce: [u8; 32],
    /// The value encrypted for the receiver.
    pub encrypted_value: EncryptedValue,
    pub minimum_value_promise: u64,
}

/// Proof of a confidential output, with optional change and a revealed amount.
#[derive(Clone, Debug)]
pub struct ConfidentialOutputProof {
    pub output_statement: ConfidentialStatement,
    pub change_statement: Option<ConfidentialStatement>,
    pub range_proof: Vec<u8>,
    pub revealed_amount: i64,
}

/// Proof of a confidential withdrawal: the spent commitments, the new outputs and the balance
/// proof signature.
#[derive(Clone, Debug)]
pub struct ConfidentialWithdrawProof {
    pub inputs: Vec<[u8; 32]>,
    pub output_proof: ConfidentialOutputProof,
    pub balance_proof: [u8; 64],
}

/// Copies a slice of exactly `SZ` bytes into an array.
pub fn copy_fixed<const SZ: usize>(bytes: &[u8]) -> (r: [u8; SZ])
    requires
        bytes@.len() == SZ,
    ensures
        r@ == bytes@,
{
    let mut out = [0u8; SZ];
    let mut i: usize = 0;
    while i < SZ
        invariant
            i <= SZ,
            bytes@.len() == SZ,
            out@.len() == SZ,
            forall|j: int| 0 <= j < i ==> out@[j] == bytes@[j],
        decreases SZ - i,
    {
        out[i] = bytes[i];
        i = i + 1;
    }
    assert(out@ =~= bytes@);
    out
}

/// The decimal digits of `n`, most significant first.
pub open spec fn decimal(n: nat) -> Seq<char>
    decreases n,
{
    if n < 10 {
        seq![digit_char(n)]
    } else {
        decimal(n / 10) + seq![digit_char(n % 10)]
    }
}

pub open spec fn digit_char(d: nat) -> char {
    if d == 0 { '0' }
    else if d == 1 { '1' }
    else if d == 2 { '2' }
    else if d == 3 { '3' }
    else if d == 4 { '4' }
    else if d == 5 { '5' }
    else if d == 6 { '6' }
    else if d == 7 { '7' }
    else if d == 8 { '8' }
    else { '9' }
}

/// The URL of a local port: `http://localhost:` and the port in decimal.
pub open spec fn localhost_url_spec(port: u16) -> Seq<char> {
    seq!['h', 't', 't', 'p', ':', '/', '/', 'l', 'o', 'c', 'a', 'l', 'h', 'o', 's', 't', ':'] + decimal(
        port as nat,
    )
}

/// Relies on std's `ToString` through `Display` for `u16`, which writes the number in decimal
/// without sign or padding.
#[verifier::external_body]
fn decimal_string(n: u16) -> (r: String)
    ensures
        r@ == decimal(n as nat),
{
    n.to_string()
}

/// Relies on std's `String::push_str`: the text is appended to the string.
#[verifier::external_body]
fn append_str(s: String, t: &str) -> (r: String)
    ensures
        r@ == s@ + t@,
{
    let mut s = s;
    s.push_str(t);
    s
}

/// The URL of a local port.
fn localhost_url(port: u16) -> (r: String)
    ensures
        r@ == localhost_url_spec(port),
{
    let prefix = "http://localhost:".to_owned();
    proof {
        reveal_strlit("http://localhost:");
        assert(prefix@ =~= seq!['h', 't', 't', 'p', ':', '/', '/', 'l', 'o', 'c', 'a', 'l', 'h', 'o', 's', 't', ':']);
    }
    let digits = decimal_string(port);
    append_str(prefix, digits.as_str())
}

/// The port registered under `name`, the first one if there are several.
pub open spec fn port_named(ports: Seq<(String, u16)>, name: Seq<char>) -> Option<u16>
    decreases ports.len(),
{
    if ports.len() == 0 {
        None
    } else if ports[0].0@ == name {
        Some(ports[0].1)
    } else {
        port_named(ports.subrange(1, ports.len() as int), name)
    }
}

fn find_port(ports: &Vec<(String, u16)>, name: &str) -> (r: Option<u16>)
    ensures
        r == port_named(ports@, name@),
{
    let target = name.to_owned();
    let mut i: usize = 0;
    assert(ports@.subrange(0, ports@.len() as int) =~= ports@);
    while i < ports.len()
        invariant
            i <= ports@.len(),
            target@ == name@,
            port_named(ports@, name@) == port_named(ports@.subrange(i as int, ports@.len() as int), name@),
        decreases ports@.len() - i,
    {
        let ghost tail = ports@.subrange(i as int, ports@.len() as int);
        assert(tail[0] == ports@[i as int]);
        assert(tail.subrange(1, tail.len() as int) =~= ports@.subrange(i as int + 1, ports@.len() as int));
        if ports[i].0 == target {
            return Some(ports[i].1);
        }
        i = i + 1;
    }
    None
}

/// A validator node has no port of this name.
#[derive(Clone, Copy, Debug, PartialEq, Eq)]
pub struct MissingPort {
    pub port_name: &'static str,
}

/// Where a validator node is reached: its `web` and `jrpc` ports as local URLs. A node without
/// one of those ports is reported, the `web` port first.
pub fn validator_node_info(name: String, ports: &Vec<(String, u16)>, is_running: bool) -> (r: Result<
    ValidatorNodeInfo,
    MissingPort,
>)
    ensures
        port_named(ports@, seq!['w', 'e', 'b']) is None ==> r == Err::<ValidatorNodeInfo, MissingPort>(
            MissingPort { port_name: "web" },
        ),
        port_named(ports@, seq!['w', 'e', 'b']) is Some && port_named(ports@, seq!['j', 'r', 'p', 'c']) is None
            ==> r == Err::<ValidatorNodeInfo, MissingPort>(MissingPort { port_name: "jrpc" }),
        r matches Ok(info) ==> info.name == name && info.is_running == is_running && info.web@
            == localhost_url_spec(port_named(ports@, seq!['w', 'e', 'b'])->Some_0) && info.jrpc@
            == localhost_url_spec(port_named(ports@, seq!['j', 'r', 'p', 'c'])->Some_0),
        port_named(ports@, seq!['w', 'e', 'b']) is Some && port_named(ports@, seq!['j', 'r', 'p', 'c']) is Some
            ==> r is Ok,
{
    proof {
        reveal_strlit("web");
        reveal_strlit("jrpc");
        assert("web"@ =~= seq!['w', 'e', 'b']);
        assert("jrpc"@ =~= seq!['j', 'r', 'p', 'c']);
    }
    let web_port = match find_port(ports, "web") {
        Some(p) => p,
        None => {
            return Err(MissingPort { port_name: "web" });
        },
    };
    let jrpc_port = match find_port(ports, "jrpc") {
        Some(p) => p,
        None => {
            return Err(MissingPort { port_name: "jrpc" });
        },
    };
    Ok(ValidatorNodeInfo { name, web: localhost_url(web_port), jrpc: localhost_url(jrpc_port), is_running })
}

/// The address a random draw picks in `[start, end)`: `start + rand % (end - start)`.
pub fn address_in_range(start: u128, end: u128, rand: u128) -> (r: u128)
    requires
        start < end,
    ensures
        r as int == start as int + (rand as int) % (end as int - start as int),
        start <= r < end,
{
    let span = end - start;
    let offset = rand % span;
    assert(offset < span) by (nonlinear_arith)
        requires
            offset == rand % span,
            span > 0,
    ;
    start + offset
}

} // verus!

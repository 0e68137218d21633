//! Connection settings and the small decisions of the network loops: which
//! role this process takes, the socket timeout, and how long to wait before
//! the next transfer.

use vstd::prelude::*;
use vstd::string::StrSliceExecFns;

verus! {

/// Snapshot port: the server sends, clients and spectators receive.
pub const SNAPSHOT_PORT: u16 = 9942;

/// Input port: clients send, the server receives (and first sends the handshake).
pub const INPUT_PORT: u16 = 9949;

/// Socket settings, read once from the configuration file.
#[derive(Debug, Clone, Copy, PartialEq, Eq, Structural)]
pub struct NetSetup {
    /// Milliseconds between two transfers; at least one.
    pub transfer_ms: u64,
    /// Read and write timeout in milliseconds; zero for none.
    pub timeout_ms: u64,
    pub packet_ttl: u32,
    pub non_blocking: bool,
    pub nodelay: bool,
}

/// What this process is, by its command line.
#[derive(Debug, Clone, Copy, PartialEq, Eq, Structural)]
pub enum Role {
    /// Runs the game and accepts connections.
    Server,
    /// Steers a ship in a remote game.
    Client,
    /// Watches a remote game without a ship.
    Spectator,
}

impl NetSetup {
    /// The settings written when no configuration exists.
    pub fn default() -> (r: NetSetup)
        ensures
            r == (NetSetup { transfer_ms: 33, timeout_ms: 1000, packet_ttl: 60, non_blocking: false, nodelay: true }),
    {
        NetSetup { transfer_ms: 33, timeout_ms: 1000, packet_ttl: 60, non_blocking: false, nodelay: true }
    }

    /// The settings as read from a file: a transfer period of zero becomes one.
    pub fn normalized(self) -> (r: NetSetup)
        ensures
            r == (NetSetup { transfer_ms: if self.transfer_ms == 0 { 1 } else { self.transfer_ms }, ..self }),
    {
        NetSetup { transfer_ms: if self.transfer_ms == 0 { 1 } else { self.transfer_ms }, ..self }
    }

    /// The socket timeout: none when `timeout_ms` is zero.
    pub fn timeout(&self) -> (r: Option<u64>)
        ensures
            r == (if self.timeout_ms > 0 { Some(self.timeout_ms) } else { None::<u64> }),
    {
        if self.timeout_ms > 0 { Some(self.timeout_ms) } else { None }
    }
}

/// How long a loop sleeps so that its transfers come every `transfer_ms`
/// milliseconds: what is left of the period after `elapsed_ms` of work.
pub fn wait_ms(elapsed_ms: u64, transfer_ms: u64) -> (r: u64)
    ensures
        r == (if transfer_ms > elapsed_ms { transfer_ms - elapsed_ms } else { 0 }),
        elapsed_ms + r >= transfer_ms,
{
    if transfer_ms > elapsed_ms { transfer_ms - elapsed_ms } else { 0 }
}

pub open spec fn role_of(args: Seq<Seq<char>>) -> Role {
    if args.len() <= 2 {
        Role::Server
    } else if args[1].len() > 0 && args[1][0] == 's' {
        Role::Spectator
    } else {
        Role::Client
    }
}

/// The role that the command line asks for: with at most one argument this
/// process is the server; with two it connects to the address in the second,
/// as a spectator when the first starts with `s`, else as a client.
pub fn select_role(args: &Vec<String>) -> (r: Role)
    ensures
        r == role_of(args@.map_values(|s: String| s@)),
{
    let ghost a = args@.map_values(|s: String| s@);
    if args.len() <= 2 {
        return Role::Server;
    }
    let first = args[1].as_str();
    assert(first@ == a[1]);
    if first.unicode_len() > 0 && first.get_char(0) == 's' {
        Role::Spectator
    } else {
        Role::Client
    }
}

} // verus!

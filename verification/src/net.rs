//! The network as a machine without a network card has it, and the texts of addresses.
use crate::c_fastpath;
use crate::fixed;
use crate::fixed::InlineString;
use crate::lines;
use crate::lines::Line;
use crate::text;
use vstd::prelude::*;
use vstd::string::StringSliceAdditionalSpecFns;

verus! {

pub const TCP_MSS: usize = 1400;

#[derive(Clone, Copy, Debug, PartialEq, Eq)]
pub struct NetStatus {
    pub mac: [u8; 6],
    pub ip: [u8; 4],
    pub netmask: [u8; 4],
    pub gateway: [u8; 4],
    pub dns: [u8; 4],
    pub io_base: u16,
    pub up: bool,
}

#[derive(Clone, Copy, Debug, PartialEq, Eq)]
pub struct PingReply {
    pub from: [u8; 4],
    pub seq: u16,
    pub ttl: u8,
    pub bytes: usize,
}

#[derive(Clone, Copy, Debug, PartialEq, Eq, Structural)]
pub enum NetErr {
    Again,
    Down,
    Exhausted,
    Refused,
    TimedOut,
    Reset,
}

/// The message of a ping that no card can send.
pub open spec fn no_card() -> &'static str {
    "net: no ARM NIC driver yet"
}

/// Whether there is a network card: there is none.
pub fn init() -> (up: bool)
    ensures
        !up,
{
    false
}

pub fn status() -> (status: Option<NetStatus>)
    ensures
        status is None,
{
    None
}

pub fn ping(target: [u8; 4]) -> (reply: Result<PingReply, &'static str>)
    ensures
        reply == Err::<PingReply, &'static str>(no_card()),
{
    Err("net: no ARM NIC driver yet")
}

pub fn parse_ipv4(text: &str) -> (address: Option<[u8; 4]>)
    ensures
        match address {
            Some(parts) => c_fastpath::ipv4_address(text.spec_bytes()) == Some(parts@),
            None => c_fastpath::ipv4_address(text.spec_bytes()) is None,
        },
{
    c_fastpath::parse_ipv4(text)
}

/// The pieces of an address in dotted decimal.
pub open spec fn ipv4_pieces(ip: Seq<u8>) -> Seq<Seq<u8>> {
    seq![
        fixed::decimal(ip[0] as nat),
        text::literal("."),
        fixed::decimal(ip[1] as nat),
        text::literal("."),
        fixed::decimal(ip[2] as nat),
        text::literal("."),
        fixed::decimal(ip[3] as nat),
    ]
}

/// Writes an address in dotted decimal.
pub fn format_ipv4<const N: usize>(ip: [u8; 4], out: &mut InlineString<N>)
    ensures
        final(out)@ == lines::filled(ipv4_pieces(ip@), N as nat),
{
    let line = Line::new().number(ip[0] as u64).text(".").number(ip[1] as u64).text(".").number(
        ip[2] as u64,
    ).text(".").number(ip[3] as u64);
    assert(line@ =~= ipv4_pieces(ip@));
    *out = line.fill();
}

/// The pieces of a hardware address in hexadecimal.
pub open spec fn mac_pieces(mac: Seq<u8>) -> Seq<Seq<u8>> {
    let colon = text::literal(":");
    let empty = Seq::<Seq<u8>>::empty();
    let first = (empty + lines::byte_pieces(mac[0])).push(colon);
    let second = (first + lines::byte_pieces(mac[1])).push(colon);
    let third = (second + lines::byte_pieces(mac[2])).push(colon);
    let fourth = (third + lines::byte_pieces(mac[3])).push(colon);
    let fifth = (fourth + lines::byte_pieces(mac[4])).push(colon);
    fifth + lines::byte_pieces(mac[5])
}

/// Writes a hardware address in hexadecimal.
pub fn format_mac<const N: usize>(mac: [u8; 6], out: &mut InlineString<N>)
    ensures
        final(out)@ == lines::filled(mac_pieces(mac@), N as nat),
{
    let line = Line::new().byte(mac[0]).text(":").byte(mac[1]).text(":").byte(mac[2]).text(
        ":",
    ).byte(mac[3]).text(":").byte(mac[4]).text(":").byte(mac[5]);
    *out = line.fill();
}

/// How many packets were taken in: none.
pub fn pump() -> (count: usize)
    ensures
        count == 0,
{
    0
}

pub fn tcp_connect(target: [u8; 4], port: u16, timeout_ms: u64) -> (result: Result<usize, NetErr>)
    ensures
        result == Err::<usize, NetErr>(NetErr::Down),
{
    Err(NetErr::Down)
}

pub fn tcp_send(connection: usize, data: &[u8]) -> (result: Result<usize, NetErr>)
    ensures
        result == Err::<usize, NetErr>(NetErr::Down),
{
    Err(NetErr::Down)
}

pub fn tcp_recv(connection: usize, out: &mut [u8]) -> (result: Result<usize, NetErr>)
    ensures
        result == Err::<usize, NetErr>(NetErr::Down),
        final(out)@ == old(out)@,
{
    Err(NetErr::Down)
}

pub fn tcp_connected(connection: usize) -> (connected: bool)
    ensures
        !connected,
{
    false
}

pub fn tcp_readable(connection: usize) -> (readable: bool)
    ensures
        !readable,
{
    false
}

pub fn tcp_close(connection: usize) -> (result: Result<(), NetErr>)
    ensures
        result == Err::<(), NetErr>(NetErr::Down),
{
    Err(NetErr::Down)
}

} // verus!

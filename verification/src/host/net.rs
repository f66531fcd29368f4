//! The network as an interpreted program sees it.

use smoltcp::wire::Ipv4Address;
use vstd::prelude::*;
use vstd::utf8::encode_utf8;
use crate::bytes::{bits32, le32, push_all, unsigned32};
use crate::host::mem::{guest_write_u32, write_errno, written};
use crate::host::reply::{whole, write_text};
use crate::host::state::{FdEntry, RuntimeState};
use crate::suspend::{HostCall, SuspendReason};
use crate::text::{decimal, hex, push_decimal, push_hex};

verus! {

/// Invalid argument.
pub const EINVAL: i32 = 22;

/// No interface, or no socket.
pub const ENODEV: i32 = 8;

/// Too many sockets or descriptors.
pub const EMFILE: i32 = 24;

/// The first of the ports that a connection begins from.
pub const FIRST_PORT: u16 = 49152;

/// An address in the usual notation, as ASCII.
pub open spec fn dotted(a: Seq<u8>) -> Seq<u8> {
    decimal(a[0] as nat).push(46) + decimal(a[1] as nat).push(46) + decimal(a[2] as nat).push(46) + decimal(
        a[3] as nat,
    )
}

/// `smoltcp::wire::Ipv4Address`, made by `new` and shown by `Display`: the four bytes in
/// decimal with dots between them.
#[verifier::external_body]
pub(crate) fn ipv4_text(a: [u8; 4]) -> (r: Vec<u8>)
    ensures
        r@ == dotted(a@),
{
    format!("{}", Ipv4Address::new(a[0], a[1], a[2], a[3])).into_bytes()
}

/// An address with the length of its network's prefix.
#[derive(Clone, Copy)]
pub struct Cidr {
    pub addr: [u8; 4],
    pub prefix: u8,
}

/// A way out of the network.
#[derive(Clone, Copy)]
pub struct Route {
    pub prefix: u8,
    pub via: [u8; 4],
}

/// The interface to the wire.
pub struct Ethernet {
    pub addrs: Vec<Cidr>,
    pub mac: [u8; 6],
    pub routes: Vec<Route>,
}

/// The interfaces: the loopback's addresses, and the wire's interface where there is one.
pub struct Interfaces {
    pub lo: Vec<Cidr>,
    pub eth: Option<Ethernet>,
}

/// An address with its prefix.
pub open spec fn cidr_text(c: Cidr) -> Seq<u8> {
    dotted(c.addr@).push(47) + decimal(c.prefix as nat)
}

/// The lines of the first `n` addresses of the loopback.
pub open spec fn lo_lines(s: Seq<Cidr>, n: int) -> Seq<u8>
    decreases n,
{
    if n <= 0 {
        Seq::empty()
    } else {
        lo_lines(s, n - 1) + encode_utf8("lo    "@) + cidr_text(s[n - 1]).push(10)
    }
}

/// The last of the first `n` routes that leads everywhere.
pub open spec fn gateway(s: Seq<Route>, n: int) -> Option<Seq<u8>>
    decreases n,
{
    if n <= 0 {
        None
    } else if s[n - 1].prefix == 0 {
        Some(s[n - 1].via@)
    } else {
        gateway(s, n - 1)
    }
}

/// The bytes of a hardware address with colons between them.
pub open spec fn mac_text(m: Seq<u8>) -> Seq<u8> {
    hex(m[0] as nat, 2).push(58) + hex(m[1] as nat, 2).push(58) + hex(m[2] as nat, 2).push(58) + hex(
        m[3] as nat,
        2,
    ).push(58) + hex(m[4] as nat, 2).push(58) + hex(m[5] as nat, 2)
}

/// The line of the wire's interface: its first address, its hardware address, and its
/// gateway where it has one.
pub open spec fn eth_line(e: Ethernet) -> Seq<u8> {
    let addr = if e.addrs@.len() > 0 { cidr_text(e.addrs@[0]) } else { encode_utf8("0.0.0.0/0"@) };
    let gw = gateway_text(gateway(e.routes@, e.routes@.len() as int));
    encode_utf8("eth0  "@) + addr + encode_utf8(" mac="@) + mac_text(e.mac@) + gw.push(10)
}

/// The lines of the interfaces; none where there is no network.
pub open spec fn iface_text(n: Option<Interfaces>) -> Seq<u8> {
    match n {
        None => Seq::empty(),
        Some(n) => lo_lines(n.lo@, n.lo@.len() as int) + match n.eth {
            Some(e) => eth_line(e),
            None => Seq::empty(),
        },
    }
}

fn push_cidr(out: &mut Vec<u8>, c: &Cidr)
    ensures
        final(out)@ == old(out)@ + cidr_text(*c),
{
    let a: Vec<u8> = ipv4_text(c.addr);
    push_all(out, a.as_slice());
    out.push(47);
    push_decimal(out, c.prefix as u64);
    assert(out@ =~= old(out)@ + cidr_text(*c));
}

fn push_mac(out: &mut Vec<u8>, m: &[u8; 6])
    ensures
        final(out)@ == old(out)@ + mac_text(m@),
{
    push_hex(out, m[0] as u64, 2);
    out.push(58);
    push_hex(out, m[1] as u64, 2);
    out.push(58);
    push_hex(out, m[2] as u64, 2);
    out.push(58);
    push_hex(out, m[3] as u64, 2);
    out.push(58);
    push_hex(out, m[4] as u64, 2);
    out.push(58);
    push_hex(out, m[5] as u64, 2);
    assert(out@ =~= old(out)@ + mac_text(m@));
}

fn find_gateway(routes: &Vec<Route>) -> (r: Option<[u8; 4]>)
    ensures
        match r {
            Some(g) => gateway(routes@, routes@.len() as int) == Some(g@),
            None => gateway(routes@, routes@.len() as int) is None,
        },
{
    let mut gw: Option<[u8; 4]> = None;
    let mut i: usize = 0;
    while i < routes.len()
        invariant
            i <= routes@.len(),
            match gw {
                Some(g) => gateway(routes@, i as int) == Some(g@),
                None => gateway(routes@, i as int) is None,
            },
        decreases routes@.len() - i,
    {
        if routes[i].prefix == 0 {
            gw = Some(routes[i].via);
        }
        i += 1;
    }
    gw
}

/// The text of a gateway.
pub open spec fn gateway_text(g: Option<Seq<u8>>) -> Seq<u8> {
    match g {
        Some(g) => encode_utf8(" gw="@) + dotted(g),
        None => Seq::empty(),
    }
}

fn push_gateway(out: &mut Vec<u8>, routes: &Vec<Route>)
    ensures
        final(out)@ == old(out)@ + gateway_text(gateway(routes@, routes@.len() as int)),
{
    match find_gateway(routes) {
        Some(g) => {
            push_all(out, " gw=".as_bytes());
            let a: Vec<u8> = ipv4_text(g);
            push_all(out, a.as_slice());
        },
        None => {},
    }
    assert(out@ =~= old(out)@ + gateway_text(gateway(routes@, routes@.len() as int)));
}

fn push_eth(out: &mut Vec<u8>, e: &Ethernet)
    ensures
        final(out)@ == old(out)@ + eth_line(*e),
{
    push_all(out, "eth0  ".as_bytes());
    if e.addrs.len() > 0 {
        push_cidr(out, &e.addrs[0]);
    } else {
        push_all(out, "0.0.0.0/0".as_bytes());
    }
    push_all(out, " mac=".as_bytes());
    push_mac(out, &e.mac);
    push_gateway(out, &e.routes);
    out.push(10);
    assert(out@ =~= old(out)@ + eth_line(*e));
}

/// `net_iface`: the lines of the interfaces.
pub fn ruos_net_iface(mem: &mut [u8], buf_ptr: i32, buf_len: i32, used_ptr: i32, net: &Option<Interfaces>) -> (r: i32)
    ensures
        (final(mem)@, r) == whole(old(mem)@, iface_text(*net), buf_ptr, buf_len, used_ptr),
{
    let mut text: Vec<u8> = Vec::new();
    if let Some(n) = net {
        let mut i: usize = 0;
        while i < n.lo.len()
            invariant
                i <= n.lo@.len(),
                text@ == lo_lines(n.lo@, i as int),
            decreases n.lo@.len() - i,
        {
            let ghost was = text@;
            push_all(&mut text, "lo    ".as_bytes());
            push_cidr(&mut text, &n.lo[i]);
            text.push(10);
            assert(text@ =~= was + encode_utf8("lo    "@) + cidr_text(n.lo@[i as int]).push(10));
            i += 1;
        }
        if let Some(e) = &n.eth {
            push_eth(&mut text, e);
        }
    }
    assert(text@ =~= iface_text(*net));
    write_text(mem, text.as_slice(), buf_ptr, buf_len, used_ptr)
}

/// The lowest byte of a number.
pub open spec fn low_byte(v: i32) -> u8 {
    (v % 256) as u8
}

/// The lowest byte of a number.
fn byte(v: i32) -> (r: u8)
    ensures
        r == low_byte(v),
{
    (bits32(v) % 256) as u8
}

/// An address whose bytes are the lowest bytes of four numbers.
pub open spec fn addr_of(a: i32, b: i32, c: i32, d: i32) -> Seq<u8> {
    seq![low_byte(a), low_byte(b), low_byte(c), low_byte(d)]
}

/// An address whose bytes are the lowest bytes of four numbers.
fn addr(a: i32, b: i32, c: i32, d: i32) -> (r: [u8; 4])
    ensures
        r@ == addr_of(a, b, c, d),
{
    let r: [u8; 4] = [byte(a), byte(b), byte(c), byte(d)];
    assert(r@ =~= addr_of(a, b, c, d));
    r
}

/// A fixed address for the wire's interface.
pub struct StaticAddr {
    pub cidr: Cidr,
    pub gw: Option<[u8; 4]>,
}

/// `net_set_static`: the new address, where the prefix is one, and there is an interface.
pub fn ruos_net_set_static(
    ip: (i32, i32, i32, i32),
    prefix: i32,
    gw: (i32, i32, i32, i32),
    gw_present: i32,
    has_iface: bool,
) -> (r: Result<StaticAddr, i32>)
    ensures
        if prefix < 0 || prefix > 32 {
            r == Err::<StaticAddr, i32>(EINVAL)
        } else if !has_iface {
            r == Err::<StaticAddr, i32>(ENODEV)
        } else {
            &&& r is Ok
            &&& r->Ok_0.cidr.addr@ == addr_of(ip.0, ip.1, ip.2, ip.3)
            &&& r->Ok_0.cidr.prefix == prefix
            &&& match r->Ok_0.gw {
                Some(g) => gw_present != 0 && g@ == addr_of(gw.0, gw.1, gw.2, gw.3),
                None => gw_present == 0,
            }
        },
{
    if prefix < 0 || prefix > 32 {
        return Err(EINVAL);
    }
    if !has_iface {
        return Err(ENODEV);
    }
    let cidr = Cidr { addr: addr(ip.0, ip.1, ip.2, ip.3), prefix: prefix as u8 };
    let gw: Option<[u8; 4]> = if gw_present != 0 { Some(addr(gw.0, gw.1, gw.2, gw.3)) } else { None };
    Ok(StaticAddr { cidr, gw })
}

/// `net_dhcp_renew`: the errno, and whether a client has to be started.
pub fn ruos_net_dhcp_renew(has_iface: bool, running: bool) -> (r: (i32, bool))
    ensures
        r == if !has_iface {
            (ENODEV, false)
        } else {
            (0i32, !running)
        },
{
    if !has_iface {
        (ENODEV, false)
    } else {
        (0, !running)
    }
}

/// `ping`: the program waits for the answer, a second where it does not say how long.
pub fn ruos_ping(ip: (i32, i32, i32, i32), timeout_ms: i32, latency_ms_ptr: i32) -> (r: HostCall)
    ensures
        r matches HostCall::Suspend(SuspendReason::Ping { target, timeout_ticks, latency_ms_ptr: p }) && {
            &&& target@ == addr_of(ip.0, ip.1, ip.2, ip.3)
            &&& timeout_ticks == (if timeout_ms <= 0 { 1000 } else { timeout_ms as int } + 9) / 10
            &&& p == unsigned32(latency_ms_ptr)
        },
{
    let ms: u64 = if timeout_ms <= 0 { 1000 } else { timeout_ms as u64 };
    let target: [u8; 4] = addr(ip.0, ip.1, ip.2, ip.3);
    let timeout_ticks: u64 = (ms + 9) / 10;
    HostCall::Suspend(SuspendReason::Ping { target, timeout_ticks, latency_ms_ptr: bits32(latency_ms_ptr) })
}

/// How many of the first `n` descriptors are sockets.
pub open spec fn sockets(fds: Seq<Option<FdEntry>>, n: int) -> nat
    decreases n,
{
    if n <= 0 {
        0
    } else {
        sockets(fds, n - 1) + if fds[n - 1] matches Some(FdEntry::Socket(_)) { 1nat } else { 0 }
    }
}

/// The first free descriptor from `from` on; the length where there is none.
pub open spec fn free_from(fds: Seq<Option<FdEntry>>, from: int) -> int
    decreases fds.len() - from,
{
    if from >= fds.len() {
        fds.len() as int
    } else if fds[from] is None {
        from
    } else {
        free_from(fds, from + 1)
    }
}

/// `tcp_dial`, the first part: whether a socket may be made.
pub fn tcp_dial_allowed(st: &RuntimeState, port: i32, max_sockets: usize) -> (r: i32)
    ensures
        r == if port <= 0 || port > 0xFFFF {
            EINVAL
        } else if sockets(st.fds@, st.fds@.len() as int) >= max_sockets {
            EMFILE
        } else {
            0
        },
{
    if port <= 0 || port > 0xFFFF {
        return EINVAL;
    }
    let mut n: usize = 0;
    let mut i: usize = 0;
    while i < st.fds.len()
        invariant
            i <= st.fds@.len(),
            n == sockets(st.fds@, i as int),
            n <= i,
        decreases st.fds@.len() - i,
    {
        if let Some(FdEntry::Socket(_)) = &st.fds[i] {
            n += 1;
        }
        i += 1;
    }
    if n >= max_sockets { EMFILE } else { 0 }
}

/// Gives an entry the first free descriptor from `from` on, or a new one.
pub fn place_entry(st: &mut RuntimeState, from: usize, e: FdEntry) -> (r: usize)
    ensures
        r == free_from(old(st).fds@, from as int),
        r <= old(st).fds@.len(),
        final(st).fds@ == if r < old(st).fds@.len() {
            old(st).fds@.update(r as int, Some(e))
        } else {
            old(st).fds@.push(Some(e))
        },
        *final(st) == (RuntimeState { fds: final(st).fds, ..*old(st) }),
{
    let i: usize = find_free(st, from);
    if i < st.fds.len() {
        st.fds[i] = Some(e);
    } else {
        st.fds.push(Some(e));
    }
    i
}

fn find_free(st: &RuntimeState, from: usize) -> (r: usize)
    ensures
        r == free_from(st.fds@, from as int),
        r <= st.fds@.len(),
{
    if from >= st.fds.len() {
        return st.fds.len();
    }
    let mut i: usize = from;
    while i < st.fds.len() && st.fds[i].is_some()
        invariant
            from <= i <= st.fds@.len(),
            free_from(st.fds@, i as int) == free_from(st.fds@, from as int),
        decreases st.fds@.len() - i,
    {
        i += 1;
    }
    i
}

/// `tcp_dial`, the second part: `sock` is the new socket, and `open` tells whether the
/// kernel could make it. The socket gets the first free descriptor, and the program waits
/// for the connection.
pub fn ruos_tcp_dial(
    st: &mut RuntimeState,
    mem: &mut [u8],
    ip: (i32, i32, i32, i32),
    port: u16,
    fd_out_ptr: i32,
    sock: usize,
    open: bool,
    max_fds: usize,
) -> (r: HostCall)
    requires
        old(st).fds@.len() <= i32::MAX,
    ensures
        ({
            let fd = free_from(old(st).fds@, 0);
            let full = fd == old(st).fds@.len();
            if !open {
                r == HostCall::Return(ENODEV) && *final(st) == *old(st) && final(mem)@ == old(mem)@
            } else if full && old(st).fds@.len() >= max_fds {
                r == HostCall::Return(EMFILE) && *final(st) == *old(st) && final(mem)@ == old(mem)@
            } else {
                &&& final(st).fds@ == if full {
                    old(st).fds@.push(Some(FdEntry::Socket(sock)))
                } else {
                    old(st).fds@.update(fd, Some(FdEntry::Socket(sock)))
                }
                &&& *final(st) == (RuntimeState { fds: final(st).fds, ..*old(st) })
                &&& final(mem)@ == written(old(mem)@, fd_out_ptr, le32(fd as u32))
                &&& if write_errno(old(mem)@, fd_out_ptr, le32(fd as u32)) != 0 {
                    r == HostCall::Return(write_errno(old(mem)@, fd_out_ptr, le32(fd as u32)))
                } else {
                    &&& r matches HostCall::Suspend(SuspendReason::SockConnect { sock: s, addr, port: p, local_port })
                    &&& s == sock && addr@ == addr_of(ip.0, ip.1, ip.2, ip.3) && p == port
                    &&& local_port == FIRST_PORT + sock % 16384
                }
            }
        }),
{
    if !open {
        return HostCall::Return(ENODEV);
    }
    let free: usize = find_free(st, 0);
    if free == st.fds.len() && st.fds.len() >= max_fds {
        return HostCall::Return(EMFILE);
    }
    let fd: usize = place_entry(st, 0, FdEntry::Socket(sock));
    if let Err(e) = guest_write_u32(mem, fd_out_ptr, fd as u32) {
        return HostCall::Return(e);
    }
    let local_port: u16 = FIRST_PORT + (sock % 16384) as u16;
    let addr: [u8; 4] = addr(ip.0, ip.1, ip.2, ip.3);
    HostCall::Suspend(SuspendReason::SockConnect { sock, addr, port, local_port })
}

} // verus!

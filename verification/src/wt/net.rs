//! The network as a program with a window sees it: nothing waits.
//!
//! A program asks, and asks again in a later frame whether there is an answer.

use vstd::prelude::*;
use vstd::utf8::{decode_utf8, valid_utf8};
use crate::text::utf8;
use crate::wt::mem::{fits, read, stored};

verus! {

/// The longest name that is looked up.
pub const MAX_NAME: i32 = 253;

/// The first of the ports that a connection begins from.
pub const FIRST_PORT: u16 = 49152;

/// How many such ports there are.
pub const PORTS: u32 = 16384;

/// A name that is being looked up.
#[derive(Clone, Copy)]
pub enum Slot {
    Pending,
    Done([u8; 4]),
    Failed,
}

/// The names that are being looked up, and the answers that nobody asked for yet, by the
/// number that the program was given.
pub struct Resolves {
    pub slots: Vec<Option<Slot>>,
}

/// The first free number; the number of slots where none is free.
pub open spec fn free_slot(s: Seq<Option<Slot>>, from: int) -> int
    decreases s.len() - from,
{
    if from >= s.len() {
        s.len() as int
    } else if s[from] is None {
        from
    } else {
        free_slot(s, from + 1)
    }
}

/// The name that a program wants looked up.
pub open spec fn wanted_name(mem: Seq<u8>, ptr: u32, len: i32) -> Option<Seq<char>> {
    if 0 < len <= MAX_NAME && fits(ptr, len as int, mem.len() as int) && valid_utf8(
        mem.subrange(ptr as int, ptr + len),
    ) {
        Some(decode_utf8(mem.subrange(ptr as int, ptr + len)))
    } else {
        None
    }
}

/// Reads the name that a program wants looked up. A name that is empty or too long, does not
/// lie in the program's memory, or is no text is refused.
pub fn resolve_name(mem: &[u8], name_ptr: u32, name_len: i32) -> (r: Option<String>)
    ensures
        match r {
            Some(s) => wanted_name(mem@, name_ptr, name_len) == Some(s@),
            None => wanted_name(mem@, name_ptr, name_len) is None,
        },
{
    if name_len <= 0 || name_len > MAX_NAME {
        return None;
    }
    match read(mem, name_ptr, name_len as u32) {
        None => None,
        Some(b) => utf8(b),
    }
}

impl Resolves {
    /// No names.
    pub fn new() -> (r: Self)
        ensures
            r.slots@.len() == 0,
    {
        Resolves { slots: Vec::new() }
    }

    /// Takes a number for a name that is about to be looked up.
    pub fn claim(&mut self) -> (r: usize)
        ensures
            r == free_slot(old(self).slots@, 0),
            r <= old(self).slots@.len(),
            final(self).slots@ == if r < old(self).slots@.len() {
                old(self).slots@.update(r as int, Some(Slot::Pending))
            } else {
                old(self).slots@.push(Some(Slot::Pending))
            },
    {
        let mut i: usize = 0;
        while i < self.slots.len() && self.slots[i].is_some()
            invariant
                i <= self.slots@.len(),
                self.slots@ == old(self).slots@,
                free_slot(self.slots@, i as int) == free_slot(self.slots@, 0),
            decreases self.slots@.len() - i,
        {
            i += 1;
        }
        if i < self.slots.len() {
            self.slots[i] = Some(Slot::Pending);
        } else {
            self.slots.push(Some(Slot::Pending));
        }
        i
    }

    /// Gives a number back whose name could not be looked up at all.
    pub fn release(&mut self, slot: usize)
        requires
            slot < old(self).slots@.len(),
        ensures
            final(self).slots@ == old(self).slots@.update(slot as int, None),
    {
        self.slots[slot] = None;
    }

    /// Keeps the answer for a number: the first address, or that there is none.
    pub fn park(&mut self, slot: usize, addrs: &Vec<[u8; 4]>)
        ensures
            final(self).slots@.len() == old(self).slots@.len(),
            forall|i: int|
                0 <= i < old(self).slots@.len() && i != slot ==> #[trigger] final(self).slots@[i]
                    == old(self).slots@[i],
            slot < old(self).slots@.len() ==> final(self).slots@[slot as int] == Some(
                if addrs@.len() > 0 {
                    Slot::Done(addrs@[0])
                } else {
                    Slot::Failed
                },
            ),
    {
        if slot < self.slots.len() {
            let s: Slot = if addrs.len() > 0 { Slot::Done(addrs[0]) } else { Slot::Failed };
            self.slots[slot] = Some(s);
        }
    }

    /// `net.resolve_poll`: 1 and the address, 0 while there is no answer, -1 where there is
    /// none or the number is not one. A final answer frees the number.
    pub fn poll(&mut self, mem: &mut [u8], req: i32, ip_out: u32) -> (r: i32)
        ensures
            ({
                let s = old(self).slots@;
                let slot: Option<Slot> = if 0 <= req < s.len() { s[req as int] } else { None };
                match slot {
                    None => r == -1 && final(self).slots@ == s && final(mem)@ == old(mem)@,
                    Some(Slot::Pending) => r == 0 && final(self).slots@ == s && final(mem)@ == old(mem)@,
                    Some(Slot::Failed) => {
                        &&& r == -1
                        &&& final(self).slots@ == s.update(req as int, None)
                        &&& final(mem)@ == old(mem)@
                    },
                    Some(Slot::Done(ip)) => {
                        &&& r == if fits(ip_out, 4, old(mem)@.len() as int) { 1int } else { -1 }
                        &&& final(self).slots@ == s.update(req as int, None)
                        &&& final(mem)@ == stored(old(mem)@, ip_out, ip@)
                    },
                }
            }),
    {
        if req < 0 || req as usize >= self.slots.len() {
            return -1;
        }
        let i: usize = req as usize;
        match self.slots[i] {
            None => -1,
            Some(Slot::Pending) => 0,
            Some(Slot::Failed) => {
                self.slots[i] = None;
                -1
            },
            Some(Slot::Done(ip)) => {
                self.slots[i] = None;
                let b: Vec<u8> = vec![ip[0], ip[1], ip[2], ip[3]];
                assert(b@ =~= ip@);
                if crate::wt::mem::write(mem, ip_out, b.as_slice()) { 1 } else { -1 }
            },
        }
    }
}

/// The port that the `n`th connection begins from.
pub open spec fn port_of(n: u32) -> int {
    FIRST_PORT + n % PORTS
}

/// The port for the next connection. The ports are used in turn, so that the port of a
/// connection that was just closed is not used again soon.
pub fn next_port(n: &mut u32) -> (r: u16)
    ensures
        r == port_of(*old(n)),
        *final(n) == (if *old(n) == u32::MAX { 0 } else { *old(n) + 1 }),
{
    let p: u16 = FIRST_PORT + (*n % PORTS) as u16;
    *n = n.wrapping_add(1);
    p
}

/// As many connections in a row as there are ports begin from different ports, also where the
/// count starts over.
pub proof fn ports_differ(n: u32, k: int)
    requires
        0 < k < PORTS,
    ensures
        port_of(n) != port_of(((n + k) % 0x1_0000_0000) as u32),
        FIRST_PORT <= port_of(n) <= 65535,
{
    let m = ((n + k) % 0x1_0000_0000) as u32;
    if n + k < 0x1_0000_0000 {
        assert(m == n + k);
    } else {
        assert(m == n + k - 0x1_0000_0000);
    }
}

/// Whether a port can be dialled.
pub fn dial_allowed(port: i32) -> (r: bool)
    ensures
        r == (0 < port <= 0xFFFF),
{
    port > 0 && port <= 0xFFFF
}

/// `net.dial`: the socket, or an errno: -22 for a bad port, -8 where there is no socket, -111
/// where the connection could not begin.
pub fn dial_result(port: i32, sock: u32, open: bool, begun: bool) -> (r: i64)
    ensures
        r == if !(0 < port <= 0xFFFF) {
            -22
        } else if !open {
            -8
        } else if !begun {
            -111
        } else {
            sock as int
        },
{
    if !dial_allowed(port) {
        -22
    } else if !open {
        -8
    } else if !begun {
        -111
    } else {
        sock as i64
    }
}

/// `net.state`: what the kernel tells of a socket, and -1 where there is none.
pub fn state_result(sock: i32, state: Option<u8>) -> (r: i32)
    ensures
        r == match state {
            Some(s) if sock >= 0 => s as int,
            _ => -1,
        },
{
    if sock < 0 {
        return -1;
    }
    match state {
        Some(s) => s as i32,
        None => -1,
    }
}

/// How many bytes `net.read` asks of the socket; nothing where the call is refused.
pub fn read_want(sock: i32, len: i32, open: bool, rx_buf: usize) -> (r: Option<usize>)
    ensures
        r == if sock < 0 || len <= 0 || !open {
            None
        } else if len < rx_buf {
            Some(len as usize)
        } else {
            Some(rx_buf)
        },
{
    if sock < 0 || len <= 0 || !open {
        return None;
    }
    Some(
        if (len as usize) < rx_buf {
            len as usize
        } else {
            rx_buf
        },
    )
}

/// `net.read`: the number of bytes, 0 where the peer closed, -1 where nothing came yet, -2
/// where the bytes cannot be written. `data` is what came.
pub fn read_result(mem: &mut [u8], ptr: u32, data: Option<&Vec<u8>>) -> (r: i32)
    requires
        data matches Some(d) ==> d@.len() <= i32::MAX,
    ensures
        match data {
            None => r == -1 && final(mem)@ == old(mem)@,
            Some(d) => if d@.len() == 0 {
                r == 0 && final(mem)@ == old(mem)@
            } else {
                &&& r == if fits(ptr, d@.len() as int, old(mem)@.len() as int) { d@.len() as int } else { -2 }
                &&& final(mem)@ == stored(old(mem)@, ptr, d@)
            },
        },
{
    match data {
        None => -1,
        Some(d) => {
            if d.len() == 0 {
                return 0;
            }
            if !crate::wt::mem::write(mem, ptr, d.as_slice()) {
                return -2;
            }
            d.len() as i32
        },
    }
}

/// The bytes that `net.write` hands to the socket; nothing where the call is refused.
pub fn write_bytes(mem: &[u8], sock: i32, ptr: u32, len: i32, open: bool) -> (r: Option<Vec<u8>>)
    ensures
        if sock < 0 || len <= 0 || !open || !fits(ptr, len as int, mem@.len() as int) {
            r is None
        } else {
            r is Some && r->0@ == mem@.subrange(ptr as int, ptr + len)
        },
{
    if sock < 0 || len <= 0 || !open {
        return None;
    }
    read(mem, ptr, len as u32)
}

/// `net.write`: the number of bytes that the socket took, -1 where it took none, -2 where the
/// call was refused.
pub fn write_result(refused: bool, sent: Option<u32>) -> (r: i32)
    requires
        sent matches Some(n) ==> n <= i32::MAX,
    ensures
        r == if refused {
            -2
        } else {
            match sent {
                Some(n) => n as int,
                None => -1,
            }
        },
{
    if refused {
        return -2;
    }
    match sent {
        Some(n) => n as i32,
        None => -1,
    }
}

} // verus!

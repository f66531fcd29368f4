//! The calls by which a program lists, starts and stops services and units.
//!
//! Lists are lines of fields set apart by tabs.

use std::collections::VecDeque;
use vstd::prelude::*;
use vstd::utf8::encode_utf8;
use crate::bytes::push_all;
use crate::host::reply::{read_name, text_at, whole, write_text, ENOBUFS};
use crate::suspend::{HostCall, TRAP};
use crate::text::{decimal, push_decimal};

verus! {

/// What is known of a service.
pub struct ServiceInfo {
    pub name: String,
    pub status: String,
    pub pid: Option<u32>,
    pub runs: u32,
    pub path: String,
}

/// Why a service could not be started or stopped.
#[derive(Clone, Copy, PartialEq, Eq, Structural, Debug)]
pub enum ServiceError {
    NotFound,
    Already,
    NotSupported,
    Internal,
}

impl ServiceError {
    /// The number of an error.
    pub open spec fn number(self) -> i32 {
        match self {
            ServiceError::NotFound => 1,
            ServiceError::Already => 2,
            ServiceError::NotSupported => 3,
            ServiceError::Internal => 99,
        }
    }

    /// The number of an error.
    pub fn errno(self) -> (r: i32)
        ensures
            r == self.number(),
    {
        match self {
            ServiceError::NotFound => 1,
            ServiceError::Already => 2,
            ServiceError::NotSupported => 3,
            ServiceError::Internal => 99,
        }
    }
}

/// The number of a service's program, or a dash.
pub open spec fn pid_text(pid: Option<u32>) -> Seq<u8> {
    match pid {
        Some(p) => decimal(p as nat),
        None => seq![45u8],
    }
}

/// The line of a service: name, status, program, runs and path.
pub open spec fn service_line(i: ServiceInfo) -> Seq<u8> {
    encode_utf8(i.name@).push(9) + encode_utf8(i.status@).push(9) + pid_text(i.pid).push(9) + decimal(
        i.runs as nat,
    ).push(9) + encode_utf8(i.path@).push(10)
}

/// The lines of the first `n` services.
pub open spec fn service_lines(s: Seq<ServiceInfo>, n: int) -> Seq<u8>
    decreases n,
{
    if n <= 0 {
        Seq::empty()
    } else {
        service_lines(s, n - 1) + service_line(s[n - 1])
    }
}

/// Appends the line of a service.
pub fn format_entry(out: &mut Vec<u8>, info: &ServiceInfo)
    ensures
        final(out)@ == old(out)@ + service_line(*info),
{
    push_all(out, info.name.as_str().as_bytes());
    out.push(9);
    push_all(out, info.status.as_str().as_bytes());
    out.push(9);
    match info.pid {
        Some(p) => {
            push_decimal(out, p as u64);
        },
        None => {
            out.push(45);
        },
    }
    out.push(9);
    push_decimal(out, info.runs as u64);
    out.push(9);
    push_all(out, info.path.as_str().as_bytes());
    out.push(10);
    assert(out@ =~= old(out)@ + service_line(*info));
}

/// How a call ends whose text could not be written: the program is stopped.
pub open spec fn ended(errno: i32) -> HostCall {
    if errno == 0 || errno == ENOBUFS {
        HostCall::Return(errno)
    } else {
        HostCall::Exit(TRAP)
    }
}

fn end(errno: i32) -> (r: HostCall)
    ensures
        r == ended(errno),
{
    if errno == 0 || errno == ENOBUFS {
        HostCall::Return(errno)
    } else {
        HostCall::Exit(TRAP)
    }
}

/// `service_list`: all lines.
pub fn ruos_service_list(
    mem: &mut [u8],
    buf_ptr: i32,
    buf_len: i32,
    used_ptr: i32,
    services: &Vec<ServiceInfo>,
) -> (r: HostCall)
    ensures
        ({
            let w = whole(old(mem)@, service_lines(services@, services@.len() as int), buf_ptr, buf_len, used_ptr);
            final(mem)@ == w.0 && r == ended(w.1)
        }),
{
    let mut text: Vec<u8> = Vec::new();
    let mut i: usize = 0;
    while i < services.len()
        invariant
            i <= services@.len(),
            text@ == service_lines(services@, i as int),
        decreases services@.len() - i,
    {
        format_entry(&mut text, &services[i]);
        i += 1;
    }
    end(write_text(mem, text.as_slice(), buf_ptr, buf_len, used_ptr))
}

/// `service_status`: the line of one service; `info` is what is known of it.
pub fn ruos_service_status(
    mem: &mut [u8],
    buf_ptr: i32,
    buf_len: i32,
    used_ptr: i32,
    info: Option<&ServiceInfo>,
) -> (r: HostCall)
    ensures
        match info {
            None => r == HostCall::Return(1) && final(mem)@ == old(mem)@,
            Some(i) => {
                let w = whole(old(mem)@, service_line(*i), buf_ptr, buf_len, used_ptr);
                final(mem)@ == w.0 && r == ended(w.1)
            },
        },
{
    match info {
        None => HostCall::Return(1),
        Some(i) => {
            let mut text: Vec<u8> = Vec::new();
            format_entry(&mut text, i);
            assert(text@ =~= service_line(*i));
            end(write_text(mem, text.as_slice(), buf_ptr, buf_len, used_ptr))
        },
    }
}

/// How `service_start`, `unit_start`, `unit_stop` and `unit_enable` begin: the name.
pub fn service_name(mem: &[u8], name_ptr: i32, name_len: i32) -> (r: Result<String, HostCall>)
    ensures
        match text_at(mem@, name_ptr, name_len) {
            Some(s) => r is Ok && r->Ok_0@ == s,
            None => r == Err::<String, HostCall>(HostCall::Exit(TRAP)),
        },
{
    match read_name(mem, name_ptr, name_len) {
        Ok(s) => Ok(s),
        Err(code) => Err(HostCall::Exit(code)),
    }
}

/// How those calls end.
pub fn service_done(outcome: Result<(), ServiceError>) -> (r: i32)
    ensures
        r == match outcome {
            Ok(_) => 0,
            Err(e) => e.number(),
        },
{
    match outcome {
        Ok(_) => 0,
        Err(e) => e.errno(),
    }
}

/// `unit_status`: the text of one unit, where there is such a unit.
pub fn ruos_unit_status(mem: &mut [u8], buf_ptr: i32, buf_len: i32, used_ptr: i32, text: Option<&String>) -> (r: i32)
    ensures
        match text {
            None => r == 1 && final(mem)@ == old(mem)@,
            Some(t) => (final(mem)@, r) == whole(old(mem)@, encode_utf8(t@), buf_ptr, buf_len, used_ptr),
        },
{
    match text {
        None => 1,
        Some(t) => write_text(mem, t.as_str().as_bytes(), buf_ptr, buf_len, used_ptr),
    }
}

/// `unit_list` and `timer_list`: a whole text.
pub fn ruos_unit_list(mem: &mut [u8], buf_ptr: i32, buf_len: i32, used_ptr: i32, text: &String) -> (r: i32)
    ensures
        (final(mem)@, r) == whole(old(mem)@, encode_utf8(text@), buf_ptr, buf_len, used_ptr),
{
    write_text(mem, text.as_str().as_bytes(), buf_ptr, buf_len, used_ptr)
}

/// What the dispatcher of services is asked to do.
#[derive(Clone, Copy, PartialEq, Eq, Structural, Debug)]
pub enum UnitReq {
    /// Read the unit files again.
    Reload,
}

/// The requests that wait for the dispatcher.
pub struct ServiceQueue {
    pub pending: VecDeque<UnitReq>,
}

/// `unit_reload`: asks for the unit files to be read again. It never fails: what is wrong with
/// them is found out later.
pub fn ruos_unit_reload(q: &mut ServiceQueue) -> (r: i32)
    ensures
        r == 0,
        final(q).pending@ == old(q).pending@.push(UnitReq::Reload),
{
    q.pending.push_back(UnitReq::Reload);
    0
}

} // verus!

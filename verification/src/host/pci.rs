//! The list of the machine's devices.

use vstd::prelude::*;
use vstd::utf8::encode_utf8;
use crate::bytes::push_all;
use crate::host::reply::{whole, write_text};
use crate::text::{decimal, hex, push_decimal, push_hex};

verus! {

/// A device: its place, its maker and model, and its class.
#[derive(Clone, Copy, PartialEq, Eq, Structural, Debug)]
pub struct PciDevice {
    pub bus: u8,
    pub device: u8,
    pub function: u8,
    pub vendor_id: u16,
    pub device_id: u16,
    pub class: u8,
    pub subclass: u8,
    pub prog_if: u8,
}

/// What a class of devices is called.
pub open spec fn class_name(class: u8, sub: u8, prog_if: u8) -> Seq<char> {
    match (class, sub, prog_if) {
        (0x01, 0x06, _) => "SATA controller"@,
        (0x01, 0x08, _) => "NVMe controller"@,
        (0x01, _, _) => "Mass storage controller"@,
        (0x02, 0x00, _) => "Ethernet controller"@,
        (0x02, _, _) => "Network controller"@,
        (0x03, 0x00, _) => "VGA controller"@,
        (0x03, _, _) => "Display controller"@,
        (0x04, _, _) => "Multimedia controller"@,
        (0x06, 0x00, _) => "Host bridge"@,
        (0x06, 0x01, _) => "ISA bridge"@,
        (0x06, 0x04, _) => "PCI bridge"@,
        (0x06, _, _) => "Bridge"@,
        (0x0C, 0x03, 0x30) => "xHCI USB controller"@,
        (0x0C, 0x03, 0x20) => "EHCI USB controller"@,
        (0x0C, 0x03, _) => "USB controller"@,
        (0x0C, _, _) => "Serial bus controller"@,
        _ => "Unclassified"@,
    }
}

/// What a class of devices is called.
pub fn pci_class_name(class: u8, sub: u8, prog_if: u8) -> (r: &'static str)
    ensures
        r@ == class_name(class, sub, prog_if),
{
    match (class, sub, prog_if) {
        (0x01, 0x06, _) => "SATA controller",
        (0x01, 0x08, _) => "NVMe controller",
        (0x01, _, _) => "Mass storage controller",
        (0x02, 0x00, _) => "Ethernet controller",
        (0x02, _, _) => "Network controller",
        (0x03, 0x00, _) => "VGA controller",
        (0x03, _, _) => "Display controller",
        (0x04, _, _) => "Multimedia controller",
        (0x06, 0x00, _) => "Host bridge",
        (0x06, 0x01, _) => "ISA bridge",
        (0x06, 0x04, _) => "PCI bridge",
        (0x06, _, _) => "Bridge",
        (0x0C, 0x03, 0x30) => "xHCI USB controller",
        (0x0C, 0x03, 0x20) => "EHCI USB controller",
        (0x0C, 0x03, _) => "USB controller",
        (0x0C, _, _) => "Serial bus controller",
        _ => "Unclassified",
    }
}

/// The line of a device: `BB:DD.F  VVVV:DDDD  CC SS PP  <class>`.
pub open spec fn device_line(d: PciDevice) -> Seq<u8> {
    hex(d.bus as nat, 2).push(58) + hex(d.device as nat, 2).push(46) + decimal(d.function as nat).push(32).push(32)
        + hex(d.vendor_id as nat, 4).push(58) + hex(d.device_id as nat, 4).push(32).push(32) + hex(
        d.class as nat,
        2,
    ).push(32) + hex(d.subclass as nat, 2).push(32) + hex(d.prog_if as nat, 2).push(32).push(32) + encode_utf8(
        class_name(d.class, d.subclass, d.prog_if),
    ).push(10)
}

/// The lines of the first `n` devices.
pub open spec fn device_lines(s: Seq<PciDevice>, n: int) -> Seq<u8>
    decreases n,
{
    if n <= 0 {
        Seq::empty()
    } else {
        device_lines(s, n - 1) + device_line(s[n - 1])
    }
}

fn push_device(out: &mut Vec<u8>, d: &PciDevice)
    ensures
        final(out)@ == old(out)@ + device_line(*d),
{
    push_hex(out, d.bus as u64, 2);
    out.push(58);
    push_hex(out, d.device as u64, 2);
    out.push(46);
    push_decimal(out, d.function as u64);
    out.push(32);
    out.push(32);
    push_hex(out, d.vendor_id as u64, 4);
    out.push(58);
    push_hex(out, d.device_id as u64, 4);
    out.push(32);
    out.push(32);
    push_hex(out, d.class as u64, 2);
    out.push(32);
    push_hex(out, d.subclass as u64, 2);
    out.push(32);
    push_hex(out, d.prog_if as u64, 2);
    out.push(32);
    out.push(32);
    push_all(out, pci_class_name(d.class, d.subclass, d.prog_if).as_bytes());
    out.push(10);
    assert(out@ =~= old(out)@ + device_line(*d));
}

/// `pci_list`: the lines of all devices.
pub fn ruos_pci_list(mem: &mut [u8], buf_ptr: i32, buf_len: i32, used_ptr: i32, devices: &Vec<PciDevice>) -> (r: i32)
    ensures
        (final(mem)@, r) == whole(
            old(mem)@,
            device_lines(devices@, devices@.len() as int),
            buf_ptr,
            buf_len,
            used_ptr,
        ),
{
    let mut text: Vec<u8> = Vec::new();
    let mut i: usize = 0;
    while i < devices.len()
        invariant
            i <= devices@.len(),
            text@ == device_lines(devices@, i as int),
        decreases devices@.len() - i,
    {
        push_device(&mut text, &devices[i]);
        i += 1;
    }
    write_text(mem, text.as_slice(), buf_ptr, buf_len, used_ptr)
}

} // verus!

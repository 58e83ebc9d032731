//! What a device says of itself in answer to an identify command.

use vstd::prelude::*;

verus! {

/// Length in bytes of the answer to an identify command.
pub const IDENTIFY_LEN: usize = 512;

/// Size in bytes of one sector.
pub const SECTOR_SIZE: u64 = 512;

/// The parts of a device's answer to an identify command that the driver
/// reads.
#[derive(Debug)]
pub struct AtaIdentifyData {
    /// Serial number, 20 characters.
    pub serial_number: Vec<u8>,
    /// Firmware version, 8 characters.
    pub firmware_ver: Vec<u8>,
    /// Model number, 40 characters.
    pub model_number: Vec<u8>,
    /// Number of sectors that 28-bit addresses reach.
    pub sector_count_28: u32,
    /// Number of sectors that 48-bit addresses reach, zero where the device
    /// has no 48-bit addresses.
    pub sector_count_48: u64,
}

/// The bytes of `s` with the two bytes of each pair exchanged.
pub open spec fn flipped(s: Seq<u8>) -> Seq<u8> {
    Seq::new(
        s.len(),
        |i: int|
            if i % 2 == 0 {
                s[i + 1]
            } else {
                s[i - 1]
            },
    )
}

/// Exchanging the bytes of each pair twice gives the bytes back.
pub proof fn lemma_flip_twice(s: Seq<u8>)
    requires
        s.len() % 2 == 0,
    ensures
        flipped(flipped(s)) =~= s,
{
}

/// The number that the `n` bytes of `s` from `at` on spell, lowest byte
/// first.
pub open spec fn le_value(s: Seq<u8>, at: int, n: nat) -> int
    decreases n,
{
    if n == 0 {
        0
    } else {
        s[at] + 0x100 * le_value(s, at + 1, (n - 1) as nat)
    }
}

/// Exchanges the two bytes of each pair of `bytes`. The strings of an answer
/// arrive with the bytes of each 16-bit word exchanged.
pub fn flip_bytes(bytes: &mut Vec<u8>)
    requires
        old(bytes).len() % 2 == 0,
    ensures
        final(bytes)@ == flipped(old(bytes)@),
{
    let n = bytes.len();
    let mut i: usize = 0;
    while i < n
        invariant
            n == bytes.len(),
            n == old(bytes).len(),
            n % 2 == 0,
            i % 2 == 0,
            i <= n,
            forall|k: int| 0 <= k < i ==> bytes[k] == flipped(old(bytes)@)[k],
            forall|k: int| i <= k < n ==> bytes[k] == old(bytes)[k],
        decreases n - i,
    {
        let a = bytes[i];
        let b = bytes[i + 1];
        bytes.set(i, b);
        bytes.set(i + 1, a);
        i += 2;
    }
    assert(bytes@ =~= flipped(old(bytes)@));
}

/// Copies the `len` bytes of `raw` from `at` on.
fn take_bytes(raw: &[u8], at: usize, len: usize) -> (r: Vec<u8>)
    requires
        at + len <= raw.len(),
    ensures
        r@ == raw@.subrange(at as int, at + len),
{
    let mut out: Vec<u8> = Vec::with_capacity(len);
    let mut i: usize = 0;
    while i < len
        invariant
            i <= len,
            at + len <= raw.len(),
            out@ == raw@.subrange(at as int, at + i),
        decreases len - i,
    {
        out.push(raw[at + i]);
        proof {
            assert(raw@.subrange(at as int, at + i + 1) =~= raw@.subrange(at as int, at + i).push(
                raw@[at + i],
            ));
        }
        i += 1;
    }
    out
}

impl AtaIdentifyData {
    /// Number of sectors of the device: what the 48-bit field says where it
    /// is not zero, else what the 28-bit field says.
    pub open spec fn sector_count(self) -> int {
        if self.sector_count_48 == 0 {
            self.sector_count_28 as int
        } else {
            self.sector_count_48 as int
        }
    }

    /// Reads the answer `raw` of a device: the serial number from byte 20 on,
    /// the firmware version from byte 46 on, the model number from byte 54
    /// on, each with the bytes of its 16-bit words put back in order, and the
    /// two sector counts from bytes 120 and 200 on, lowest byte first.
    pub fn from_response(raw: &[u8]) -> (r: AtaIdentifyData)
        requires
            raw.len() == IDENTIFY_LEN,
        ensures
            r.serial_number@ == flipped(raw@.subrange(20, 40)),
            r.firmware_ver@ == flipped(raw@.subrange(46, 54)),
            r.model_number@ == flipped(raw@.subrange(54, 94)),
            r.sector_count_28 == le_value(raw@, 120, 4),
            r.sector_count_48 == le_value(raw@, 200, 8),
    {
        let mut serial_number = take_bytes(raw, 20, 20);
        let mut firmware_ver = take_bytes(raw, 46, 8);
        let mut model_number = take_bytes(raw, 54, 40);
        flip_bytes(&mut serial_number);
        flip_bytes(&mut firmware_ver);
        flip_bytes(&mut model_number);
        proof {
            reveal_with_fuel(le_value, 9);
        }
        let sector_count_28 = raw[120] as u32 + raw[121] as u32 * 0x100 + raw[122] as u32
            * 0x1_0000 + raw[123] as u32 * 0x100_0000;
        let sector_count_48 = raw[200] as u64 + raw[201] as u64 * 0x100 + raw[202] as u64
            * 0x1_0000 + raw[203] as u64 * 0x100_0000 + raw[204] as u64 * 0x1_0000_0000
            + raw[205] as u64 * 0x100_0000_0000 + raw[206] as u64 * 0x1_0000_0000_0000
            + raw[207] as u64 * 0x100_0000_0000_0000;
        AtaIdentifyData {
            serial_number,
            firmware_ver,
            model_number,
            sector_count_28,
            sector_count_48,
        }
    }

    /// Number of sectors of the device.
    pub fn sectors(&self) -> (r: u64)
        ensures
            r == self.sector_count(),
    {
        if self.sector_count_48 == 0 {
            self.sector_count_28 as u64
        } else {
            self.sector_count_48
        }
    }

    /// Size of the device in bytes.
    pub fn capacity(&self) -> (r: u128)
        ensures
            r == self.sector_count() * 512,
    {
        self.sectors() as u128 * SECTOR_SIZE as u128
    }
}

} // verus!

//! The host-to-device register FIS, the frame that carries an ATA command to
//! the device.

use vstd::prelude::*;

verus! {

/// Type tag of a host-to-device register FIS.
pub const FIS_TYPE_H2D_REGISTER: u8 = 0x27;

/// Flag of a host-to-device register FIS: the frame updates the command
/// register.
pub const FIS_FLAG_COMMAND: u8 = 0x80;

/// Device register: the command addresses sectors by LBA.
pub const DEV_HEAD_LBA: u8 = 0x40;

/// Length in bytes of a host-to-device register FIS.
pub const FIS_H2D_LEN: usize = 20;

/// First LBA that 28 bits cannot hold.
pub const LBA28_LIMIT: u32 = 0x1000_0000;

/// A host-to-device register FIS.
#[derive(Clone, Copy, Debug, PartialEq, Eq, Structural, Default)]
pub struct FisHost2DevReg {
    pub ty: u8,
    pub flags: u8,
    pub command: u8,
    pub features: u8,
    pub sector_num: u8,
    pub cyl_low: u8,
    pub cyl_high: u8,
    pub dev_head: u8,
    pub sector_num_exp: u8,
    pub cyl_low_exp: u8,
    pub cyl_high_exp: u8,
    pub features_exp: u8,
    pub sector_count: u8,
    pub sector_count_exp: u8,
    pub control: u8,
}

/// The device register of an LBA28 command: LBA mode, the disk select from
/// bit 4 on, and bits 24 to 27 of the LBA in the low nibble.
pub open spec fn dev_head_of(disk: u8, lba: u32) -> u8 {
    0x40u8 | (disk << 4u8) | ((lba / 0x100_0000) as u8)
}

/// The frame of the LBA28 command `cmd` for `n_sectors` sectors from `lba` on
/// of disk `disk`.
pub open spec fn lba28_fis(disk: u8, cmd: u8, n_sectors: u8, lba: u32) -> FisHost2DevReg
    recommends
        lba < 0x1000_0000,
{
    FisHost2DevReg {
        ty: 0x27,
        flags: 0x80,
        command: cmd,
        features: 0,
        sector_num: (lba % 0x100) as u8,
        cyl_low: ((lba / 0x100) % 0x100) as u8,
        cyl_high: ((lba / 0x1_0000) % 0x100) as u8,
        dev_head: dev_head_of(disk, lba),
        sector_num_exp: 0,
        cyl_low_exp: 0,
        cyl_high_exp: 0,
        features_exp: 0,
        sector_count: n_sectors,
        sector_count_exp: 0,
        control: 0,
    }
}

impl FisHost2DevReg {
    /// The 28-bit LBA that the frame carries in its three LBA bytes and in the
    /// low nibble of the device register.
    pub open spec fn lba28(self) -> int {
        self.sector_num + self.cyl_low * 0x100 + self.cyl_high * 0x1_0000 + (self.dev_head % 16)
            * 0x100_0000
    }

    /// The disk that the frame selects: bit 4 of the device register.
    pub open spec fn disk_select(self) -> int {
        ((self.dev_head / 16) % 2) as int
    }

    /// The bytes of the frame as they go to the device.
    pub open spec fn wire(self) -> Seq<u8> {
        seq![
            self.ty,
            self.flags,
            self.command,
            self.features,
            self.sector_num,
            self.cyl_low,
            self.cyl_high,
            self.dev_head,
            self.sector_num_exp,
            self.cyl_low_exp,
            self.cyl_high_exp,
            self.features_exp,
            self.sector_count,
            self.sector_count_exp,
            0u8,
            self.control,
            0u8,
            0u8,
            0u8,
            0u8,
        ]
    }

    /// Builds the frame of the LBA28 command `cmd` for `n_sectors` sectors
    /// from `lba` on of disk `disk`.
    pub fn new_lba28(disk: u8, cmd: u8, n_sectors: u8, lba: u32) -> (r: FisHost2DevReg)
        requires
            lba < LBA28_LIMIT,
        ensures
            r == lba28_fis(disk, cmd, n_sectors, lba),
    {
        FisHost2DevReg {
            ty: FIS_TYPE_H2D_REGISTER,
            flags: FIS_FLAG_COMMAND,
            command: cmd,
            features: 0,
            sector_num: (lba % 0x100) as u8,
            cyl_low: ((lba / 0x100) % 0x100) as u8,
            cyl_high: ((lba / 0x1_0000) % 0x100) as u8,
            dev_head: DEV_HEAD_LBA | (disk << 4u8) | ((lba / 0x100_0000) as u8),
            sector_num_exp: 0,
            cyl_low_exp: 0,
            cyl_high_exp: 0,
            features_exp: 0,
            sector_count: n_sectors,
            sector_count_exp: 0,
            control: 0,
        }
    }

    /// Reads the 28-bit LBA back out of the frame.
    pub fn lba(&self) -> (r: u32)
        ensures
            r == self.lba28(),
            r < LBA28_LIMIT,
    {
        self.sector_num as u32 + (self.cyl_low as u32) * 0x100 + (self.cyl_high as u32) * 0x1_0000
            + ((self.dev_head % 16) as u32) * 0x100_0000
    }

    /// Reads the disk select back out of the frame.
    pub fn disk(&self) -> (r: u8)
        ensures
            r == self.disk_select(),
            r <= 1,
    {
        (self.dev_head / 16) % 2
    }

    /// Lays the frame out as the 20 bytes that go to the device.
    pub fn as_bytes(&self) -> (r: Vec<u8>)
        ensures
            r@ == self.wire(),
            r.len() == FIS_H2D_LEN,
    {
        let mut out: Vec<u8> = Vec::with_capacity(FIS_H2D_LEN);
        out.push(self.ty);
        out.push(self.flags);
        out.push(self.command);
        out.push(self.features);
        out.push(self.sector_num);
        out.push(self.cyl_low);
        out.push(self.cyl_high);
        out.push(self.dev_head);
        out.push(self.sector_num_exp);
        out.push(self.cyl_low_exp);
        out.push(self.cyl_high_exp);
        out.push(self.features_exp);
        out.push(self.sector_count);
        out.push(self.sector_count_exp);
        out.push(0);
        out.push(self.control);
        out.push(0);
        out.push(0);
        out.push(0);
        out.push(0);
        assert(out@ =~= self.wire());
        out
    }
}

proof fn lemma_dev_head_fields(disk: u8, top: u8)
    by (bit_vector)
    requires
        disk <= 1,
        top < 16,
    ensures
        (0x40u8 | (disk << 4u8) | top) % 16 == top,
        ((0x40u8 | (disk << 4u8) | top) / 16) % 2 == disk,
{
}

/// An LBA28 frame gives back what it was built from: the LBA, the disk and the
/// sector count come out of the packed fields as they went in, for every LBA
/// of 28 bits and each of the two disks.
pub proof fn lemma_lba28_round_trip(disk: u8, cmd: u8, n_sectors: u8, lba: u32)
    requires
        lba < 0x1000_0000,
        disk <= 1,
    ensures
        lba28_fis(disk, cmd, n_sectors, lba).lba28() == lba,
        lba28_fis(disk, cmd, n_sectors, lba).disk_select() == disk,
        lba28_fis(disk, cmd, n_sectors, lba).sector_count == n_sectors,
        lba28_fis(disk, cmd, n_sectors, lba).command == cmd,
{
    let top = (lba / 0x100_0000) as u8;
    lemma_dev_head_fields(disk, top);
}

} // verus!

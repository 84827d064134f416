use vstd::prelude::*;

verus! {

/// The register values that start a one-sector transfer on the primary ATA bus.
#[derive(Debug, PartialEq, Eq, Clone, Copy, Structural)]
pub struct AtaCommand {
    /// Drive/head register (port 0x1F6): master drive, LBA mode, LBA bits 24..28.
    pub drive: u8,
    /// Sector count register (port 0x1F2).
    pub sector_count: u8,
    /// LBA low register (port 0x1F3).
    pub lba_lo: u8,
    /// LBA mid register (port 0x1F4).
    pub lba_mid: u8,
    /// LBA high register (port 0x1F5).
    pub lba_hi: u8,
    /// Command register (port 0x1F7).
    pub command: u8,
}

/// The command "read sectors with retry".
pub const ATA_READ: u8 = 0x20;

/// The command "write sectors with retry".
pub const ATA_WRITE: u8 = 0x30;

/// The registers for reading sector `lba`: the drive byte carries LBA bits 24..28 under 0xE0,
/// and the low, mid and high registers carry LBA bits 0..8, 8..16 and 16..24.
pub fn read_command(lba: u32) -> (c: AtaCommand)
    ensures
        c == read_command_spec(lba),
{
    AtaCommand {
        drive: (0xE0u32 | ((lba >> 24u32) & 0x0F)) as u8,
        sector_count: 1,
        lba_lo: lba as u8,
        lba_mid: (lba >> 8u32) as u8,
        lba_hi: (lba >> 16u32) as u8,
        command: ATA_READ,
    }
}

/// The registers for writing sector `lba`: as for reading, except that the mid register carries
/// LBA bits 16..24, the same bits as the high register.
pub fn write_command(lba: u32) -> (c: AtaCommand)
    ensures
        c == write_command_spec(lba),
{
    AtaCommand {
        drive: (0xE0u32 | ((lba >> 24u32) & 0x0F)) as u8,
        sector_count: 1,
        lba_lo: lba as u8,
        lba_mid: (lba >> 16u32) as u8,
        lba_hi: (lba >> 16u32) as u8,
        command: ATA_WRITE,
    }
}

/// Reading and writing address the same sector when bits 8..16 of the LBA equal bits 16..24
/// (for example every LBA below 256).
pub proof fn lemma_read_write_same_sector(lba: u32)
    requires
        (lba >> 8u32) as u8 == (lba >> 16u32) as u8,
    ensures
        read_command_spec(lba) == write_command_spec(lba).with_command(ATA_READ),
{
}

/// The read registers for a sector, as a value.
pub open spec fn read_command_spec(lba: u32) -> AtaCommand {
    AtaCommand {
        drive: (0xE0u32 | ((lba >> 24u32) & 0x0F)) as u8,
        sector_count: 1,
        lba_lo: lba as u8,
        lba_mid: (lba >> 8u32) as u8,
        lba_hi: (lba >> 16u32) as u8,
        command: ATA_READ,
    }
}

/// The write registers for a sector, as a value.
pub open spec fn write_command_spec(lba: u32) -> AtaCommand {
    AtaCommand {
        drive: (0xE0u32 | ((lba >> 24u32) & 0x0F)) as u8,
        sector_count: 1,
        lba_lo: lba as u8,
        lba_mid: (lba >> 16u32) as u8,
        lba_hi: (lba >> 16u32) as u8,
        command: ATA_WRITE,
    }
}

impl AtaCommand {
    /// The same registers with another command.
    pub open spec fn with_command(self, command: u8) -> AtaCommand {
        AtaCommand { command, ..self }
    }
}

/// The 16-bit data word that carries bytes `2 * i` (low) and `2 * i + 1` (high).
pub open spec fn word_of(b: Seq<u8>, i: int) -> u16 {
    ((b[2 * i] as u16) | ((b[2 * i + 1] as u16) << 8u16)) as u16
}

/// The words that send a sector through the 16-bit data port (0x1F0), low byte first.
pub fn sector_to_words(buffer: &[u8; 512]) -> (words: [u16; 256])
    ensures
        forall|i: int| 0 <= i < 256 ==> #[trigger] words@[i] == word_of(buffer@, i),
{
    let mut words = [0u16; 256];
    let mut i: usize = 0;
    while i < 256
        invariant
            i <= 256,
            forall|j: int| 0 <= j < i ==> #[trigger] words@[j] == word_of(buffer@, j),
        decreases 256 - i,
    {
        words[i] = (buffer[i * 2] as u16) | ((buffer[i * 2 + 1] as u16) << 8u16);
        i = i + 1;
    }
    words
}

/// The sector that 256 words read from the data port (0x1F0) carry: the low byte of each word
/// first.
pub fn words_to_sector(words: &[u16; 256]) -> (buffer: [u8; 512])
    ensures
        forall|i: int| 0 <= i < 256 ==> #[trigger] buffer@[2 * i] == (words@[i] & 0xFF) as u8,
        forall|i: int| 0 <= i < 256 ==> #[trigger] buffer@[2 * i + 1] == (words@[i] >> 8u16) as u8,
{
    let mut buffer = [0u8; 512];
    let mut i: usize = 0;
    while i < 256
        invariant
            i <= 256,
            forall|j: int| 0 <= j < i ==> #[trigger] buffer@[2 * j] == (words@[j] & 0xFF) as u8,
            forall|j: int| 0 <= j < i ==> #[trigger] buffer@[2 * j + 1] == (words@[j] >> 8u16) as u8,
        decreases 256 - i,
    {
        buffer[i * 2] = (words[i] & 0xFF) as u8;
        buffer[i * 2 + 1] = (words[i] >> 8u16) as u8;
        i = i + 1;
    }
    buffer
}

proof fn lemma_word_bytes(lo: u8, hi: u8)
    ensures
        ((((lo as u16) | ((hi as u16) << 8u16)) as u16) & 0xFF) as u8 == lo,
        ((((lo as u16) | ((hi as u16) << 8u16)) as u16) >> 8u16) as u8 == hi,
{
    assert(((((lo as u16) | ((hi as u16) << 8u16)) as u16) & 0xFF) as u8 == lo) by (bit_vector);
    assert(((((lo as u16) | ((hi as u16) << 8u16)) as u16) >> 8u16) as u8 == hi) by (bit_vector);
}

/// A sector sent as words and read back from those words is the same sector: the byte order
/// of `write_sector` and `read_sector` agree.
pub proof fn lemma_sector_words_round_trip(b: Seq<u8>, words: Seq<u16>, back: Seq<u8>)
    requires
        b.len() == 512,
        words.len() == 256,
        back.len() == 512,
        forall|i: int| 0 <= i < 256 ==> #[trigger] words[i] == word_of(b, i),
        forall|i: int| 0 <= i < 256 ==> #[trigger] back[2 * i] == (words[i] & 0xFF) as u8,
        forall|i: int| 0 <= i < 256 ==> #[trigger] back[2 * i + 1] == (words[i] >> 8u16) as u8,
    ensures
        back == b,
{
    assert forall|k: int| 0 <= k < 512 implies back[k] == b[k] by {
        let i = k / 2;
        lemma_word_bytes(b[2 * i], b[2 * i + 1]);
        assert(words[i] == word_of(b, i));
        if k % 2 == 0 {
            assert(back[2 * i] == b[2 * i]);
        } else {
            assert(back[2 * i + 1] == b[2 * i + 1]);
        }
    }
    assert(back =~= b);
}

/// The read registers address sector `lba` in 28-bit LBA mode on the master drive: the drive
/// byte's top nibble is 0xE (LBA, master), and its low nibble with the high, mid and low
/// registers give back bits 0 to 28 of `lba`; one sector is read.
pub proof fn lemma_read_registers_address_lba(lba: u32)
    ensures
        ({
            let c = read_command_spec(lba);
            &&& c.drive & 0xF0 == 0xE0
            &&& ((((c.drive & 0x0F) as u32) << 24u32) | ((c.lba_hi as u32) << 16u32) | ((
            c.lba_mid as u32) << 8u32) | (c.lba_lo as u32)) == lba & 0x0FFF_FFFF
            &&& c.sector_count == 1
            &&& c.command == ATA_READ
        }),
{
    let d = (0xE0u32 | ((lba >> 24u32) & 0x0F)) as u8;
    let h = (lba >> 16u32) as u8;
    let m = (lba >> 8u32) as u8;
    let l = lba as u8;
    assert(d & 0xF0 == 0xE0 && ((((d & 0x0F) as u32) << 24u32) | ((h as u32) << 16u32) | ((
    m as u32) << 8u32) | (l as u32)) == lba & 0x0FFF_FFFF) by (bit_vector)
        requires
            d == (0xE0u32 | ((lba >> 24u32) & 0x0F)) as u8,
            h == (lba >> 16u32) as u8,
            m == (lba >> 8u32) as u8,
            l == lba as u8,
    ;
}

/// The write registers agree with the read registers for the same sector in the drive byte,
/// the sector count and the low and high registers; the mid register repeats the high one.
pub proof fn lemma_write_registers(lba: u32)
    ensures
        ({
            let w = write_command_spec(lba);
            let r = read_command_spec(lba);
            &&& w.drive == r.drive && w.sector_count == r.sector_count && w.lba_lo == r.lba_lo
            &&& w.lba_hi == r.lba_hi && w.lba_mid == r.lba_hi
            &&& w.command == ATA_WRITE
        }),
{
}

} // verus!

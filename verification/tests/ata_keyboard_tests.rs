use hay_os::memory::user_accessible_pages;
use hay_os::ata::{read_command, sector_to_words, words_to_sector, write_command, ATA_READ, ATA_WRITE};
use hay_os::keyboard::{deliver_key, keyboard_interrupt, KeyDecoder};
use hay_os::shell::{pop_key_buffer, KeyBuffer};

#[test]
fn read_registers() {
    let c = read_command(0x0A12_3456);
    assert_eq!(c.drive, 0xEA);
    assert_eq!(c.sector_count, 1);
    assert_eq!(c.lba_lo, 0x56);
    assert_eq!(c.lba_mid, 0x34);
    assert_eq!(c.lba_hi, 0x12);
    assert_eq!(c.command, ATA_READ);
}

#[test]
fn write_registers_repeat_high_byte_in_mid() {
    let c = write_command(0x0A12_3456);
    assert_eq!(c.drive, 0xEA);
    assert_eq!(c.lba_lo, 0x56);
    assert_eq!(c.lba_mid, 0x12);
    assert_eq!(c.lba_hi, 0x12);
    assert_eq!(c.command, ATA_WRITE);
}

#[test]
fn small_lba_same_registers() {
    let r = read_command(10);
    let w = write_command(10);
    assert_eq!((r.drive, r.lba_lo, r.lba_mid, r.lba_hi), (w.drive, w.lba_lo, w.lba_mid, w.lba_hi));
}

#[test]
fn words_are_little_endian() {
    let mut s = [0u8; 512];
    s[0] = 0x34;
    s[1] = 0x12;
    s[511] = 0xAB;
    let w = sector_to_words(&s);
    assert_eq!(w[0], 0x1234);
    assert_eq!(w[255], 0xAB00);
}

#[test]
fn sector_words_round_trip() {
    let mut s = [0u8; 512];
    for (i, b) in s.iter_mut().enumerate() {
        *b = (i * 7 % 251) as u8;
    }
    assert_eq!(words_to_sector(&sector_to_words(&s)), s);
}

#[test]
fn deliver_key_queues_characters_only() {
    let mut q = KeyBuffer::new();
    deliver_key(&mut q, None);
    assert_eq!(pop_key_buffer(&mut q), None);
    deliver_key(&mut q, Some('k'));
    assert_eq!(pop_key_buffer(&mut q), Some('k'));
}

#[test]
fn scancodes_become_characters() {
    let mut d = KeyDecoder::new();
    let mut q = KeyBuffer::new();
    keyboard_interrupt(&mut d, &mut q, 0x1E);
    keyboard_interrupt(&mut d, &mut q, 0x9E);
    keyboard_interrupt(&mut d, &mut q, 0x1C);
    assert_eq!(pop_key_buffer(&mut q), Some('a'));
    assert_eq!(pop_key_buffer(&mut q), Some('\n'));
    assert_eq!(pop_key_buffer(&mut q), None);
}

#[test]
fn shift_gives_capitals() {
    let mut d = KeyDecoder::new();
    let mut q = KeyBuffer::new();
    keyboard_interrupt(&mut d, &mut q, 0x2A);
    keyboard_interrupt(&mut d, &mut q, 0x1E);
    assert_eq!(pop_key_buffer(&mut q), Some('A'));
    assert_eq!(pop_key_buffer(&mut q), None);
}

#[test]
fn pages_covering_a_region() {
    assert_eq!(user_accessible_pages(0x20_0000, 4096), vec![0x20_0000]);
    assert_eq!(user_accessible_pages(0x3F_F000, 0x2000), vec![0x20_0000, 0x40_0000]);
    assert_eq!(user_accessible_pages(0x12_3456, 0x50_0000), vec![0, 0x20_0000, 0x40_0000, 0x60_0000]);
    assert_eq!(user_accessible_pages(0x40_0000, 0), vec![]);
    assert_eq!(user_accessible_pages(0x40_0001, 0), vec![0x40_0000]);
    assert_eq!(user_accessible_pages(u64::MAX, 1), vec![u64::MAX - 0x1F_FFFF]);
}

#[test]
fn decoder_state_carries_over_between_scancodes() {
    let mut d = KeyDecoder::new();
    let mut q = KeyBuffer::new();
    keyboard_interrupt(&mut d, &mut q, 0x2A);
    keyboard_interrupt(&mut d, &mut q, 0xAA);
    keyboard_interrupt(&mut d, &mut q, 0x1E);
    assert_eq!(pop_key_buffer(&mut q), Some('a'));
    keyboard_interrupt(&mut d, &mut q, 0xE0);
    keyboard_interrupt(&mut d, &mut q, 0x1C);
    assert_eq!(pop_key_buffer(&mut q), Some('\n'));
}

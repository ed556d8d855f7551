use rustix_vkernel::c_fastpath;
use rustix_vkernel::extfs::{self, ExtError, ExtFilesystem};
use rustix_vkernel::fixed::InlineString;
use rustix_vkernel::initramfs::{self, Root};
use rustix_vkernel::net::{self, NetErr};
use rustix_vkernel::storage::{BlockDevice, BlockError, MemoryDisk};

#[test]
fn file_systems_pass_their_own_test() {
    assert!(extfs::self_test());
}

#[test]
fn disks_hold_whole_sectors() {
    let mut disk = MemoryDisk::new(4096);
    disk.store(512, b"hello");
    let mut sector = [0u8; 512];
    assert_eq!(disk.read_sectors(1, &mut sector), Ok(()));
    assert_eq!(&sector[..5], b"hello");
    assert_eq!(disk.write_sectors(2, &sector), Ok(()));
    let mut copy = [0u8; 512];
    assert_eq!(disk.read_sectors(2, &mut copy), Ok(()));
    assert_eq!(copy, sector);
    assert_eq!(disk.read_sectors(8, &mut sector), Err(BlockError::OutOfRange));
    assert_eq!(disk.read_sectors(0, &mut [0u8; 100]), Err(BlockError::Unaligned));
}

#[test]
fn an_empty_disk_has_no_file_system() {
    let mut disk = MemoryDisk::new(65536);
    assert_eq!(ExtFilesystem::mount(&mut disk).err(), Some(ExtError::InvalidSuperblock));
    let mut short = MemoryDisk::new(1024);
    assert!(matches!(
        ExtFilesystem::mount(&mut short).err(),
        Some(ExtError::Block(BlockError::OutOfRange))
    ));
}

fn small_disk() -> MemoryDisk {
    let mut disk = MemoryDisk::new(65536);
    disk.store(1024, &16u32.to_le_bytes());
    disk.store(1028, &64u32.to_le_bytes());
    disk.store(1044, &1u32.to_le_bytes());
    disk.store(1056, &64u32.to_le_bytes());
    disk.store(1064, &16u32.to_le_bytes());
    disk.store(1080, &0xef53u16.to_le_bytes());
    disk.store(1082, &1u16.to_le_bytes());
    disk.store(1100, &1u32.to_le_bytes());
    disk.store(1112, &128u16.to_le_bytes());
    disk.store(2056, &5u32.to_le_bytes());
    disk.store(5248, &0x41edu16.to_le_bytes());
    disk.store(5252, &1024u32.to_le_bytes());
    disk.store(5288, &7u32.to_le_bytes());
    disk.store(5376, &0x81a4u16.to_le_bytes());
    disk.store(5380, &5u32.to_le_bytes());
    disk.store(5416, &8u32.to_le_bytes());
    disk.store(5420, &9u32.to_le_bytes());
    disk.store(7168, &[3, 0, 0, 0, 0, 4, 4, 1]);
    disk.store(7176, b"note");
    disk.store(8192, b"first");
    disk
}

#[test]
fn what_is_written_to_a_file_is_read_back() {
    let mut disk = small_disk();
    let mut system = ExtFilesystem::mount(&mut disk).unwrap();
    assert!(!system.needs_recovery());
    let input: Vec<u8> = (0..50).collect();
    assert_eq!(system.write_at(&mut disk, "/note", 1000, &input), Ok(50));
    assert!(system.needs_recovery());
    let mut output = [0u8; 50];
    assert_eq!(system.read_at(&mut disk, "/note", 1000, &mut output), Ok(50));
    assert_eq!(output.as_slice(), input.as_slice());
    assert_eq!(system.stat(&mut disk, "/note").unwrap().size, 1050);
    let mut start = [0u8; 5];
    assert_eq!(system.read_at(&mut disk, "/note", 0, &mut start), Ok(5));
    assert_eq!(&start, b"first");
    assert_eq!(system.write_at(&mut disk, "/note", 1, b"IRS"), Ok(3));
    assert_eq!(system.read_at(&mut disk, "/note", 0, &mut start), Ok(5));
    assert_eq!(&start, b"fIRSt");
    assert_eq!(system.stat(&mut disk, "/note").unwrap().size, 1050);
    assert_eq!(system.write_at(&mut disk, "/note", 3000, b"x"), Err(ExtError::NoSpace));
    assert_eq!(system.write_at(&mut disk, "/none", 0, b"x"), Err(ExtError::NotFound));
    system.set_read_only(true);
    assert_eq!(system.write_at(&mut disk, "/note", 0, b"x"), Err(ExtError::ReadOnly));
    system.set_read_only(false);
    assert_eq!(system.recover(&mut disk), Ok(()));
    let mut later = ExtFilesystem::mount(&mut disk).unwrap();
    assert!(!later.needs_recovery());
    assert_eq!(later.write_at(&mut disk, "/note", 0, b"F"), Ok(1));
    assert!(ExtFilesystem::mount(&mut disk).unwrap().needs_recovery());
    assert_eq!(later.sync(&mut disk), Ok(()));
    assert!(!ExtFilesystem::mount(&mut disk).unwrap().needs_recovery());
}

fn entry(archive: &mut Vec<u8>, name: &str, mode: u32, data: &[u8]) {
    let header = format!(
        "070701{:08x}{:08x}{:08x}{:08x}{:08x}{:08x}{:08x}{:08x}{:08x}{:08x}{:08x}{:08x}{:08x}",
        0, mode, 0, 0, 1, 0, data.len(), 0, 0, 0, 0, name.len() + 1, 0
    );
    archive.extend_from_slice(header.as_bytes());
    archive.extend_from_slice(name.as_bytes());
    archive.push(0);
    while archive.len() % 4 != 0 {
        archive.push(0);
    }
    archive.extend_from_slice(data);
    while archive.len() % 4 != 0 {
        archive.push(0);
    }
}

#[test]
fn archives_are_read_to_their_trailer() {
    let mut archive = Vec::new();
    entry(&mut archive, "etc/motd", 0o100644, b"hello\n");
    entry(&mut archive, "bin", 0o040755, b"");
    entry(&mut archive, "TRAILER!!!", 0, b"");
    let summary = initramfs::parse_newc(&archive);
    assert!(summary.valid);
    assert_eq!((summary.entries, summary.bytes), (2, 6));
    let cut = initramfs::parse_newc(&archive[..archive.len() - 40]);
    assert!(!cut.valid);
    assert!(!initramfs::parse_newc(b"070702").valid);
}

#[test]
fn the_root_is_mounted_with_all_its_files() {
    assert_eq!(initramfs::builtin(0).path.chars().next(), Some('/'));
    let mut root = Root::new();
    assert!(!root.summary().mounted);
    let summary = root.mount_root([true, true, true], true);
    assert!(summary.mounted && summary.recovered);
    assert_eq!(summary.entries, 3);
    let mut other = Root::new();
    assert!(!other.mount_root([true, false, true], true).mounted);
}

#[test]
fn addresses_are_written_and_read() {
    assert_eq!(net::parse_ipv4("10.0.2.15"), Some([10, 0, 2, 15]));
    assert_eq!(net::parse_ipv4("10.0.2"), None);
    assert_eq!(net::parse_ipv4("10.0.2.256"), None);
    assert_eq!(net::parse_ipv4("10.0..1"), None);
    assert_eq!(c_fastpath::parse_ipv4_bytes(b"1.2.3.4"), Some([1, 2, 3, 4]));
    let mut text = InlineString::<16>::new();
    net::format_ipv4([192, 168, 0, 1], &mut text);
    assert_eq!(text.as_str(), "192.168.0.1");
    let mut mac = InlineString::<24>::new();
    net::format_mac([0x52, 0x54, 0, 0x12, 0x34, 0xff], &mut mac);
    assert_eq!(mac.as_str(), "52:54:00:12:34:ff");
}

#[test]
fn a_machine_without_a_card_has_no_network() {
    assert!(!net::init());
    assert!(net::status().is_none());
    assert!(net::ping([10, 0, 2, 2]).is_err());
    assert_eq!(net::tcp_connect([10, 0, 2, 2], 80, 1000), Err(NetErr::Down));
    assert!(!net::tcp_connected(0));
}

#[test]
fn fast_loops_give_exact_values() {
    assert_eq!(c_fastpath::internet_checksum(&[0x45, 0x00, 0x00, 0x1c]), 0xbae3);
    let mut values = [5u64, 1, 5, 3, 1];
    let unique = c_fastpath::sort_unique_u64(&mut values);
    assert_eq!(&values[..unique], &[1, 3, 5]);
    let words = [u64::MAX, 0xffff_ffff_ffff_fffb];
    assert_eq!(c_fastpath::bitmap_count_clear(&words), 1);
    assert_eq!(c_fastpath::bitmap_find_clear(&words, 0), Some((1, 2)));
    assert!(c_fastpath::checksum8_is_zero(&[0x80, 0x80]));
    let mut secret = [1u8, 2, 3];
    c_fastpath::zero_explicit(&mut secret);
    assert_eq!(secret, [0, 0, 0]);
}

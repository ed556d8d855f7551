use rustix_vkernel::fixed::InlineString;
use rustix_vkernel::linux::elf::{ElfError, ElfFile};
use rustix_vkernel::linux::errno::Errno;
use rustix_vkernel::linux::path;
use rustix_vkernel::linux::syscall;

#[test]
fn codes_and_names_of_errors_agree() {
    assert_eq!(Errno::from_code(2), Some(Errno::ENOENT));
    assert_eq!(Errno::ENOENT.code(), 2);
    assert_eq!(Errno::from_code(13).map(|error| error.code()), Some(13));
    assert_eq!(Errno::from_code(0), None);
    assert_eq!(Errno::from_code(-5), None);
    for code in 1..200 {
        if let Some(error) = Errno::from_code(code) {
            assert_eq!(error.code(), code);
        }
    }
}

#[test]
fn results_go_through_a_register() {
    assert_eq!(syscall::encode(Ok(42)), 42);
    assert_eq!(syscall::encode(Err(Errno::EPERM)), u64::MAX);
    assert_eq!(syscall::decode(syscall::encode(Err(Errno::EIO))), Err(Errno::EIO));
    assert_eq!(syscall::decode(42), Ok(42));
    assert!(syscall::is_error(u64::MAX - 4094));
    assert!(!syscall::is_error(u64::MAX - 4095));
    assert_eq!(syscall::decode(syscall::dispatch(9999, [0; 6])), Err(Errno::ENOSYS));
}

#[test]
fn paths_get_their_normal_form() {
    let mut out = InlineString::<64>::new();
    assert_eq!(path::normalize_absolute("/usr//bin/./../lib/", &mut out), Ok("/usr/lib"));
    let mut out = InlineString::<64>::new();
    assert_eq!(path::normalize_absolute("/../..", &mut out), Ok("/"));
    let mut out = InlineString::<64>::new();
    assert!(path::normalize_absolute("usr", &mut out).is_err());
    let mut out = InlineString::<4>::new();
    assert!(path::normalize_absolute("/abcdef", &mut out).is_err());
    assert_eq!(path::parent("/usr/lib"), "/usr");
    assert_eq!(path::parent("/usr"), "/");
}

#[test]
fn a_normal_form_is_its_own_normal_form() {
    let mut first = InlineString::<64>::new();
    let once = path::normalize_absolute("//a/b/../c", &mut first).unwrap().to_string();
    let mut second = InlineString::<64>::new();
    assert_eq!(path::normalize_absolute(&once, &mut second), Ok(once.as_str()));
}

#[test]
fn paths_stay_below_their_root() {
    let mut out = InlineString::<64>::new();
    assert_eq!(
        path::normalize_in_root("/srv/jail", "/home", "../../../etc/passwd", &mut out),
        Ok("/srv/jail/etc/passwd")
    );
    let mut out = InlineString::<64>::new();
    assert_eq!(
        path::normalize_in_root("/", "/home", "notes.txt", &mut out),
        Ok("/home/notes.txt")
    );
}

fn put(image: &mut [u8], at: usize, bytes: &[u8]) {
    image[at..at + bytes.len()].copy_from_slice(bytes);
}

fn image() -> Vec<u8> {
    let mut image = vec![0u8; 0x1100];
    put(&mut image, 0, &[0x7f, b'E', b'L', b'F', 2, 1, 1]);
    put(&mut image, 16, &2u16.to_le_bytes());
    put(&mut image, 18, &62u16.to_le_bytes());
    put(&mut image, 20, &1u32.to_le_bytes());
    put(&mut image, 24, &0x40_1000u64.to_le_bytes());
    put(&mut image, 32, &64u64.to_le_bytes());
    put(&mut image, 52, &64u16.to_le_bytes());
    put(&mut image, 54, &56u16.to_le_bytes());
    put(&mut image, 56, &2u16.to_le_bytes());
    // A segment with code.
    put(&mut image, 64, &1u32.to_le_bytes());
    put(&mut image, 68, &5u32.to_le_bytes());
    put(&mut image, 72, &0x1000u64.to_le_bytes());
    put(&mut image, 80, &0x40_1000u64.to_le_bytes());
    put(&mut image, 88, &0x40_1000u64.to_le_bytes());
    put(&mut image, 96, &0x100u64.to_le_bytes());
    put(&mut image, 104, &0x100u64.to_le_bytes());
    put(&mut image, 112, &0x1000u64.to_le_bytes());
    // The name of an interpreter.
    put(&mut image, 120, &3u32.to_le_bytes());
    put(&mut image, 124, &4u32.to_le_bytes());
    put(&mut image, 128, &0x200u64.to_le_bytes());
    put(&mut image, 152, &10u64.to_le_bytes());
    put(&mut image, 160, &10u64.to_le_bytes());
    put(&mut image, 168, &1u64.to_le_bytes());
    put(&mut image, 0x200, b"/lib/ld.1\0");
    image
}

#[test]
fn images_are_read() {
    let bytes = image();
    let file = match ElfFile::parse(&bytes, 62) {
        Ok(file) => file,
        Err(error) => panic!("{:?}", error),
    };
    assert_eq!(file.elf_type(), 2);
    assert_eq!(file.entry(), 0x40_1000);
    assert_eq!(file.program_header_count(), 2);
    assert_eq!(file.interpreter(), Some("/lib/ld.1"));
    let header = file.program_headers()[0];
    assert_eq!(file.segment_data(header).map(|data| data.len()), Ok(0x100));
}

#[test]
fn bad_images_are_refused() {
    let bytes = image();
    assert_eq!(ElfFile::parse(&bytes[..40], 62).err(), Some(ElfError::Truncated));
    assert_eq!(ElfFile::parse(&bytes, 183).err(), Some(ElfError::UnsupportedMachine));
    let mut wrong = image();
    wrong[0] = 0;
    assert_eq!(ElfFile::parse(&wrong, 62).err(), Some(ElfError::BadMagic));
    let mut wrong = image();
    wrong[4] = 1;
    assert_eq!(ElfFile::parse(&wrong, 62).err(), Some(ElfError::UnsupportedClass));
    let mut wrong = image();
    wrong[5] = 2;
    assert_eq!(ElfFile::parse(&wrong, 62).err(), Some(ElfError::UnsupportedEndian));
    let mut wrong = image();
    put(&mut wrong, 16, &1u16.to_le_bytes());
    assert_eq!(ElfFile::parse(&wrong, 62).err(), Some(ElfError::UnsupportedType));
    let mut wrong = image();
    put(&mut wrong, 96, &0x1000u64.to_le_bytes());
    assert!(ElfFile::parse(&wrong, 62).is_err());
}

//! The resource table, the shared family data, and the user allocator.

use ysos::data::ProcessData;
use ysos::input::InputBuffer;
use ysos::resource::{Resource, StdIO};
use ysos::syscall::UserAllocator;

#[test]
fn resource_table_starts_with_the_console() {
    let mut data = ProcessData::new();
    let mut input = InputBuffer::new();

    // Writing to standard output takes everything; reading it refuses.
    let message = b"hello".to_vec();
    assert_eq!(data.write(1, &message), 5);
    let mut buf = vec![0u8; 4];
    assert_eq!(data.write(0, &message), -1);
    // Standard input with no pending key reads zero bytes.
    assert_eq!(data.read(0, &mut buf, &mut input), 0);
    // An unknown descriptor refuses both ways.
    assert_eq!(data.write(9, &message), -1);
    assert_eq!(data.read(9, &mut buf, &mut input), -1);
}

#[test]
fn files_read_from_their_cursor() {
    let mut data = ProcessData::new();
    let mut input = InputBuffer::new();
    let fd = data.open(Resource::File(ysos::resource::FileHandle {
        data: b"abcdef".to_vec(),
        offset: 0,
    }));
    let mut buf = vec![0u8; 4];
    assert_eq!(data.read(fd, &mut buf, &mut input), 4);
    assert_eq!(&buf, b"abcd");
    assert_eq!(data.read(fd, &mut buf, &mut input), 2);
    assert_eq!(&buf[0..2], b"ef");
    assert_eq!(data.read(fd, &mut buf, &mut input), 0);
    assert!(data.close_file(fd));
    assert!(!data.close_file(fd));
}

#[test]
fn environment_rebinds_in_place() {
    let mut data = ProcessData::new();
    assert_eq!(data.env(&"mode".to_string()), None);
    data.set_env("mode".to_string(), "direct".to_string());
    data.set_env("tick".to_string(), "1".to_string());
    assert_eq!(data.env(&"mode".to_string()), Some("direct".to_string()));
    data.set_env("mode".to_string(), "mapped".to_string());
    assert_eq!(data.env(&"mode".to_string()), Some("mapped".to_string()));
    assert_eq!(data.env(&"tick".to_string()), Some("1".to_string()));
}

#[test]
fn null_device_swallows_and_yields_nothing() {
    let mut null = Resource::Null;
    let mut input = InputBuffer::new();
    let mut buf = vec![1u8; 3];
    assert_eq!(null.write(&vec![9, 9]), Some(2));
    assert_eq!(null.read(&mut buf, &mut input), Some(0));
    let mut err = Resource::Console(StdIO::Stderr);
    assert_eq!(err.write(&vec![1]), Some(1));
    assert_eq!(err.read(&mut buf, &mut input), None);
}

#[test]
fn user_allocator_hands_out_fresh_aligned_blocks() {
    let mut ua = UserAllocator::new(0x1000);
    assert_eq!(ua.allocate(0, 8), 0);
    let a = ua.allocate(24, 8);
    let b = ua.allocate(100, 16);
    assert!(a >= 0x1000 && a % 8 == 0);
    assert!(b % 16 == 0);
    assert!(b >= a + 24, "blocks overlap");
}

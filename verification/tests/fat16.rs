//! A whole FAT16 volume in memory: mounting, directory walking, and
//! file reading, plus the keyboard input queue.

use ysos::block::{Block, RamDisk, BLOCK_SIZE};
use ysos::direntry::CLUSTER_ROOT_DIR;
use ysos::fat16::{Directory, Fat16Impl, File};
use ysos::block::FsError;
use ysos::input::{push_key, try_pop_key, pop_key, InputBuffer};

fn zero_block() -> Vec<u8> {
    vec![0u8; BLOCK_SIZE]
}

fn tiny_volume() -> RamDisk {
    // Block 0: the BIOS parameter block of a one-sector-per-cluster
    // volume with one FAT sector and a sixteen-entry root directory.
    let mut bpb = zero_block();
    bpb[11] = 0x00;
    bpb[12] = 0x02; // 512 bytes per sector
    bpb[13] = 1; // sectors per cluster
    bpb[14] = 1;
    bpb[15] = 0; // one reserved sector
    bpb[16] = 1; // one FAT
    bpb[17] = 16;
    bpb[18] = 0; // sixteen root entries
    bpb[22] = 1;
    bpb[23] = 0; // one sector per FAT

    // Block 1: the FAT; cluster two ends the chain.
    let mut fat = zero_block();
    fat[4] = 0xFF;
    fat[5] = 0xFF;

    // Block 2: the root directory with one file, HELLO.TXT, five bytes
    // long, starting at cluster two.
    let mut root = zero_block();
    root[0..11].copy_from_slice(b"HELLO   TXT");
    root[11] = 0x20; // archive
    root[26] = 2;
    root[27] = 0; // first cluster
    root[28] = 5; // size

    // Block 3: cluster two's data.
    let mut data = zero_block();
    data[0..5].copy_from_slice(b"HELLO");

    let blocks = vec![
        Block { data: bpb },
        Block { data: fat },
        Block { data: root },
        Block { data },
    ];
    RamDisk::new(blocks)
}

#[test]
fn mounts_and_lays_out_the_volume() {
    let fs = Fat16Impl::new(tiny_volume()).unwrap();
    assert_eq!(fs.fat_start, 1);
    assert_eq!(fs.first_root_dir_sector, 2);
    assert_eq!(fs.first_data_sector, 3);
}

#[test]
fn finds_a_file_in_the_root_directory() {
    let fs = Fat16Impl::new(tiny_volume()).unwrap();
    let root = Directory::root();
    assert_eq!(root.cluster.0, CLUSTER_ROOT_DIR);
    let entry = fs.open_directory(&root, b"hello.txt").unwrap();
    assert_eq!(&entry.filename.name, b"HELLO   ");
    assert_eq!(&entry.filename.ext, b"TXT");
    assert_eq!(entry.size, 5);

    let listing = fs.traverse_cluster_chain(&root).unwrap();
    assert_eq!(listing.len(), 1);
    assert_eq!(listing[0].name, b"HELLO.TXT".to_vec());
    assert_eq!(listing[0].len, 5);
}

#[test]
fn reads_a_file_through_the_cluster_chain() {
    let fs = Fat16Impl::new(tiny_volume()).unwrap();
    let dir = fs.get_dir_from_name(b"/").unwrap();
    let entry = fs.open_directory(&dir, b"hello.txt").unwrap();
    let mut file = File::new(entry);
    assert_eq!(file.length(), 5);
    let mut buf = vec![0u8; 16];
    let n = file.read(&fs, &mut buf).unwrap();
    assert_eq!(n, 5);
    assert_eq!(&buf[0..5], b"HELLO");
    // The cursor advanced; a second read finds nothing more.
    let n2 = file.read(&fs, &mut buf).unwrap();
    assert_eq!(n2, 0);
}

#[test]
fn input_queue_keeps_arrival_order() {
    let mut input = InputBuffer::new();
    assert_eq!(try_pop_key(&mut input), None);
    assert!(push_key(&mut input, b'a'));
    assert!(push_key(&mut input, b'b'));
    assert_eq!(pop_key(&mut input), b'a');
    assert_eq!(try_pop_key(&mut input), Some(b'b'));
    assert_eq!(try_pop_key(&mut input), None);
}

#[test]
fn input_queue_drops_keys_past_its_bound() {
    let mut input = InputBuffer::new();
    for i in 0..128u32 {
        assert!(push_key(&mut input, (i % 251) as u8));
    }
    // The buffer is full now.
    assert!(!push_key(&mut input, 0xFF));
    assert_eq!(try_pop_key(&mut input), Some(0));
}

#[test]
fn missing_names_and_bad_volumes_are_refused() {
    let fs = Fat16Impl::new(tiny_volume()).unwrap();
    let root = Directory::root();
    assert!(matches!(
        fs.open_directory(&root, b"nosuch.bin"),
        Err(FsError::FileNotFound)
    ));

    // A volume whose first sector holds no parameter block is refused.
    let empty = RamDisk::new(vec![Block { data: zero_block() }]);
    assert!(matches!(Fat16Impl::new(empty), Err(FsError::BadBootRecord)));
}

use bit::walnut::{
    blocks_to_allocate, chunk_sizes, decrypt, encrypt, cal, ChunkError, Directory, Group, Inode,
    Superblock, BLOCKS_PER_GROUP,
};

#[test]
fn test_block_bitmap_seek_position() {}

#[test]
fn test_block_address() {
    let group_index = 0;
    let bitmap_index = 3;
    let block_index = Group::create_public_address(group_index, bitmap_index);
    let (_group_index, _bitmap_index) = Group::translate_public_address(block_index);
    assert_eq!(group_index, _group_index);
    assert_eq!(bitmap_index, _bitmap_index);
}

#[test]
fn test_block_allocation() {
    let mut group = Group::init();

    for i in [2, 20, 1500, 2000, 2002] {
        group.block_bitmap.set(i, true);
    }

    let res = group.allocate_region(0, 1000, 500);
    println!("{:?}", res);
    assert_eq!(res.0.len(), 3);
    assert_eq!(res.1, 0);

    for (address, length) in res.0 {
        let (_block_index, bitmap_index) = Group::translate_public_address(address);
        println!("{}", bitmap_index);
        group.release_data_region(bitmap_index, length);
    }

    for i in [2, 20, 1500, 2000, 2002] {
        group.block_bitmap.set(i, false);
    }

    assert_eq!(group.free_data_blocks() as u32, BLOCKS_PER_GROUP);

    let res = group.allocate_region(0, 40000, 200);

    for (address, length) in res.0 {
        let (_block_index, bitmap_index) = Group::translate_public_address(address);
        group.release_data_region(bitmap_index, length);
    }

    assert_eq!(group.free_data_blocks() as u32, BLOCKS_PER_GROUP);
}

#[test]
fn allocation_regions_skip_taken_blocks() {
    let mut group = Group::init();
    group.block_bitmap.set(2, true);
    group.block_bitmap.set(20, true);
    let (regions, left) = group.allocate_region(0, 30, 500);
    assert_eq!(regions, vec![(1, 2), (4, 17), (22, 11)]);
    assert_eq!(left, 0);
    assert_eq!(group.free_data_blocks(), 32768 - 32);
}

#[test]
fn allocation_stops_at_region_limit() {
    let mut group = Group::init();
    group.block_bitmap.set(1, true);
    group.block_bitmap.set(3, true);
    let (regions, left) = group.allocate_region(0, 10, 1);
    assert_eq!(regions, vec![(1, 1)]);
    assert_eq!(left, 9);
}

#[test]
fn allocation_beyond_group_leaves_rest() {
    let mut group = Group::init();
    let (regions, left) = group.allocate_region(0, 40000, 200);
    assert_eq!(regions, vec![(1, 32768)]);
    assert_eq!(left, 40000 - 32768);
    assert_eq!(group.free_data_blocks(), 0);
}

#[test]
fn allocate_one_takes_first_free() {
    let mut group = Group::init();
    group.block_bitmap.set(0, true);
    assert_eq!(group.allocate_one(0), Some(2));
    assert_eq!(group.free_data_blocks(), 32766);
}

#[test]
fn group_offsets_and_addresses() {
    assert_eq!(Group::seek_position(0), 4096);
    assert_eq!(Group::seek_position(1), 4096 + 4096 + 32768 * 4096);
    assert_eq!(Group::create_public_address(1, 0), 1 + 32769);
    assert_eq!(Group::translate_public_address(65537), (2, 0));
}

#[test]
fn group_bytes_round_trip() {
    let mut group = Group::init();
    group.block_bitmap.set(9, true);
    let bytes = group.serialize();
    assert_eq!(bytes.len(), 4096);
    assert_eq!(bytes[1], 2);
    let back = Group::deserialize(&bytes);
    assert_eq!(back.total_data_blocks(), 32768);
    assert_eq!(back.free_data_blocks(), 32767);
}

#[test]
fn blocks_needed_round_up() {
    assert_eq!(blocks_to_allocate(0), 0);
    assert_eq!(blocks_to_allocate(4096), 1);
    assert_eq!(blocks_to_allocate(4097), 2);
}

#[test]
fn chunk_sizes_follow_regions() {
    assert_eq!(chunk_sizes(&vec![(1, 2), (10, 1)], 8192 + 100).unwrap(), vec![8192, 100]);
    assert_eq!(chunk_sizes(&vec![(1, 2)], 4097).unwrap_err(), ChunkError::ShortRead);
    assert_eq!(chunk_sizes(&vec![(1, 1)], 5000).unwrap_err(), ChunkError::NotAllWritten);
}

#[test]
fn xor_round_trip() {
    let secret = b"hellobello";
    let a = "hello bello mi a helyzet?";
    let encrypted = encrypt(a.as_bytes(), secret);
    assert_eq!(encrypted[0], b'h' ^ b'h');
    let decrypted = decrypt(&encrypted, secret);
    assert_eq!(decrypted, a.as_bytes());
}

#[test]
fn cal_is_remainder_for_powers_of_two() {
    assert_eq!(cal(13, 4), 1);
    assert_eq!(cal(7, 8), 7);
}

#[test]
fn inode_raw_data_checks_size() {
    let mut inode = Inode::new(5, 100, 101, 0);
    assert_eq!((inode.created, inode.last_modified), (100, 101));
    assert_eq!(
        inode.set_raw_data(vec![1, 2, 3], 4).unwrap_err(),
        "Data read and given data size are not the same"
    );
    assert!(inode.set_raw_data(vec![1, 2, 3], 3).is_ok());
    assert_eq!(inode.size, 3);
    assert_eq!(
        inode.set_raw_data(vec![0; 5000], 5000).unwrap_err(),
        "Data is too big to be raw data. Does not fit inside inode"
    );
}

#[test]
fn superblock_header() {
    let mut sb = Superblock::new(7, 8);
    assert_eq!((sb.created, sb.modified), (7, 8));
    assert_eq!(&sb.magic, b"*bitfs*");
    sb.update_modified(9);
    assert_eq!(sb.modified, 9);
    sb.checksum(42);
    assert!(sb.verify_checksum(42));
    assert!(!sb.verify_checksum(41));
}

#[test]
fn directory_refuses_duplicates() {
    let mut d = Directory::init(0);
    assert!(d.add_file("a.txt", 3).is_ok());
    assert_eq!(d.add_file("a.txt", 4).unwrap_err(), "File already exist");
    assert_eq!(d.get_file("a.txt"), Some(3));
    assert!(d.add_folder("docs", 8).is_ok());
    assert_eq!(d.add_folder("docs", 9).unwrap_err(), "Folder already exist");
    assert_eq!(d.get_folder("docs"), Some(8));
    assert_eq!(d.get_folder("none"), None);
}

#[test]
fn image_layout_sizes() {
    assert_eq!(bit::walnut::image_size(0), 4096);
    assert_eq!(bit::walnut::image_size(1), 4096 + 4096 + 32768 * 4096);
    assert_eq!(bit::walnut::block_seek_position(3), 3 * 4096);
    assert!(Group::seek_position_fits(31));
    assert!(!Group::seek_position_fits(32));
    assert_eq!(Group::seek_position(31) as u64, bit::walnut::image_size(31));
}

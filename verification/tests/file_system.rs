use tg_rcore::easy_fs::EasyFileSystem;
use tg_rcore::vfs::{root_inode, Inode};

fn fresh() -> EasyFileSystem {
    EasyFileSystem::create(4096, 1)
}

#[test]
fn root_is_an_empty_directory() {
    let fs = fresh();
    let root = root_inode(&fs);
    assert_eq!(root.inode_id, 0);
    assert_eq!(root.block_id, fs.inode_area_start_block as usize);
    assert_eq!(root.stat(&fs), (0, true, 1));
    assert!(root.readdir(&fs).is_empty());
    assert!(root.find(&fs, "missing").is_none());
}

#[test]
fn inode_positions_follow_the_id() {
    let fs = fresh();
    let (block, offset) = fs.get_disk_inode_pos(5);
    assert_eq!(block, fs.inode_area_start_block + 1);
    assert_eq!(offset, 128);
    let h = Inode::new(block, offset, 5);
    assert_eq!(h.block_offset, 128);
}

#[test]
fn create_then_find() {
    let mut fs = fresh();
    let root = root_inode(&fs);
    let free = fs.free_inode_count();
    let f = root.create(&mut fs, "hello").unwrap();
    assert_eq!(f.inode_id, 1);
    assert_eq!(fs.free_inode_count(), free - 1);
    let found = root.find(&fs, "hello").unwrap();
    assert_eq!(found.inode_id, f.inode_id);
    assert_eq!(root.search(&fs, "hello").unwrap().inode_id, 1);
    assert_eq!(root.readdir(&fs), vec![String::from("hello")]);
    assert_eq!(f.stat(&fs), (1, false, 1));
}

#[test]
fn write_then_read_back() {
    let mut fs = fresh();
    let root = root_inode(&fs);
    let f = root.create(&mut fs, "data").unwrap();
    assert_eq!(f.write_at(&mut fs, 0, b"hello world"), 11);
    let mut buf = [0u8; 32];
    assert_eq!(f.read_at(&fs, 0, &mut buf), 11);
    assert_eq!(&buf[..11], b"hello world");
    let mut tail = [9u8; 4];
    assert_eq!(f.read_at(&fs, 6, &mut tail), 4);
    assert_eq!(&tail, b"worl");
    assert_eq!(f.read_at(&fs, 11, &mut tail), 0);
}

#[test]
fn write_past_end_fills_gap_with_zeros() {
    let mut fs = fresh();
    let root = root_inode(&fs);
    let f = root.create(&mut fs, "gap").unwrap();
    assert_eq!(f.write_at(&mut fs, 600, b"xy"), 2);
    let mut buf = [7u8; 602];
    assert_eq!(f.read_at(&fs, 0, &mut buf), 602);
    assert!(buf[..600].iter().all(|&b| b == 0));
    assert_eq!(&buf[600..], b"xy");
}

#[test]
fn directories_hold_their_records_as_bytes() {
    let mut fs = fresh();
    let root = root_inode(&fs);
    let f = root.create(&mut fs, "hello").unwrap();
    let mut rec = [0xffu8; 40];
    assert_eq!(root.read_at(&fs, 0, &mut rec), 32);
    assert_eq!(&rec[..5], b"hello");
    assert!(rec[5..28].iter().all(|&b| b == 0));
    assert_eq!(&rec[28..32], &[f.inode_id as u8, 0, 0, 0]);
    assert!(rec[32..].iter().all(|&b| b == 0xff));
    assert_eq!(root.write_at(&mut fs, 32, b"abc"), 3);
    let mut tail = [0u8; 3];
    assert_eq!(root.read_at(&fs, 32, &mut tail), 3);
    assert_eq!(&tail, b"abc");
    assert_eq!(root.readdir(&fs), vec![String::from("hello")]);
}

#[test]
fn hard_link_counts_and_unlink_frees() {
    let mut fs = fresh();
    let root = root_inode(&fs);
    let f = root.create(&mut fs, "a").unwrap();
    f.write_at(&mut fs, 0, &[1u8; 1000]);
    let free_inodes = fs.free_inode_count();
    let free_blocks = fs.free_data_count();
    assert_eq!(root.create_hard_link(&mut fs, "b", &f), 0);
    assert_eq!(f.stat(&fs).2, 2);
    assert_eq!(root.create_hard_link(&mut fs, "b", &f), -1);
    assert_eq!(root.find(&fs, "b").unwrap().inode_id, f.inode_id);
    assert_eq!(root.unlink_child(&mut fs, "a"), 0);
    assert_eq!(f.stat(&fs).2, 1);
    assert!(root.find(&fs, "a").is_none());
    assert_eq!(root.readdir(&fs), vec![String::from("b")]);
    assert_eq!(root.unlink_child(&mut fs, "b"), 0);
    assert_eq!(fs.free_inode_count(), free_inodes + 1);
    assert!(fs.free_data_count() > free_blocks);
    assert!(root.readdir(&fs).is_empty());
    assert_eq!(root.unlink_child(&mut fs, "b"), -1);
}

#[test]
fn linking_a_directory_is_refused() {
    let mut fs = fresh();
    let root = root_inode(&fs);
    let r = std::sync::Arc::new(root_inode(&fs));
    assert_eq!(root.create_hard_link(&mut fs, "self", &r), -1);
    let f = root.create(&mut fs, "f").unwrap();
    assert_eq!(f.create_hard_link(&mut fs, "x", &f), -1);
    assert_eq!(f.unlink_child(&mut fs, "x"), -1);
}

#[test]
fn clear_truncates_to_empty() {
    let mut fs = fresh();
    let root = root_inode(&fs);
    let f = root.create(&mut fs, "c").unwrap();
    f.write_at(&mut fs, 0, &[5u8; 2000]);
    let before = fs.free_data_count();
    f.clear(&mut fs);
    let mut buf = [0u8; 8];
    assert_eq!(f.read_at(&fs, 0, &mut buf), 0);
    assert!(fs.free_data_count() > before);
}

#[test]
fn unlinking_a_fresh_link_restores_the_directory() {
    let mut fs = fresh();
    let root = root_inode(&fs);
    let f = root.create(&mut fs, "a").unwrap();
    let mut before = [0u8; 64];
    let n = root.read_at(&fs, 0, &mut before);
    assert_eq!(n, 32);
    assert_eq!(root.create_hard_link(&mut fs, "b", &f), 0);
    assert_eq!(root.unlink_child(&mut fs, "b"), 0);
    let mut after = [0u8; 64];
    assert_eq!(root.read_at(&fs, 0, &mut after), 32);
    assert_eq!(before, after);
    assert_eq!(f.stat(&fs).2, 1);
    assert_eq!(root.readdir(&fs), vec![String::from("a")]);
}

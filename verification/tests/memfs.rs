use rofs::filesystem::{list, DirectoryEntry, FsRead};
use rofs::memfs::{Directory, Error, File, MemFs, Node, State};
use std::collections::HashMap;

fn listing(fs: &MemFs, handle: usize) -> Vec<(String, usize)> {
    let mut out: Vec<DirectoryEntry<MemFs>> = Vec::new();
    fs.dir_read(&handle, &mut out).unwrap();
    out.into_iter().map(|e| (e.name, e.handle)).collect()
}

fn named(name: &str, handle: usize) -> (String, usize) {
    (name.to_string(), handle)
}

#[test]
fn root_is_handle_zero() {
    let fs = MemFs::new();
    assert_eq!(fs.dir_root(), 0);
}

#[test]
fn root_lists_itself_twice_then_its_children() {
    let fs = MemFs::new();
    assert_eq!(
        listing(&fs, fs.dir_root()),
        vec![named("..", 0), named(".", 0), named("file1", 1), named("inner", 2)]
    );
}

#[test]
fn inner_lists_root_as_parent() {
    let fs = MemFs::new();
    assert_eq!(listing(&fs, 2), vec![named("..", 0), named(".", 2), named("file2", 3)]);
}

#[test]
fn listing_replaces_what_the_buffer_held() {
    let fs = MemFs::new();
    let mut out: Vec<DirectoryEntry<MemFs>> = Vec::new();
    out.push(DirectoryEntry { name: "stale".to_string(), handle: 77 });
    assert_eq!(fs.dir_read(&2, &mut out), Ok(()));
    assert_eq!(out.len(), 3);
    assert_eq!(out[0].name, "..");
    assert_eq!(out[2].name, "file2");
    assert_eq!(out[2].handle, 3);
}

#[test]
fn listing_a_file_fails_and_keeps_the_buffer() {
    let fs = MemFs::new();
    let mut out: Vec<DirectoryEntry<MemFs>> = Vec::new();
    out.push(DirectoryEntry { name: "kept".to_string(), handle: 42 });
    assert_eq!(fs.dir_read(&1, &mut out), Err(Error::NotDirectory));
    assert_eq!(out.len(), 1);
    assert_eq!(out[0].name, "kept");
    assert_eq!(out[0].handle, 42);
}

#[test]
fn listing_an_unknown_handle_fails_and_keeps_the_buffer() {
    let fs = MemFs::new();
    let mut out: Vec<DirectoryEntry<MemFs>> = Vec::new();
    out.push(DirectoryEntry { name: "kept".to_string(), handle: 42 });
    assert_eq!(fs.dir_read(&4, &mut out), Err(Error::InvalidHandle));
    assert_eq!(out.len(), 1);
    assert_eq!(out[0].name, "kept");
}

#[test]
fn listing_twice_gives_the_same() {
    let fs = MemFs::new();
    assert_eq!(listing(&fs, 0), listing(&fs, 0));
    assert_eq!(listing(&fs, 2), listing(&fs, 2));
}

#[test]
fn listed_handles_resolve() {
    let fs = MemFs::new();
    let mut pending = vec![fs.dir_root()];
    let mut files = 0;
    let mut dirs = 0;
    while let Some(dir) = pending.pop() {
        dirs += 1;
        for (name, handle) in listing(&fs, dir) {
            let mut out: Vec<DirectoryEntry<MemFs>> = Vec::new();
            match fs.dir_read(&handle, &mut out) {
                Ok(()) => {
                    if name != "." && name != ".." {
                        pending.push(handle);
                    }
                }
                Err(e) => {
                    assert_eq!(e, Error::NotDirectory);
                    let ctx = fs.file_open(&handle).unwrap();
                    let mut buf = [0u8; 1];
                    assert_eq!(fs.file_read(&handle, &ctx, 0..1, &mut buf), Ok(1));
                    assert_eq!(fs.file_close(&handle, ctx), Ok(()));
                    files += 1;
                }
            }
        }
    }
    assert_eq!(dirs, 2);
    assert_eq!(files, 2);
}

#[test]
fn opening_a_directory_fails() {
    let fs = MemFs::new();
    assert_eq!(fs.file_open(&0), Err(Error::NotFile));
    assert_eq!(fs.file_open(&2), Err(Error::NotFile));
}

#[test]
fn opening_an_unknown_handle_fails() {
    let fs = MemFs::new();
    assert_eq!(fs.file_open(&9), Err(Error::InvalidHandle));
}

#[test]
fn opening_a_file_succeeds() {
    let fs = MemFs::new();
    assert_eq!(fs.file_open(&1), Ok(()));
    assert_eq!(fs.file_open(&3), Ok(()));
}

#[test]
fn reading_the_small_file_whole() {
    let fs = MemFs::new();
    let ctx = fs.file_open(&1).unwrap();
    let mut buf = [0xffu8; 10];
    assert_eq!(fs.file_read(&1, &ctx, 0..10, &mut buf), Ok(10));
    assert_eq!(buf, [0, 1, 2, 3, 4, 5, 6, 7, 8, 9]);
}

#[test]
fn reading_the_start_of_the_large_file() {
    let fs = MemFs::new();
    let ctx = fs.file_open(&3).unwrap();
    let mut buf = [0u8; 5];
    assert_eq!(fs.file_read(&3, &ctx, 0..5, &mut buf), Ok(5));
    assert_eq!(buf, [2, 2, 2, 2, 2]);
}

#[test]
fn the_large_file_is_a_mebibyte() {
    let fs = MemFs::new();
    let mut buf = vec![0u8; 1024 * 1024];
    assert_eq!(fs.file_read(&3, &(), 0..1024 * 1024, &mut buf), Ok(1024 * 1024));
    assert!(buf.iter().all(|b| *b == 2));
    let mut one = [0u8; 1];
    assert_eq!(
        fs.file_read(&3, &(), 1024 * 1024..1024 * 1024 + 1, &mut one),
        Err(Error::InvalidRange)
    );
}

#[test]
fn reading_a_middle_range_fills_the_front_only() {
    let fs = MemFs::new();
    let mut buf = [7u8; 6];
    assert_eq!(fs.file_read(&1, &(), 2..5, &mut buf), Ok(3));
    assert_eq!(buf, [2, 3, 4, 7, 7, 7]);
}

#[test]
fn reading_an_empty_range_copies_nothing() {
    let fs = MemFs::new();
    let mut buf = [7u8; 2];
    assert_eq!(fs.file_read(&1, &(), 10..10, &mut buf), Ok(0));
    assert_eq!(buf, [7, 7]);
    let mut none: [u8; 0] = [];
    assert_eq!(fs.file_read(&1, &(), 4..4, &mut none), Ok(0));
}

#[test]
fn reading_into_a_short_buffer_fails_and_keeps_it() {
    let fs = MemFs::new();
    let mut buf = [7u8; 3];
    assert_eq!(fs.file_read(&1, &(), 0..4, &mut buf), Err(Error::OutBufferError));
    assert_eq!(buf, [7, 7, 7]);
}

#[test]
fn reading_past_the_end_fails_and_keeps_the_buffer() {
    let fs = MemFs::new();
    let mut buf = [7u8; 16];
    assert_eq!(fs.file_read(&1, &(), 5..11, &mut buf), Err(Error::InvalidRange));
    assert_eq!(buf, [7u8; 16]);
}

#[test]
fn reading_a_reversed_range_fails() {
    let fs = MemFs::new();
    let mut buf = [7u8; 16];
    assert_eq!(fs.file_read(&1, &(), 5..2, &mut buf), Err(Error::InvalidRange));
    assert_eq!(buf, [7u8; 16]);
}

#[test]
fn the_handle_is_checked_before_the_kind_and_the_kind_before_the_range() {
    let fs = MemFs::new();
    let mut buf = [0u8; 1];
    assert_eq!(fs.file_read(&8, &(), 5..2, &mut buf), Err(Error::InvalidHandle));
    assert_eq!(fs.file_read(&0, &(), 5..2, &mut buf), Err(Error::NotFile));
    assert_eq!(fs.file_read(&1, &(), 0..11, &mut buf), Err(Error::InvalidRange));
    assert_eq!(fs.file_read(&1, &(), 0..2, &mut buf), Err(Error::OutBufferError));
}

#[test]
fn closing_checks_the_handle() {
    let fs = MemFs::new();
    assert_eq!(fs.file_close(&1, ()), Ok(()));
    assert_eq!(fs.file_close(&0, ()), Err(Error::NotFile));
    assert_eq!(fs.file_close(&5, ()), Err(Error::InvalidHandle));
}

#[test]
fn attributes_are_given() {
    let fs = MemFs::new();
    assert!(fs.file_get_attr(&1).is_ok());
}

#[test]
fn attaching_and_detaching_change_nothing() {
    let mut fs = MemFs::new();
    fs.init();
    assert_eq!(listing(&fs, 0).len(), 4);
    fs.destroy();
    assert_eq!(listing(&fs, 0).len(), 4);
}

#[test]
fn a_new_directory_is_empty() {
    let dir = Directory::new(5);
    assert!(dir.entries.is_empty());
    assert_eq!(dir.parent, 5);
}

#[test]
fn a_node_is_a_file_or_a_directory() {
    let file = Node::File(File(vec![1, 2, 3]));
    assert_eq!(file.as_file().map(|f| f.0.clone()).ok(), Some(vec![1, 2, 3]));
    assert!(matches!(file.as_directory(), Err(Error::NotDirectory)));
    let mut dir = Directory::new(0);
    dir.entries.push((4, "x".to_string()));
    let dir = Node::Directory(dir);
    assert!(matches!(dir.as_file(), Err(Error::NotFile)));
    let inner = dir.as_directory().ok().unwrap();
    assert_eq!(inner.parent, 0);
    assert_eq!(inner.entries, vec![(4, "x".to_string())]);
}

#[test]
fn handles_count_up_from_zero() {
    let mut state = State { nodes: HashMap::new(), node_cnt: 0 };
    assert_eq!(MemFs::next_handle(&mut state), 0);
    assert_eq!(MemFs::next_handle(&mut state), 1);
    assert_eq!(MemFs::next_handle(&mut state), 2);
    assert_eq!(state.node_cnt, 3);
    assert!(state.nodes.is_empty());
}

#[test]
fn a_new_store_holds_the_root_alone() {
    let state = State::new();
    assert_eq!(state.node_cnt, 1);
    assert_eq!(state.nodes.len(), 1);
    let fs = MemFs::with_state(state);
    assert_eq!(listing(&fs, 0), vec![named("..", 0), named(".", 0)]);
    assert_eq!(fs.file_open(&1), Err(Error::InvalidHandle));
}

#[test]
fn children_are_listed_in_the_order_in_which_they_were_added() {
    let mut state = State::new();
    assert_eq!(state.add_directory(0, "b".to_string()), Ok(1));
    assert_eq!(state.add_file(0, "a".to_string(), vec![1, 2]), Ok(2));
    assert_eq!(state.add_directory(1, "deep".to_string()), Ok(3));
    assert_eq!(state.add_file(3, "a".to_string(), vec![9]), Ok(4));
    assert_eq!(state.add_file(0, "c".to_string(), vec![]), Ok(5));
    assert_eq!(state.node_cnt, 6);
    let fs = MemFs::with_state(state);
    assert_eq!(
        listing(&fs, 0),
        vec![named("..", 0), named(".", 0), named("b", 1), named("a", 2), named("c", 5)]
    );
    assert_eq!(listing(&fs, 1), vec![named("..", 0), named(".", 1), named("deep", 3)]);
    assert_eq!(listing(&fs, 3), vec![named("..", 1), named(".", 3), named("a", 4)]);
    let mut buf = [0u8; 2];
    assert_eq!(fs.file_read(&2, &(), 0..2, &mut buf), Ok(2));
    assert_eq!(buf, [1, 2]);
    assert_eq!(fs.file_read(&5, &(), 0..0, &mut buf), Ok(0));
    assert_eq!(fs.file_read(&5, &(), 0..1, &mut buf), Err(Error::InvalidRange));
}

#[test]
fn adding_under_an_unknown_handle_or_a_file_is_refused() {
    let mut state = State::new();
    assert_eq!(state.add_file(0, "f".to_string(), vec![1]), Ok(1));
    assert_eq!(state.add_file(7, "x".to_string(), vec![]), Err(Error::InvalidHandle));
    assert_eq!(state.add_directory(7, "x".to_string()), Err(Error::InvalidHandle));
    assert_eq!(state.add_file(1, "x".to_string(), vec![]), Err(Error::NotDirectory));
    assert_eq!(state.add_directory(1, "x".to_string()), Err(Error::NotDirectory));
    assert_eq!(state.node_cnt, 2);
    assert_eq!(state.nodes.len(), 2);
    let fs = MemFs::with_state(state);
    assert_eq!(listing(&fs, 0), vec![named("..", 0), named(".", 0), named("f", 1)]);
}

#[test]
fn a_clone_serves_the_same_store() {
    let fs = MemFs::new();
    let other = fs.clone();
    assert_eq!(listing(&fs, 0), listing(&other, 0));
    drop(fs);
    assert_eq!(listing(&other, 2), vec![named("..", 0), named(".", 2), named("file2", 3)]);
    let mut buf = [0u8; 3];
    assert_eq!(other.file_read(&1, &(), 7..10, &mut buf), Ok(3));
    assert_eq!(buf, [7, 8, 9]);
}

#[test]
fn list_goes_through_any_filesystem() {
    let fs = MemFs::new();
    let mut out: Vec<DirectoryEntry<MemFs>> = Vec::new();
    assert_eq!(list(&fs, &2, &mut out), Ok(()));
    assert_eq!(out.len(), 3);
    assert_eq!(out[2].name, "file2");
    assert_eq!(list(&fs, &3, &mut out), Err(Error::NotDirectory));
    assert_eq!(out.len(), 3);
}

use btdt::error::{ErrorKind, IoPathResult};
use btdt::storage::in_memory::dir_node::{DirNode, Found, Node};
use btdt::storage::in_memory::file_node::{FileNode, FileReader, FileWriter};
use btdt::storage::in_memory::InMemoryStorage;
use btdt::storage::{write_file, EntryType, Storage, StorageEntry};
use btdt::util::io::{read_exact, write_all, Read, Write};
use std::sync::Arc;

fn write_file_to_storage(
    storage: &mut InMemoryStorage,
    path: &str,
    content: &str,
) -> IoPathResult<()> {
    let mut writer = storage.put(path)?;
    write_all(&mut writer, content.as_bytes()).unwrap();
    storage.close(writer)
}

fn read_all(reader: &mut FileReader) -> Vec<u8> {
    let mut data = Vec::new();
    loop {
        let bytes = reader.read(5).unwrap();
        if bytes.is_empty() {
            return data;
        }
        data.extend(bytes);
    }
}

fn read_file_from_storage_to_string(storage: &InMemoryStorage, path: &str) -> IoPathResult<String> {
    let mut handle = storage.get(path)?;
    Ok(String::from_utf8(read_all(&mut handle.reader)).unwrap())
}

fn sorted(mut entries: Vec<StorageEntry>) -> Vec<StorageEntry> {
    entries.sort_unstable_by_key(|entry| entry.name.to_string());
    entries
}

#[test]
fn test_provides_size_hint() {
    let mut storage = InMemoryStorage::new();
    write_file_to_storage(&mut storage, "/dir/file.txt", "Hello, world!").unwrap();
    assert_eq!(
        storage.get("/dir/file.txt").unwrap().size_hint,
        "Hello, world!".len() as u64
    );
}

#[test]
fn test_get_returns_error_for_non_existent_file() {
    let storage = InMemoryStorage::new();
    let result = storage.get("/non-existent-file.txt");
    assert_eq!(result.err().unwrap().io_error().kind(), ErrorKind::NotFound);
}

#[test]
fn test_list_returns_error_for_non_existent_dir() {
    let storage = InMemoryStorage::new();
    let result = storage.list("/non-existent-dir");
    assert_eq!(result.err().unwrap().io_error().kind(), ErrorKind::NotFound);
}

#[test]
fn test_list_returns_error_for_non_existent_file_or_dir() {
    let mut storage = InMemoryStorage::new();
    let result = storage.delete("/non-existent");
    assert_eq!(result.err().unwrap().io_error().kind(), ErrorKind::NotFound);
}

#[test]
fn test_can_get_file_that_was_previously_put_into_storage() {
    let mut storage = InMemoryStorage::new();
    write_file_to_storage(&mut storage, "/dir/file.txt", "Hello, world!").unwrap();
    assert_eq!(
        &read_file_from_storage_to_string(&storage, "/dir/file.txt").unwrap(),
        "Hello, world!"
    );
}

#[test]
fn test_different_files_are_separate() {
    let mut storage = InMemoryStorage::new();
    write_file_to_storage(&mut storage, "/a.txt", "Hello, a!").unwrap();
    write_file_to_storage(&mut storage, "/b.txt", "Hello, b!").unwrap();
    assert_eq!(
        &read_file_from_storage_to_string(&storage, "/a.txt").unwrap(),
        "Hello, a!"
    );
    assert_eq!(
        &read_file_from_storage_to_string(&storage, "/b.txt").unwrap(),
        "Hello, b!"
    );
}

#[test]
fn test_can_overwrite_existing_file() {
    let mut storage = InMemoryStorage::new();
    write_file_to_storage(&mut storage, "/file.txt", "Hello, world!").unwrap();
    write_file_to_storage(&mut storage, "/file.txt", "Bye, world!").unwrap();
    assert_eq!(
        &read_file_from_storage_to_string(&storage, "/file.txt").unwrap(),
        "Bye, world!"
    );
}

#[test]
fn test_errors_when_trying_to_overwrite_dir_with_file() {
    let mut storage = InMemoryStorage::new();
    write_file_to_storage(&mut storage, "/dir/file.txt", "file-content").unwrap();
    assert!(storage.put("dir").is_err());
    assert_eq!(
        storage.put("/dir").err().unwrap().io_error().kind(),
        ErrorKind::IsADirectory
    );
}

#[test]
fn test_list_returns_direct_children_of_directory() {
    let mut storage = InMemoryStorage::new();
    write_file_to_storage(&mut storage, "/rootfile.txt", "rootfile-content").unwrap();
    write_file_to_storage(&mut storage, "/dir/file1.txt", "file1-content").unwrap();
    write_file_to_storage(&mut storage, "/dir/file2.txt", "file2-content").unwrap();
    write_file_to_storage(&mut storage, "/dir/subdir/subfile.txt", "subfile-content").unwrap();

    assert_eq!(
        sorted(storage.list("/").unwrap()),
        vec![
            StorageEntry {
                entry_type: EntryType::Directory,
                name: "dir".to_string(),
                size: 0,
            },
            StorageEntry {
                entry_type: EntryType::File,
                name: "rootfile.txt".to_string(),
                size: 16,
            }
        ]
    );
    assert_eq!(
        sorted(storage.list("/dir").unwrap()),
        vec![
            StorageEntry {
                entry_type: EntryType::File,
                name: "file1.txt".to_string(),
                size: 13,
            },
            StorageEntry {
                entry_type: EntryType::File,
                name: "file2.txt".to_string(),
                size: 13,
            },
            StorageEntry {
                entry_type: EntryType::Directory,
                name: "subdir".to_string(),
                size: 0,
            },
        ]
    );
}

#[test]
fn test_can_delete_file() {
    let mut storage = InMemoryStorage::new();
    write_file_to_storage(&mut storage, "/file.txt", "file-content").unwrap();
    storage.delete("/file.txt").unwrap();
    assert_eq!(
        storage.get("/file.txt").err().unwrap().io_error().kind(),
        ErrorKind::NotFound
    );
    assert_eq!(storage.list("/").unwrap().len(), 0);
}

#[test]
fn test_can_delete_empty_directory() {
    let mut storage = InMemoryStorage::new();
    write_file_to_storage(&mut storage, "/dir/file.txt", "file-content").unwrap();
    storage.delete("/dir/file.txt").unwrap();
    storage.delete("/dir").unwrap();
    assert_eq!(storage.list("/").unwrap().len(), 0);
}

#[test]
fn test_delete_returns_error_for_non_empty_dir() {
    let mut storage = InMemoryStorage::new();
    write_file_to_storage(&mut storage, "/dir/file.txt", "file-content").unwrap();
    assert_eq!(
        storage.delete("/dir").err().unwrap().io_error().kind(),
        ErrorKind::DirectoryNotEmpty
    );
}

#[test]
fn test_exists_returns_true_for_existing_file() {
    let mut storage = InMemoryStorage::new();
    assert!(!storage.exists_file("/dir").unwrap());
    assert!(!storage.exists_file("/dir/file.txt").unwrap());
    write_file_to_storage(&mut storage, "/dir/file.txt", "file-content").unwrap();
    assert!(!storage.exists_file("/dir").unwrap());
    assert!(storage.exists_file("/dir/file.txt").unwrap());
}

#[test]
fn test_put_is_atomic() {
    let mut storage = InMemoryStorage::new();
    let mut writer_a = storage.put("/file.txt").unwrap();
    let mut writer_b = storage.put("/file.txt").unwrap();
    writer_a.write(b"Hello, ").unwrap();
    writer_a.flush().unwrap();
    writer_b.write(b"Goodbye, ").unwrap();
    writer_b.flush().unwrap();
    writer_a.write(b"world!").unwrap();
    writer_b.write(b"world!").unwrap();
    assert!(!storage.exists_file("/file.txt").unwrap());
    storage.close(writer_a).unwrap();
    assert_eq!(
        read_file_from_storage_to_string(&storage, "/file.txt").unwrap(),
        "Hello, world!"
    );
    storage.close(writer_b).unwrap();
    assert_eq!(
        read_file_from_storage_to_string(&storage, "/file.txt").unwrap(),
        "Goodbye, world!"
    );
}

#[test]
fn file_is_not_visible_before_its_writer_is_closed() {
    let mut storage = InMemoryStorage::new();
    let mut writer = storage.put("/a/b/file").unwrap();
    write_all(&mut writer, b"content").unwrap();
    assert_eq!(
        storage.get("/a/b/file").err().unwrap().io_error().kind(),
        ErrorKind::NotFound
    );
    assert_eq!(
        sorted(storage.list("/a").unwrap()),
        vec![StorageEntry {
            entry_type: EntryType::Directory,
            name: "b".to_string(),
            size: 0
        }]
    );
    storage.close(writer).unwrap();
    assert!(storage.exists_file("/a/b/file").unwrap());
}

#[test]
fn reader_keeps_the_content_it_was_opened_on() {
    let mut storage = InMemoryStorage::new();
    write_file_to_storage(&mut storage, "/file", "first").unwrap();
    let mut handle = storage.get("/file").unwrap();
    write_file_to_storage(&mut storage, "/file", "second").unwrap();
    storage.delete("/file").unwrap();
    assert_eq!(read_all(&mut handle.reader), b"first");
}

#[test]
fn errors_of_the_storage_have_their_kinds() {
    let mut storage = InMemoryStorage::new();
    write_file_to_storage(&mut storage, "/dir/file.txt", "x").unwrap();
    assert_eq!(
        storage.get("relative").err().unwrap().io_error().kind(),
        ErrorKind::InvalidInput
    );
    assert_eq!(
        storage.get("/").err().unwrap().io_error().kind(),
        ErrorKind::InvalidInput
    );
    assert_eq!(
        storage.get("/dir").err().unwrap().io_error().kind(),
        ErrorKind::IsADirectory
    );
    assert_eq!(
        storage.get("/dir/file.txt/x").err().unwrap().io_error().kind(),
        ErrorKind::NotFound
    );
    assert_eq!(
        storage.list("/dir/file.txt").err().unwrap().io_error().kind(),
        ErrorKind::NotADirectory
    );
    assert_eq!(
        storage.list("dir").err().unwrap().io_error().kind(),
        ErrorKind::InvalidInput
    );
    assert_eq!(
        storage
            .put("/dir/file.txt/below")
            .err()
            .unwrap()
            .io_error()
            .kind(),
        ErrorKind::NotADirectory
    );
    assert_eq!(
        storage.put("/").err().unwrap().io_error().kind(),
        ErrorKind::InvalidInput
    );
    assert_eq!(
        storage.delete("/").err().unwrap().io_error().kind(),
        ErrorKind::InvalidInput
    );
    assert_eq!(
        storage.delete("/dir/none").err().unwrap().io_error().kind(),
        ErrorKind::NotFound
    );
    assert_eq!(
        storage
            .delete("/dir/file.txt/none")
            .err()
            .unwrap()
            .io_error()
            .kind(),
        ErrorKind::NotFound
    );
    assert_eq!(
        storage.get("/none").err().unwrap().path(),
        &Some("/none".to_string())
    );
}

#[test]
fn write_file_writes_in_one_go() {
    let mut storage = InMemoryStorage::new();
    write_file(&mut storage, "/x//y/", b"bytes").unwrap();
    assert_eq!(
        read_file_from_storage_to_string(&storage, "/x/y").unwrap(),
        "bytes"
    );
    assert_eq!(
        write_file(&mut storage, "/x", b"bytes")
            .err()
            .unwrap()
            .io_error()
            .kind(),
        ErrorKind::IsADirectory
    );
}

#[test]
fn read_exact_reads_the_asked_length_or_fails() {
    let node = Arc::new(FileNode::with_content(b"0123456789".to_vec()));
    let mut reader = FileNode::reader(&node);
    assert_eq!(read_exact(&mut reader, 4).unwrap(), b"0123");
    assert_eq!(read_exact(&mut reader, 0).unwrap(), b"");
    assert_eq!(
        read_exact(&mut reader, 7).unwrap_err().kind,
        ErrorKind::InvalidData
    );
    assert_eq!(node.size(), 10);
    assert_eq!(FileNode::new().size(), 0);
}

#[test]
fn file_writer_collects_what_is_written() {
    let mut writer = FileWriter::new(vec!["a".to_string()]);
    assert_eq!(writer.write(b"ab").unwrap(), 2);
    write_all(&mut writer, b"cd").unwrap();
    let (target, content) = writer.into_parts();
    assert_eq!(target, vec!["a".to_string()]);
    assert_eq!(content, b"abcd");
}

#[test]
fn writer_for_a_path_that_is_no_name_cannot_be_closed() {
    let mut storage = InMemoryStorage::new();
    let writer = FileNode::writer(vec!["a/b".to_string()]);
    assert_eq!(
        storage.close(writer).err().unwrap().io_error().kind(),
        ErrorKind::InvalidInput
    );
    let writer = FileNode::writer(vec![]);
    assert_eq!(
        storage.close(writer).err().unwrap().io_error().kind(),
        ErrorKind::InvalidInput
    );
}

#[test]
fn dir_node_keeps_its_entries_by_name() {
    let mut dir = DirNode::new();
    assert!(dir.is_empty());
    assert_eq!(dir.size(), 0);
    dir.create_file("f", Arc::new(FileNode::with_content(vec![1, 2, 3])))
        .unwrap();
    dir.get_or_insert_dir("d").unwrap();
    assert!(!dir.is_empty());
    assert!(matches!(dir.get("f"), Some(Node::File(_))));
    assert!(matches!(dir.get("d"), Some(Node::Dir(_))));
    assert!(dir.get("x").is_none());
    assert!(matches!(dir.get_mut("d"), Some(Node::Dir(_))));
    assert_eq!(
        dir.get_or_insert_dir("f").err().unwrap().io_error().kind(),
        ErrorKind::NotADirectory
    );
    assert_eq!(
        dir.create_file("d", Arc::new(FileNode::new()))
            .err()
            .unwrap()
            .io_error()
            .kind(),
        ErrorKind::IsADirectory
    );
    let names = vec!["d".to_string(), "g".to_string()];
    dir.store(&names, 0, Some(Arc::new(FileNode::with_content(vec![7]))))
        .unwrap();
    assert!(matches!(dir.find(&names, 0), Found::File(_)));
    assert!(matches!(dir.find(&names, 2), Found::Dir(_)));
    assert!(matches!(
        dir.find(&vec!["d".to_string(), "h".to_string()], 0),
        Found::Nothing
    ));
    assert_eq!(
        dir.delete("d").err().unwrap().io_error().kind(),
        ErrorKind::DirectoryNotEmpty
    );
    dir.remove(&names, 0).unwrap();
    dir.delete("d").unwrap();
    dir.delete("f").unwrap();
    assert_eq!(
        dir.delete("f").err().unwrap().io_error().kind(),
        ErrorKind::NotFound
    );
    assert!(dir.is_empty());
    assert_eq!(dir.list().len(), 0);
}

#[test]
fn dir_node_takes_any_name() {
    let mut dir = DirNode::new();
    dir.create_file("a/b", Arc::new(FileNode::with_content(vec![1])))
        .unwrap();
    dir.create_file("", Arc::new(FileNode::with_content(vec![2])))
        .unwrap();
    dir.get_or_insert_dir("..").unwrap();
    dir.get_or_insert_dir("..").unwrap();
    assert_eq!(dir.list().len(), 3);
    assert!(matches!(dir.get("a/b"), Some(Node::File(f)) if f.size() == 1));
    assert!(matches!(dir.get(""), Some(Node::File(_))));
    assert!(matches!(dir.get(".."), Some(Node::Dir(d)) if d.is_empty()));
    assert!(dir.get("a").is_none());
    dir.create_file("a/b", Arc::new(FileNode::new())).unwrap();
    assert!(matches!(dir.get("a/b"), Some(Node::File(f)) if f.size() == 0));
    assert_eq!(dir.list().len(), 3);
}

#[test]
fn self_closing_writer_hands_everything_to_its_writer() {
    let mut writer = btdt::util::close::SelfClosing::new(FileWriter::new(vec!["f".to_string()]));
    write_all(&mut writer, b"abc").unwrap();
    assert_eq!(writer.write(b"de").unwrap(), 2);
    writer.flush().unwrap();
    let (target, data) = writer.into_inner().into_parts();
    assert_eq!(target, vec!["f".to_string()]);
    assert_eq!(data, b"abcde");
}

use lib::fd_table::FdTable;
use lib::fd_table::File;
use std::sync::Arc;
use std::sync::Mutex;

struct MockFile {
    id: usize,
    write_log: Mutex<Vec<Vec<u8>>>,
}

impl MockFile {
    fn new(id: usize) -> Arc<Self> {
        Arc::new(Self { id, write_log: Mutex::new(vec![]) })
    }
}

impl File for MockFile {
    fn read(&self, buf: &mut [u8]) -> isize {
        buf[0] = self.id as u8;
        1
    }

    fn write(&self, buf: &[u8]) -> isize {
        self.write_log.lock().unwrap().push(buf.to_vec());
        buf.len() as isize
    }
}

fn id_of(f: &Arc<dyn File>) -> u8 {
    let mut buf = [0u8; 1];
    f.read(&mut buf);
    buf[0]
}

#[test]
fn test_alloc_basic() {
    let mut table = FdTable::new();
    let fd = table.alloc_fd(MockFile::new(0));
    assert_eq!(fd, 0, "first fd should be 0");
    let fd2 = table.alloc_fd(MockFile::new(1));
    assert_eq!(fd2, 1, "second fd should be 1");
}

#[test]
fn test_get() {
    let mut table = FdTable::new();
    let file = MockFile::new(42);
    let fd = table.alloc_fd(file);
    let got = table.get(fd);
    assert!(got.is_some(), "get should return Some");
    let mut buf = [0u8; 1];
    got.unwrap().read(&mut buf);
    assert_eq!(buf[0], 42);
}

#[test]
fn test_get_invalid() {
    let table = FdTable::new();
    assert!(table.get(0).is_none());
    assert!(table.get(999).is_none());
}

#[test]
fn test_close_and_reuse() {
    let mut table = FdTable::new();
    let fd0 = table.alloc_fd(MockFile::new(0));
    let fd1 = table.alloc_fd(MockFile::new(1));
    let fd2 = table.alloc_fd(MockFile::new(2));

    assert!(table.close(fd1), "closing fd=1 should succeed");
    assert!(table.get(fd1).is_none(), "get should return None after close");

    let fd_new = table.alloc_fd(MockFile::new(99));
    assert_eq!(fd_new, fd1, "should reuse the smallest closed fd");

    let _ = (fd0, fd2);
}

#[test]
fn test_close_invalid() {
    let mut table = FdTable::new();
    assert!(!table.close(0), "closing non-existent fd should return false");
}

#[test]
fn test_count() {
    let mut table = FdTable::new();
    assert_eq!(table.count(), 0);
    let fd0 = table.alloc_fd(MockFile::new(0));
    let fd1 = table.alloc_fd(MockFile::new(1));
    assert_eq!(table.count(), 2);
    table.close(fd0);
    assert_eq!(table.count(), 1);
    table.close(fd1);
    assert_eq!(table.count(), 0);
}

#[test]
fn test_write_through_fd() {
    let mut table = FdTable::new();
    let file = MockFile::new(0);
    let fd = table.alloc_fd(file);
    let f = table.get(fd).unwrap();
    let n = f.write(b"hello");
    assert_eq!(n, 5);
}

#[test]
fn get_returns_the_same_file_object() {
    let mut table = FdTable::new();
    let file = MockFile::new(7);
    let as_dyn: Arc<dyn File> = file.clone();
    let fd = table.alloc_fd(as_dyn.clone());
    let got = table.get(fd).unwrap();
    assert!(Arc::ptr_eq(&got, &as_dyn));
    got.write(b"abc");
    assert_eq!(file.write_log.lock().unwrap().len(), 1);
}

#[test]
fn alloc_leaves_other_descriptors_alone() {
    let mut table = FdTable::default();
    table.alloc_fd(MockFile::new(10));
    table.alloc_fd(MockFile::new(11));
    table.alloc_fd(MockFile::new(12));
    table.close(0);
    assert_eq!(table.alloc_fd(MockFile::new(13)), 0);
    assert_eq!(id_of(&table.get(0).unwrap()), 13);
    assert_eq!(id_of(&table.get(1).unwrap()), 11);
    assert_eq!(id_of(&table.get(2).unwrap()), 12);
}

#[test]
fn reuse_takes_the_smaller_of_closed_and_first_free() {
    let mut table = FdTable::new();
    for i in 0..5 {
        table.alloc_fd(MockFile::new(i));
    }
    assert!(table.close(3));
    assert!(table.close(1));
    assert_eq!(table.count(), 3);
    assert_eq!(table.alloc_fd(MockFile::new(20)), 1);
    assert_eq!(table.alloc_fd(MockFile::new(21)), 3);
    assert_eq!(table.alloc_fd(MockFile::new(22)), 5);
    assert_eq!(table.count(), 6);
}

#[test]
fn closing_twice_fails_the_second_time() {
    let mut table = FdTable::new();
    let fd = table.alloc_fd(MockFile::new(0));
    assert!(table.close(fd));
    assert!(!table.close(fd));
    assert_eq!(table.count(), 0);
    assert!(!table.close(5));
}

#[test]
fn closing_the_descriptor_just_allocated_undoes_it() {
    let mut table = FdTable::new();
    table.alloc_fd(MockFile::new(0));
    table.alloc_fd(MockFile::new(1));
    table.close(0);
    let before = table.count();
    let fd = table.alloc_fd(MockFile::new(5));
    assert!(table.close(fd));
    assert_eq!(table.count(), before);
    assert!(table.get(0).is_none());
    assert_eq!(id_of(&table.get(1).unwrap()), 1);
    assert_eq!(table.alloc_fd(MockFile::new(6)), fd);
}

#[test]
fn get_reflects_the_latest_call_on_each_descriptor() {
    let mut table = FdTable::new();
    table.alloc_fd(MockFile::new(1));
    table.alloc_fd(MockFile::new(2));
    table.close(0);
    table.close(7);
    table.alloc_fd(MockFile::new(3));
    table.close(1);
    assert_eq!(id_of(&table.get(0).unwrap()), 3);
    assert!(table.get(1).is_none());
    assert!(table.get(2).is_none());
}

use lib::rwlock::admit_reader;
use lib::rwlock::admit_writer;
use lib::rwlock::RwLock;
use lib::rwlock::READER_MASK;
use lib::rwlock::WRITER_HOLDING;
use lib::rwlock::WRITER_WAITING;

#[test]
fn reader_admitted_when_free_or_shared() {
    assert_eq!(admit_reader(0), Some(1));
    assert_eq!(admit_reader(5), Some(6));
}

#[test]
fn reader_refused_while_writer_holds_or_waits() {
    assert_eq!(admit_reader(WRITER_HOLDING), None);
    assert_eq!(admit_reader(WRITER_WAITING), None);
    assert_eq!(admit_reader(2 * WRITER_WAITING + 3), None);
}

#[test]
fn reader_refused_when_count_full() {
    assert_eq!(admit_reader(READER_MASK), None);
    assert_eq!(admit_reader(READER_MASK - 1), Some(READER_MASK));
}

#[test]
fn writer_admitted_only_when_waiting_without_readers_or_holder() {
    assert_eq!(admit_writer(WRITER_WAITING), Some(WRITER_HOLDING));
    assert_eq!(admit_writer(3 * WRITER_WAITING), Some(2 * WRITER_WAITING + WRITER_HOLDING));
    assert_eq!(admit_writer(0), None);
    assert_eq!(admit_writer(WRITER_WAITING + 1), None);
    assert_eq!(admit_writer(WRITER_WAITING + WRITER_HOLDING), None);
}

#[test]
fn new_lock_is_free_and_holds_the_value() {
    let (state, data) = RwLock::new(vec![1, 2]).into_parts();
    assert_eq!(state, 0);
    assert_eq!(data, vec![1, 2]);
}

#[test]
fn readers_share_and_exclude_writer() {
    let mut lock = RwLock::new(0u32);
    let r1 = lock.try_read().expect("first reader");
    let r2 = lock.try_read().expect("second reader");
    lock.announce_writer();
    assert!(lock.try_write().is_none());
    lock.release_read(r1);
    assert!(lock.try_write().is_none());
    lock.release_read(r2);
    let w = lock.try_write().expect("writer after readers left");
    lock.release_write(w);
    assert_eq!(lock.into_parts(), (0, 0));
}

#[test]
fn writer_excludes_everyone_until_released() {
    let mut lock = RwLock::new(String::from("x"));
    lock.announce_writer();
    let w = lock.try_write().expect("writer on a free lock");
    assert!(lock.try_read().is_none());
    lock.announce_writer();
    assert!(lock.try_write().is_none());
    lock.release_write(w);
    let w2 = lock.try_write().expect("second writer after the first left");
    lock.release_write(w2);
    let r = lock.try_read().expect("reader after both writers left");
    lock.release_read(r);
    assert_eq!(lock.into_parts(), (0, String::from("x")));
}

#[test]
fn second_waiting_writer_keeps_readers_out() {
    let mut lock = RwLock::new(());
    lock.announce_writer();
    lock.announce_writer();
    let w = lock.try_write().expect("first writer");
    lock.release_write(w);
    assert!(lock.try_read().is_none());
    let w2 = lock.try_write().expect("second writer");
    assert!(lock.try_read().is_none());
    lock.release_write(w2);
    assert!(lock.try_read().is_some());
}

#[test]
fn waiting_writer_blocks_new_readers() {
    let mut lock = RwLock::new(vec![1, 2]);
    let r = lock.try_read().expect("reader");
    lock.announce_writer();
    assert!(lock.try_read().is_none());
    assert!(lock.try_write().is_none());
    lock.release_read(r);
    let w = lock.try_write().expect("waiting writer gets in");
    assert!(lock.try_read().is_none());
    lock.release_write(w);
    assert!(lock.try_read().is_some());
}

#[test]
fn reader_sees_the_last_write() {
    let mut lock = RwLock::new(1u32);
    lock.announce_writer();
    let w = lock.try_write().unwrap();
    lock.write_value(&w, 42);
    lock.release_write(w);
    let r = lock.try_read().unwrap();
    assert_eq!(*lock.read_value(&r), 42);
    lock.release_read(r);
}

#[test]
fn state_word_counts_readers_and_waiting_writers() {
    let mut lock = RwLock::new(());
    let _a = lock.try_read().unwrap();
    let _b = lock.try_read().unwrap();
    lock.announce_writer();
    lock.announce_writer();
    assert_eq!(lock.into_parts().0, 2 * WRITER_WAITING + 2);
}

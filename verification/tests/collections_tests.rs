use kernel::cache::Cache;
use kernel::collections::list::{List, RawList};
use kernel::collections::queue::{Queue, RawQueue, RefQueue};
use kernel::util::{copy_vec, filled_vec};

#[test]
fn vector_helpers() {
    let v = vec![3u16, 1, 4, 1, 5];
    assert_eq!(copy_vec(&v), v);
    assert_eq!(filled_vec(7u8, 3), vec![7, 7, 7]);
    assert!(filled_vec(7u8, 0).is_empty());
}

#[test]
fn ring_queue_is_first_in_first_out() {
    let mut q = Queue::new(vec![0u32; 3]);
    assert!(q.is_empty());
    assert!(!q.is_full());
    assert_eq!(q.dequeue(), Err(()));
    assert_eq!(q.enqueue(1), Ok(()));
    assert_eq!(q.enqueue(2), Ok(()));
    assert_eq!(q.enqueue(3), Ok(()));
    assert!(q.is_full());
    assert_eq!(q.enqueue(4), Err(()));
    assert_eq!(q.dequeue(), Ok(1));
    assert_eq!(q.enqueue(4), Ok(()));
    assert_eq!(q.dequeue(), Ok(2));
    assert_eq!(q.dequeue(), Ok(3));
    assert_eq!(q.dequeue(), Ok(4));
    assert!(q.is_empty());
    assert_eq!(q.dequeue(), Err(()));
}

#[test]
fn ring_queue_starts_empty_whatever_the_buffer_holds() {
    let mut q = Queue::new(vec![9u8, 9]);
    assert!(q.is_empty());
    assert_eq!(q.dequeue(), Err(()));
}

#[test]
fn linked_list_push_pop_and_cursors() {
    let mut list: List<u32> = List::new();
    assert!(list.is_empty());
    assert_eq!(list.pop(), None);
    list.push(10);
    list.push(20);
    list.push(30);
    assert_eq!(list.length(), 3);

    let mut c = list.front();
    assert_eq!(c.data(&list), Some(10));
    c.move_next(&list);
    assert_eq!(c.data(&list), Some(20));
    c.move_next(&list);
    assert_eq!(c.data(&list), Some(30));
    c.move_next(&list);
    assert_eq!(c.data(&list), None);

    let mut t = list.tail();
    assert_eq!(t.data(&list), Some(30));
    t.move_prev(&list);
    assert_eq!(t.data(&list), Some(20));
    t.move_prev(&list);
    t.move_prev(&list);
    assert_eq!(t.data(&list), None);

    assert_eq!(list.pop(), Some(10));
    assert_eq!(list.length(), 2);
}

#[test]
fn linked_list_cursor_remove_in_the_middle() {
    let mut list: List<u8> = List::new();
    for v in [1u8, 2, 3, 4] {
        list.push(v);
    }
    let mut c = list.front();
    c.move_next(&list);
    assert_eq!(c.remove(&mut list), Some(2));
    assert_eq!(list.length(), 3);
    let mut seen = Vec::new();
    let mut it = list.iter();
    loop {
        let cur = it.next(&list);
        match cur.data(&list) {
            Some(v) => seen.push(v),
            None => break,
        }
    }
    assert_eq!(seen, vec![1, 3, 4]);
    // the freed slot is used again
    list.push(5);
    assert_eq!(list.length(), 4);
    assert_eq!(list.tail().data(&list), Some(5));
}

#[test]
fn ref_queue_order() {
    let mut q: RefQueue<usize> = RefQueue::new();
    assert!(q.is_empty());
    q.push(7);
    q.push(8);
    assert_eq!(q.length(), 2);
    let first = q.iter().next(&q.list);
    assert_eq!(first.data(&q.list), Some(7));
    assert_eq!(q.pop(), Some(7));
    assert_eq!(q.pop(), Some(8));
    assert_eq!(q.pop(), None);
}

#[test]
fn raw_list_and_raw_queue() {
    let mut l: RawList<u8> = RawList::empty();
    l.push(1);
    l.push(2);
    l.push(3);
    assert_eq!(l.len(), 3);
    let mut it = l.iter();
    assert_eq!(it.next(&l), Some(3));
    assert_eq!(it.next(&l), Some(2));
    // the value pushed before last lost its link to the older ones
    assert_eq!(it.next(&l), None);
    assert_eq!(l.pop(), Some(1));

    let mut q: RawQueue<u8> = RawQueue::new();
    q.push(1);
    q.push(2);
    assert_eq!(q.length(), 2);
    assert_eq!(q.pop(), Some(1));
    assert_eq!(q.pop(), Some(2));
    assert_eq!(q.pop(), None);
}

#[test]
fn cache_read_after_write_and_eviction() {
    let mut c: Cache<u8> = Cache::new(4, 2, 0);
    assert_eq!(c.read_from_cache(5), Err(()));
    // both entries start clean under tag 0
    assert_eq!(c.allocate_cache(5, &vec![1, 2, 3, 4]), Ok(None));
    assert_eq!(c.read_from_cache(5), Ok(vec![1, 2, 3, 4]));
    assert_eq!(c.write_to_cache(5, &vec![9, 9, 9, 9]), Ok(()));
    assert_eq!(c.read_from_cache(5), Ok(vec![9, 9, 9, 9]));
    assert_eq!(c.write_to_cache(7, &vec![1, 1, 1, 1]), Err(()));
    // the clean entry under tag 0 is the least recently used one
    assert_eq!(c.allocate_cache(6, &vec![6; 4]), Ok(None));
    // now the dirty entry of tag 5 goes, and comes back to be written out
    assert_eq!(c.allocate_cache(8, &vec![8; 4]), Ok(Some((5, vec![9, 9, 9, 9]))));
    assert_eq!(c.read_from_cache(5), Err(()));
    assert_eq!(c.read_from_cache(8), Ok(vec![8; 4]));
}

#[test]
fn cache_flush_returns_dirty_entries_once() {
    let mut c: Cache<u8> = Cache::new(2, 3, 0);
    assert_eq!(c.allocate_cache(1, &vec![1, 1]), Ok(None));
    assert_eq!(c.allocate_cache(2, &vec![2, 2]), Ok(None));
    assert_eq!(c.write_to_cache(2, &vec![5, 5]), Ok(()));
    assert_eq!(c.write_to_cache(1, &vec![4, 4]), Ok(()));
    let out = c.flush();
    assert_eq!(out, vec![(1, vec![4, 4]), (2, vec![5, 5])]);
    assert!(c.flush().is_empty());
    assert_eq!(c.read_from_cache(1), Ok(vec![4, 4]));
}

#[test]
fn empty_cache_refuses_allocation() {
    let mut c: Cache<u8> = Cache::new(2, 0, 0);
    assert_eq!(c.allocate_cache(1, &vec![1, 1]), Err(()));
    assert!(c.flush().is_empty());
}

#[test]
fn cursor_inserts_at_the_ends() {
    let mut list: List<u8> = List::new();
    list.push(2);
    let mut head = list.front();
    head.insert_before(&mut list, 1);
    let mut tail = list.tail();
    tail.insert_next(&mut list, 3);
    assert_eq!(list.length(), 3);
    assert_eq!(list.front().data(&list), Some(1));
    assert_eq!(list.tail().data(&list), Some(3));
    let mut c = list.front();
    c.move_next(&list);
    assert_eq!(c.data(&list), Some(2));
}

#[test]
fn cache_flush_writes_each_dirty_entry_once() {
    let mut c: Cache<u8> = Cache::new(2, 3, 0);
    assert!(c.flush().is_empty());
    assert_eq!(c.write_to_cache(0, &vec![7, 8]), Ok(()));
    let out = c.flush();
    assert_eq!(out.len(), 1);
    assert_eq!(out[0].0, 0);
    assert_eq!(out[0].1, vec![7, 8]);
    assert!(c.flush().is_empty());
}

#[test]
fn queue_length_and_positions() {
    let mut q = Queue::new(vec![0u8; 3]);
    assert_eq!(q.len(), 0);
    q.enqueue(1).unwrap();
    q.enqueue(2).unwrap();
    q.enqueue(3).unwrap();
    assert_eq!(q.len(), 3);
    assert_eq!(q.dequeue(), Ok(1));
    q.enqueue(4).unwrap();
    // the ring has wrapped: the oldest value sits behind the newest
    assert_eq!((q.get(0), q.get(1), q.get(2)), (2, 3, 4));
    assert_eq!(q.len(), 3);
}

use rc::rc::{Heap, Rc};
use std::cell::RefCell;

/// Writes its number into a shared log when it is torn down.
struct Item {
    number: i32,
    log: std::rc::Rc<RefCell<Vec<i32>>>,
}

impl Drop for Item {
    fn drop(&mut self) {
        self.log.borrow_mut().push(self.number);
    }
}

fn items(numbers: &[i32], log: &std::rc::Rc<RefCell<Vec<i32>>>) -> Vec<Item> {
    numbers.iter().map(|&number| Item { number, log: log.clone() }).collect()
}

#[test]
fn new_handle_counts_one() {
    let mut heap = Heap::new();
    let rc = Rc::new(&mut heap, 7u32);
    assert_eq!(rc.count(&heap), 1);
    assert_eq!(*rc.deref(&heap), 7);
    assert_eq!(*rc.borrow(&heap), 7);
}

#[test]
fn every_constructor_counts_one() {
    let mut texts = Heap::new();
    let a = Rc::from_str(&mut texts, "a");
    let b = Rc::from_string(&mut texts, String::from("b"));
    let c = Rc::from(&mut texts, String::from("c").into_boxed_str());
    assert_eq!((a.count(&texts), b.count(&texts), c.count(&texts)), (1, 1, 1));

    let mut slices = Heap::new();
    let d = Rc::from_slice(&mut slices, &[1u8, 2][..]);
    let e = Rc::from_vec(&mut slices, vec![3u8]);
    assert_eq!((d.count(&slices), e.count(&slices)), (1, 1));
    assert_eq!(d.deref(&slices), &[1u8, 2][..]);
    assert_eq!(e.deref(&slices), &[3u8][..]);
}

#[test]
fn count_follows_duplicates_and_teardowns() {
    let mut heap = Heap::new();
    let original = Rc::new(&mut heap, 'x');
    let n = 25usize;
    let mut duplicates = Vec::new();
    for made in 0..n {
        assert_eq!(original.count(&heap), made + 1);
        duplicates.push(original.clone(&mut heap));
    }
    assert_eq!(original.count(&heap), n + 1);

    let mut left = n + 1;
    while let Some(duplicate) = duplicates.pop() {
        assert_eq!(duplicate.count(&heap), left);
        duplicate.drop(&mut heap);
        left -= 1;
        assert_eq!(original.count(&heap), left);
    }
    assert_eq!(original.count(&heap), 1);
    original.drop(&mut heap);
}

#[test]
fn handles_of_other_values_keep_their_count() {
    let mut heap = Heap::new();
    let first = Rc::new(&mut heap, 1i64);
    let second = Rc::new(&mut heap, 2i64);
    let first_again = first.clone(&mut heap);
    assert_eq!(first.count(&heap), 2);
    assert_eq!(second.count(&heap), 1);

    first.drop(&mut heap);
    first_again.drop(&mut heap);
    assert_eq!(second.count(&heap), 1);
    assert_eq!(*second.deref(&heap), 2);

    let third = Rc::new(&mut heap, 3i64);
    assert_eq!(*third.deref(&heap), 3);
    assert_eq!(*second.deref(&heap), 2);
}

#[test]
fn hello_world_shared_four_ways() {
    let mut heap = Heap::new();
    let original = Rc::from_str(&mut heap, "Hello, world!");
    let duplicates = vec![
        original.clone(&mut heap),
        original.clone(&mut heap),
        original.clone(&mut heap),
    ];
    assert_eq!(original.count(&heap), 4);

    original.drop(&mut heap);

    for duplicate in duplicates.iter() {
        assert_eq!(duplicate.count(&heap), 3);
        assert_eq!(duplicate.deref(&heap), "Hello, world!");
    }
}

#[test]
fn adopted_sequence_is_released_once() {
    let log = std::rc::Rc::new(RefCell::new(Vec::new()));
    let owned: Box<[Item]> = items(&[0, 1, 2], &log).into_boxed_slice();

    let mut heap = Heap::new();
    let original = Rc::from(&mut heap, owned);
    let duplicate = original.clone(&mut heap);
    assert_eq!(duplicate.deref(&heap).len(), 3);

    original.drop(&mut heap);
    assert!(log.borrow().is_empty());
    assert_eq!(duplicate.deref(&heap)[2].number, 2);

    duplicate.drop(&mut heap);
    assert_eq!(*log.borrow(), vec![0, 1, 2]);

    std::mem::drop(heap);
    assert_eq!(*log.borrow(), vec![0, 1, 2]);
}

#[test]
fn value_is_released_with_its_last_handle() {
    let log = std::rc::Rc::new(RefCell::new(Vec::new()));
    let mut heap = Heap::new();
    let kept = Rc::new(&mut heap, Item { number: 1, log: log.clone() });
    let gone = Rc::new(&mut heap, Item { number: 2, log: log.clone() });
    let mut handles = Vec::new();
    for _ in 0..4 {
        handles.push(gone.clone(&mut heap));
    }
    gone.drop(&mut heap);
    for handle in handles {
        assert!(log.borrow().is_empty());
        handle.drop(&mut heap);
    }
    assert_eq!(*log.borrow(), vec![2]);
    assert_eq!(kept.count(&heap), 1);
    assert_eq!(kept.deref(&heap).number, 1);

    kept.drop(&mut heap);
    assert_eq!(*log.borrow(), vec![2, 1]);
}

#[test]
fn adoption_does_not_move_the_value() {
    let boxed: Box<[u64]> = vec![0, 1, 2].into_boxed_slice();
    let before = boxed.as_ptr();
    let mut heap = Heap::new();
    let rc = Rc::from(&mut heap, boxed);
    let filler = Rc::from_vec(&mut heap, vec![9u64; 64]);
    assert_eq!(rc.deref(&heap).as_ptr(), before);
    assert_eq!(rc.deref(&heap), &[0u64, 1, 2][..]);
    assert_eq!(filler.deref(&heap).len(), 64);
}

use pointers::cell::Cell;
use pointers::rc::{Rc, RcArena};
use pointers::refcell::RefCell;
use pointers::spinlock::{AnyValue, Mutex};

#[test]
fn cell_set_then_get() {
    let mut c = Cell::new(1u64);
    assert_eq!(c.get(), 1);
    c.set(7);
    assert_eq!(c.get(), 7);
    c.set(3);
    assert_eq!(c.get(), 3);
}

#[test]
fn refcell_two_shared_borrows_see_same_value() {
    let mut c = RefCell::new(41u32);
    let a = c.borrow().unwrap();
    let b = c.borrow().unwrap();
    assert_eq!(*c.get(&a), 41);
    assert_eq!(*c.get(&b), 41);
    assert!(c.borrow_mut().is_none());
    c.release(a);
    assert!(c.borrow_mut().is_none());
    c.release(b);
    let m = c.borrow_mut().unwrap();
    c.release_mut(m);
}

#[test]
fn refcell_exclusive_refuses_shared() {
    let mut c = RefCell::new(String::from("x"));
    let m = c.borrow_mut().unwrap();
    assert!(c.borrow().is_none());
    assert!(c.borrow_mut().is_none());
    c.get_mut(&m).push('y');
    assert_eq!(c.get_excl(&m), "xy");
    c.release_mut(m);
    let r = c.borrow().unwrap();
    assert_eq!(c.get(&r), "xy");
    c.release(r);
}

#[test]
fn refcell_end_to_end() {
    let mut c = RefCell::new(0i32);
    let g1 = c.borrow().unwrap();
    let g2 = c.borrow().unwrap();
    assert_eq!(*c.get(&g1), 0);
    assert_eq!(*c.get(&g2), 0);
    c.release(g1);
    c.release(g2);
    let m = c.borrow_mut().unwrap();
    *c.get_mut(&m) = 5;
    c.release_mut(m);
    let g = c.borrow().unwrap();
    assert_eq!(*c.get(&g), 5);
    c.release(g);
}

struct Counted<'a> {
    drops: &'a std::cell::Cell<u32>,
}

impl Drop for Counted<'_> {
    fn drop(&mut self) {
        self.drops.set(self.drops.get() + 1);
    }
}

#[test]
fn rc_clone_then_release_keeps_value() {
    let mut heap = RcArena::new();
    let a = Rc::new(&mut heap, 10u8);
    let b = a.clone(&mut heap);
    assert!(b.release(&mut heap).is_none());
    assert_eq!(*heap.get(&a), 10);
    *heap.get_mut(&a) = 11;
    assert_eq!(*heap.get(&a), 11);
    assert_eq!(a.release(&mut heap), Some(11));
}

#[test]
fn rc_frees_exactly_once() {
    let drops = std::cell::Cell::new(0u32);
    let mut heap = RcArena::new();
    let a = Rc::new(&mut heap, Counted { drops: &drops });
    let b = a.clone(&mut heap);
    let c = b.clone(&mut heap);
    assert!(a.release(&mut heap).is_none());
    assert!(c.release(&mut heap).is_none());
    assert_eq!(drops.get(), 0);
    let last = b.release(&mut heap);
    assert!(last.is_some());
    drop(last);
    assert_eq!(drops.get(), 1);
    drop(heap);
    assert_eq!(drops.get(), 1);
}

#[test]
fn rc_blocks_are_separate() {
    let mut heap = RcArena::new();
    let a = Rc::new(&mut heap, 1i64);
    let b = Rc::new(&mut heap, 2i64);
    assert_eq!(a.release(&mut heap), Some(1));
    assert_eq!(*heap.get(&b), 2);
}

#[test]
fn mutex_with_lock_returns_closure_result() {
    let m = Mutex::new(5usize, AnyValue {});
    let seen = m.with_lock(|v| (v + 1, v));
    assert_eq!(seen, 5);
    assert_eq!(m.with_lock(|v| (v, v)), 6);
}

#[test]
fn rc_block_lives_while_a_handle_remains() {
    let mut heap = RcArena::new();
    let first = Rc::new(&mut heap, 'q');
    let mut held = vec![first];
    for round in 0..5 {
        let extra = held[0].clone(&mut heap);
        held.push(extra);
        if round % 2 == 0 {
            let h = held.pop().unwrap();
            assert!(h.release(&mut heap).is_none());
        }
        assert_eq!(*heap.get(&held[0]), 'q');
    }
    let n = held.len();
    let mut freed = 0;
    for (i, h) in held.into_iter().enumerate() {
        let out = h.release(&mut heap);
        if i + 1 == n {
            assert_eq!(out, Some('q'));
            freed += 1;
        } else {
            assert!(out.is_none());
        }
    }
    assert_eq!(freed, 1);
}

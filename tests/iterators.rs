use pointers::flatten::{flatten, Flatten};

fn count<T: Copy>(mut it: Flatten<T>) -> usize {
    let mut n = 0;
    while it.next().is_some() {
        n += 1;
    }
    n
}

#[test]
fn empty() {
    assert_eq!(count(flatten(Vec::<Vec<()>>::new())), 0);
}

#[test]
fn many_empty() {
    assert_eq!(count(flatten(vec![Vec::<()>::new(), vec![], vec![]])), 0);
}

#[test]
fn one() {
    assert_eq!(count(flatten(vec![vec!["a"]])), 1);
}

#[test]
fn two() {
    assert_eq!(count(flatten(vec![vec!["a", "b"]])), 2);
}

#[test]
fn two_inner() {
    assert_eq!(count(flatten(vec![vec!["a"], vec!["b"]])), 2);
}

#[test]
fn two_inner_four() {
    assert_eq!(count(flatten(vec![vec!["a", "b"], vec!["b", "c"]])), 4);
}

#[test]
fn reverse() {
    let mut it = flatten(vec![vec!["a", "b"], vec!["b", "c"]]);
    let mut x: Vec<&str> = Vec::new();
    while let Some(v) = it.next_back() {
        x.push(v);
    }
    assert_eq!(x, vec!["c", "b", "b", "a"]);
}

#[test]
fn both_ends() {
    let mut iter = flatten(vec![vec!["a1", "a2"], vec!["b1", "b2"]]);
    assert_eq!(iter.next(), Some("a1"));
    assert_eq!(iter.next_back(), Some("b2"));
    assert_eq!(iter.next(), Some("a2"));
    assert_eq!(iter.next_back(), Some("b1"));
}

#[test]
fn ends_meet_without_repeating() {
    let mut iter = Flatten::new(vec![vec![1u32], vec![], vec![2, 3]]);
    assert_eq!(iter.next_back(), Some(3));
    assert_eq!(iter.next(), Some(1));
    assert_eq!(iter.next(), Some(2));
    assert_eq!(iter.next_back(), None);
    assert_eq!(iter.next(), None);
}

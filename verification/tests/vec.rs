use maestro::util::collections::vec::CollectResult;
use maestro::util::collections::vec::Vec;

fn evens() -> Vec<usize> {
    let mut v = Vec::<usize>::new();
    v.push(0).unwrap();
    v.push(2).unwrap();
    v.push(4).unwrap();
    v.push(6).unwrap();
    v.push(8).unwrap();
    v
}

#[test]
fn vec_insert_remove0() {
    let mut v = Vec::<usize>::new();
    assert_eq!(v.len(), 0);

    for i in 0..100 {
        v.insert(i, i).unwrap();
        assert_eq!(v.len(), i + 1);
        assert_eq!(v.as_slice()[i], i);
    }

    for i in (0..100).rev() {
        assert_eq!(v.remove(i), i);
        assert_eq!(v.len(), i);
    }
}

#[test]
fn vec_push() {
    let mut v = Vec::<usize>::new();
    assert_eq!(v.len(), 0);

    for i in 0..100 {
        v.push(i).unwrap();
        assert_eq!(v.len(), i + 1);
        assert_eq!(v.as_slice()[i], i);
    }
}

#[test]
fn vec_push_clear() {
    let mut v = Vec::<usize>::new();
    assert_eq!(v.len(), 0);

    for i in 0..100 {
        v.push(i).unwrap();
        assert_eq!(v.len(), i + 1);
        assert_eq!(v.as_slice()[i], i);
    }

    v.clear();
    assert_eq!(v.len(), 0);
}

#[test]
fn vec_push_pop() {
    let mut v = Vec::<usize>::new();
    assert_eq!(v.len(), 0);

    for i in 0..100 {
        v.push(i).unwrap();
        assert_eq!(v.len(), 1);
        assert_eq!(v.as_slice()[0], i);
        v.pop();
        assert_eq!(v.len(), 0);
    }
}

#[test]
fn vec_retain0() {
    let mut v = Vec::<usize>::new();

    v.retain(|_| true);
    assert!(v.is_empty());

    v.retain(|_| false);
    assert!(v.is_empty());
}

#[test]
fn vec_retain1() {
    let mut v: Vec<usize> = Vec::from_slice(&[0usize, 1, 2, 3, 4]).unwrap();
    v.retain(|_| true);
    assert_eq!(v.as_slice(), &[0, 1, 2, 3, 4]);

    let mut v: Vec<usize> = Vec::from_slice(&[0usize, 1, 2, 3, 4]).unwrap();
    v.retain(|_| false);
    assert_eq!(v.as_slice(), &[]);
}

#[test]
fn vec_retain2() {
    let mut v: Vec<usize> = Vec::from_slice(&[0usize, 1, 2, 3, 4]).unwrap();
    v.retain(|i| *i % 2 == 0);
    assert_eq!(v.as_slice(), &[0, 2, 4]);

    let mut v: Vec<usize> = Vec::from_slice(&[0usize, 1, 2, 3, 4]).unwrap();
    v.retain(|i| *i % 2 == 1);
    assert_eq!(v.as_slice(), &[1, 3]);
}

#[test]
fn vec_truncate0() {
    let mut v = evens();
    v.truncate(0);
    assert!(v.is_empty());
}

#[test]
fn vec_truncate1() {
    let mut v = evens();
    v.truncate(1);
    assert_eq!(v.len(), 1);
    assert_eq!(v.as_slice()[0], 0);
}

#[test]
fn vec_truncate2() {
    let mut v = evens();
    for i in (0..=5).rev() {
        v.truncate(i);
        assert_eq!(v.len(), i);
    }
}

#[test]
fn vec_truncate3() {
    let mut v = Vec::<usize>::new();
    v.truncate(10000);
    assert_eq!(v.len(), 0);
}

#[test]
fn vec_insert_in_the_middle() {
    let mut v = evens();
    v.insert(2, 3).unwrap();
    assert_eq!(v.as_slice(), &[0, 2, 3, 4, 6, 8]);
    assert_eq!(v.remove(0), 0);
    assert_eq!(v.remove(4), 8);
    assert_eq!(v.as_slice(), &[2, 3, 4, 6]);
    assert_eq!(v.get(1), Some(&3));
    assert_eq!(v.get(4), None);
    assert_eq!(v.pop(), Some(6));
    assert!(v.capacity() >= v.len());
}

#[test]
fn vec_append_and_extend() {
    let mut a = evens();
    let mut b: Vec<usize> = Vec::from_slice(&[1, 3]).unwrap();
    a.append(&mut b).unwrap();
    assert_eq!(a.as_slice(), &[0, 2, 4, 6, 8, 1, 3]);
    assert!(b.is_empty());
    a.extend_from_slice(&[5, 7]).unwrap();
    assert_eq!(a.as_slice(), &[0, 2, 4, 6, 8, 1, 3, 5, 7]);
    let c = a.try_clone().unwrap();
    assert_eq!(c.as_slice(), a.as_slice());
    a.as_mut_slice()[0] = 10;
    assert_eq!(a.as_slice()[0], 10);
    assert_eq!(c.as_slice()[0], 0);
}

#[test]
fn vec_resize() {
    let mut v = evens();
    v.resize(7, 1).unwrap();
    assert_eq!(v.as_slice(), &[0, 2, 4, 6, 8, 1, 1]);
    v.resize(2, 9).unwrap();
    assert_eq!(v.as_slice(), &[0, 2]);
    v.resize(2, 9).unwrap();
    assert_eq!(v.as_slice(), &[0, 2]);
}

#[test]
fn vec_with_capacity() {
    let v = Vec::<u8>::with_capacity(16).unwrap();
    assert_eq!(v.len(), 0);
    assert!(v.capacity() >= 16);
    let v = Vec::<u8>::new();
    assert_eq!(v.capacity(), 0);
    assert!(v.is_empty());
}

#[test]
fn vec_into_iter() {
    let mut it = evens().into_iter();
    assert_eq!(it.size_hint(), (5, Some(5)));
    assert_eq!(it.next(), Some(0));
    assert_eq!(it.next(), Some(2));
    assert_eq!(it.size_hint(), (3, Some(3)));
    assert_eq!(it.count(), 3);
    let mut it = Vec::<usize>::new().into_iter();
    assert_eq!(it.next(), None);
}

#[test]
fn vec_iter_from_both_ends() {
    let mut it = evens().into_iter();
    assert_eq!(it.next_back(), Some(8));
    assert_eq!(it.next(), Some(0));
    assert_eq!(it.next_back(), Some(6));
    assert_eq!(it.size_hint(), (2, Some(2)));
    assert_eq!(it.next(), Some(2));
    assert_eq!(it.next_back(), Some(4));
    assert_eq!(it.next_back(), None);
    assert_eq!(it.next(), None);
}

#[test]
fn vec_collect() {
    let mut it = evens().into_iter();
    assert_eq!(it.next(), Some(0));
    let collected = CollectResult::from_iter(it).0.unwrap();
    assert_eq!(collected.as_slice(), &[2, 4, 6, 8]);
    let empty = CollectResult::from_iter(Vec::<usize>::new().into_iter()).0.unwrap();
    assert!(empty.is_empty());
}

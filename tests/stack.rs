use raygon::{SliceExt, Stack};

#[test]
fn stack_push_pop_peek() {
    let mut s = Stack::new(vec![0u32; 10]);
    assert_eq!(s.len(), 0);
    s.push_n([1, 2, 3]);
    s.push_from(&[4, 5]);
    assert_eq!(s.as_slice(), &[1, 2, 3, 4, 5]);
    assert_eq!(s.peek_n::<2>(), [4, 5]);
    assert_eq!(s.peek(3, |h| h.to_vec()), vec![3, 4, 5]);
    assert_eq!(s.peek_one(|x| *x), 5);
    s.peek_one_mut(|x| x * 10);
    assert_eq!(s.as_slice(), &[1, 2, 3, 4, 50]);
    assert_eq!(s.pop_n::<2>(), [4, 50]);
    assert_eq!(s.pop(1, |h| h[0]), 3);
    let mut buf = [0u32; 2];
    s.pop_to(&mut buf);
    assert_eq!(buf, [1, 2]);
    assert_eq!(s.len(), 0);
}

#[test]
fn stack_push_fills_by_index() {
    let mut s = Stack::new(vec![0u32; 6]);
    s.push_n([7]);
    s.push(4, |i| i as u32 * 2);
    assert_eq!(s.as_slice(), &[7, 0, 2, 4, 6]);
}

#[test]
fn stack_map_and_reduce() {
    let mut s = Stack::new(vec![0i64; 8]);
    s.push_n([1, 2, 3]);
    s.map(|[a, b]: [i64; 2]| [b, a, a + b]);
    assert_eq!(s.as_slice(), &[1, 3, 2, 5]);
    s.reduce(|[a, b, c]: [i64; 3]| a * b * c);
    assert_eq!(s.as_slice(), &[1, 30]);
}

#[test]
fn slice_checked_access() {
    let mut v = [1, 2, 3];
    assert_eq!(*v[..].get_unchecked_debug_checked(1), 2);
    *v[..].get_unchecked_debug_checked_mut(2) = 9;
    assert_eq!(v, [1, 2, 9]);
}

#[test]
fn stack_storage_comes_back() {
    let mut s = Stack::new(vec![0u8; 4]);
    s.push_n([5, 6]);
    let v = s.into_storage();
    assert_eq!(v.len(), 4);
    assert_eq!(&v[..2], &[5, 6]);
}

#[test]
fn stack_peek_mut_rewrites_top() {
    let mut s = Stack::new(vec![0i32; 6]);
    s.push_n([1, 2, 3, 4]);
    let total = s.peek_mut(|[a, b]: [i32; 2]| ([b, a], a + b));
    assert_eq!(total, 7);
    assert_eq!(s.as_slice(), &[1, 2, 4, 3]);
}

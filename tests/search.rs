use raygon::{lower_bound, upper_bound};

fn scan_lower(v: &[i64], key: i64) -> Option<usize> {
    v.iter().position(|&x| !(x < key))
}

fn scan_upper(v: &[i64], key: i64) -> Option<usize> {
    v.iter().position(|&x| x > key)
}

fn sorted_array(n: usize, seed: u64) -> Vec<i64> {
    let mut state = seed.wrapping_mul(6364136223846793005).wrapping_add(1442695040888963407);
    let mut v = Vec::with_capacity(n);
    let mut cur: i64 = -20;
    for _ in 0..n {
        state = state.wrapping_mul(6364136223846793005).wrapping_add(1442695040888963407);
        cur += ((state >> 33) % 3) as i64;
        v.push(cur);
    }
    v
}

#[test]
fn searches_agree_with_linear_scan_up_to_one_hundred() {
    for n in 0..=100usize {
        let v = sorted_array(n, n as u64 + 7);
        let lo = v.first().copied().unwrap_or(0) - 2;
        let hi = v.last().copied().unwrap_or(0) + 2;
        for key in lo..=hi {
            assert_eq!(lower_bound(v.len(), |i| v[i] < key), scan_lower(&v, key), "n={} key={}", n, key);
            assert_eq!(upper_bound(v.len(), |i| v[i] > key), scan_upper(&v, key), "n={} key={}", n, key);
        }
    }
}

#[test]
fn upper_bound_on_small_array() {
    let b = [1, 3, 3, 5];
    assert_eq!(upper_bound(b.len(), |i| b[i] > 0), Some(0));
    assert_eq!(upper_bound(b.len(), |i| b[i] > 1), Some(1));
    assert_eq!(upper_bound(b.len(), |i| b[i] > 3), Some(3));
    assert_eq!(upper_bound(b.len(), |i| b[i] > 4), Some(3));
    assert_eq!(upper_bound(b.len(), |i| b[i] > 5), None);
}

#[test]
fn searches_on_empty_range() {
    assert_eq!(lower_bound(0, |_| true), None);
    assert_eq!(upper_bound(0, |_| true), None);
}

#[test]
fn searches_on_single_element() {
    assert_eq!(lower_bound(1, |_| true), None);
    assert_eq!(lower_bound(1, |_| false), Some(0));
    assert_eq!(upper_bound(1, |_| true), Some(0));
    assert_eq!(upper_bound(1, |_| false), None);
}

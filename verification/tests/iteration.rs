use byte_set::ByteSet;

fn collect_forward(set: ByteSet) -> Vec<u8> {
    let mut bytes = Vec::new();
    let mut iter = set.into_iter();
    while let Some(byte) = iter.next() {
        bytes.push(byte);
    }
    bytes
}

fn collect_backward(set: ByteSet) -> Vec<u8> {
    let mut bytes = Vec::new();
    let mut iter = set.into_iter();
    while let Some(byte) = iter.next_back() {
        bytes.push(byte);
    }
    bytes
}

#[test]
fn tests_collect_full() {
    let set = ByteSet::full();

    let bytes = collect_forward(set);
    assert_eq!(bytes.len(), 256);

    for b in 0..=u8::max_value() {
        let i = b as usize;

        assert_eq!(bytes.get(i), Some(&b), "{:?} at {} is not {}", bytes, i, b);
    }
}

#[test]
fn tests_collect_full_rev() {
    let set = ByteSet::full();

    let bytes = collect_backward(set);
    assert_eq!(bytes.len(), 256);

    for b in 0..=u8::max_value() {
        // Iterating in reverse, so flip the index.
        let i = 255 - b as usize;

        assert_eq!(bytes.get(i), Some(&b), "{:?} at {} is not {}", bytes, i, b);
    }
}

#[test]
fn iter_collect_full() {
    let set = ByteSet::full();

    let bytes = collect_forward(set);
    assert_eq!(bytes.len(), 256);

    for b in 0..=u8::max_value() {
        let i = b as usize;

        assert_eq!(bytes.get(i), Some(&b), "{:?} at {} is not {}", bytes, i, b);
    }
}

#[test]
fn iter_collect_full_rev() {
    let set = ByteSet::full();

    let bytes = collect_backward(set);
    assert_eq!(bytes.len(), 256);

    for b in 0..=u8::max_value() {
        // Iterating in reverse, so flip the index.
        let i = 255 - b as usize;

        assert_eq!(bytes.get(i), Some(&b), "{:?} at {} is not {}", bytes, i, b);
    }
}

#[test]
fn contains_full() {
    let mut iter = ByteSet::full().into_iter();

    while let Some(byte) = iter.next() {
        assert!(!iter.into_byte_set().contains(byte));
    }
}

#[test]
fn contains_full_rev() {
    let mut iter = ByteSet::full().into_iter();

    while let Some(byte) = iter.next_back() {
        assert!(!iter.into_byte_set().contains(byte));
    }
}

#[test]
fn ord() {
    let full = collect_forward(ByteSet::full());
    assert_eq!(full, (0..=u8::max_value()).collect::<Vec<u8>>());
}

#[test]
fn ord_rev() {
    let full = collect_backward(ByteSet::full());
    assert_eq!(full, (0..=u8::max_value()).rev().collect::<Vec<u8>>());
}

#[test]
fn interleaved_never_repeats() {
    let set = ByteSet::from_range_inclusive(10, 20);
    let mut iter = set.into_iter();

    assert_eq!(iter.next(), Some(10));
    assert_eq!(iter.next_back(), Some(20));
    assert_eq!(iter.next(), Some(11));
    assert_eq!(iter.next_back(), Some(19));
    let mut seen = vec![10, 20, 11, 19];
    loop {
        let front = iter.next();
        match front {
            Some(b) => seen.push(b),
            None => break,
        }
        match iter.next_back() {
            Some(b) => seen.push(b),
            None => break,
        }
    }
    seen.sort();
    assert_eq!(seen, (10..=20).collect::<Vec<u8>>());
}

#[test]
fn exhausted_stays_exhausted() {
    let mut iter = ByteSet::from_byte(7).into_iter();
    assert_eq!(iter.len(), 1);
    assert_eq!(iter.next(), Some(7));
    assert_eq!(iter.next(), None);
    assert_eq!(iter.next_back(), None);
    assert_eq!(iter.next(), None);
    assert_eq!(iter.len(), 0);
    assert!(iter.into_byte_set().is_empty());

    let mut empty = ByteSet::new().into_iter();
    assert_eq!(empty.next(), None);
    assert_eq!(empty.next_back(), None);
    assert_eq!(empty.size_hint(), (0, Some(0)));
}

#[test]
fn iterator_shortcuts() {
    let set = ByteSet::from_slice(&[3, 200, 77]);
    assert_eq!(set.into_iter().count(), 3);
    assert_eq!(set.into_iter().min(), Some(3));
    assert_eq!(set.into_iter().max(), Some(200));
    assert_eq!(set.into_iter().last(), Some(200));
    assert_eq!(ByteSet::new().into_iter().min(), None);
}

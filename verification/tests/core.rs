use byte_set::ByteSet;

#[test]
fn tests_len() {
    assert_eq!(ByteSet::new().len(), 0);
    assert_eq!(ByteSet::full().len(), 256);
}

#[test]
fn tests_insert() {
    let mut set = ByteSet::new();

    for byte in 0..=u8::max_value() {
        assert!(!set.contains(byte));

        let copy = set;
        assert!(copy.inserting(byte).contains(byte));

        set.insert(byte);
        assert!(set.contains(byte));
    }

    assert_eq!(set.len(), 256);
}

#[test]
fn tests_remove() {
    let mut set = ByteSet::full();

    for byte in 0..=u8::max_value() {
        assert!(set.contains(byte));

        let copy = set;
        assert!(!copy.removing(byte).contains(byte));

        set.remove(byte);
        assert!(!set.contains(byte));
    }

    assert!(set.is_empty());
}

#[test]
fn tests_first() {
    assert_eq!(ByteSet::new().first(), None);
    assert_eq!(ByteSet::new().pop_first(), None);

    let mut set = ByteSet::full();

    let mut iter = set.into_iter();
    while let Some(byte) = iter.next() {
        assert_eq!(
            set.first(),
            Some(byte),
            "First byte in {} is not {:?}",
            set.fmt_binary(),
            Some(byte)
        );
        assert_eq!(set.pop_first(), Some(byte));
    }

    assert_eq!(
        set.first(),
        None,
        "First byte in {} is not {:?}",
        set.fmt_binary(),
        Option::<u8>::None
    );
    assert_eq!(set.pop_first(), None);
}

#[test]
fn tests_last() {
    assert_eq!(ByteSet::new().last(), None);
    assert_eq!(ByteSet::new().pop_last(), None);

    let mut set = ByteSet::full();

    let mut iter = set.into_iter();
    while let Some(byte) = iter.next_back() {
        assert_eq!(
            set.last(),
            Some(byte),
            "Last byte in {} is not {:?}",
            set.fmt_binary(),
            Some(byte)
        );
        assert_eq!(set.pop_last(), Some(byte));
    }

    assert_eq!(
        set.last(),
        None,
        "Last byte in {} is not {:?}",
        set.fmt_binary(),
        Option::<u8>::None
    );
    assert_eq!(set.pop_last(), None);
}

#[test]
fn maybe_contains() {
    let mut set = ByteSet::new();

    for byte in 0..=u8::max_value() {
        assert!(!set.maybe_contains(byte));

        set.insert(byte);
        assert!(set.maybe_contains(byte));

        set.remove(byte);
        assert!(!set.maybe_contains(byte));
    }
}

#[test]
fn byte_set_len() {
    assert_eq!(ByteSet::new().len(), 0);
    assert_eq!(ByteSet::full().len(), 256);
}

#[test]
fn byte_set_insert() {
    let mut set = ByteSet::new();

    for byte in 0..=u8::max_value() {
        assert!(!set.contains(byte));

        let copy = set;
        assert!(copy.inserting(byte).contains(byte));

        set.insert(byte);
        assert!(set.contains(byte));
    }

    assert_eq!(set.len(), 256);
}

#[test]
fn byte_set_remove() {
    let mut set = ByteSet::full();

    for byte in 0..=u8::max_value() {
        assert!(set.contains(byte));

        let copy = set;
        assert!(!copy.removing(byte).contains(byte));

        set.remove(byte);
        assert!(!set.contains(byte));
    }

    assert!(set.is_empty());
}

#[test]
fn byte_set_first() {
    assert_eq!(ByteSet::new().first(), None);
    assert_eq!(ByteSet::new().pop_first(), None);

    let mut set = ByteSet::full();

    let mut iter = set.into_iter();
    while let Some(byte) = iter.next() {
        assert_eq!(
            set.first(),
            Some(byte),
            "First byte in {} is not {:?}",
            set.fmt_binary(),
            Some(byte)
        );
        assert_eq!(set.pop_first(), Some(byte));
    }

    assert_eq!(
        set.first(),
        None,
        "First byte in {} is not {:?}",
        set.fmt_binary(),
        Option::<u8>::None
    );
    assert_eq!(set.pop_first(), None);
}

#[test]
fn byte_set_last() {
    assert_eq!(ByteSet::new().last(), None);
    assert_eq!(ByteSet::new().pop_last(), None);

    let mut set = ByteSet::full();

    let mut iter = set.into_iter();
    while let Some(byte) = iter.next_back() {
        assert_eq!(
            set.last(),
            Some(byte),
            "Last byte in {} is not {:?}",
            set.fmt_binary(),
            Some(byte)
        );
        assert_eq!(set.pop_last(), Some(byte));
    }

    assert_eq!(
        set.last(),
        None,
        "Last byte in {} is not {:?}",
        set.fmt_binary(),
        Option::<u8>::None
    );
    assert_eq!(set.pop_last(), None);
}

#[test]
fn from_open_ranges() {
    for byte in 0..=u8::max_value() {
        let range_to = ..byte;
        let range_from = byte..;
        let range_to_i = ..=byte;
        let set_to = ByteSet::from_range_to(byte);
        let set_from = ByteSet::from_range_from(byte);
        let set_to_i = ByteSet::from_range_to_inclusive(byte);
        for b in 0..=u8::max_value() {
            assert_eq!(range_to.contains(&b), set_to.contains(b));
            assert_eq!(range_from.contains(&b), set_from.contains(b));
            assert_eq!(range_to_i.contains(&b), set_to_i.contains(b));
        }
    }
}

#[test]
fn from_closed_ranges() {
    for start in 0..=u8::max_value() {
        for end in start..=u8::max_value() {
            let range = start..end;
            let range_i = start..=end;
            let set = ByteSet::from_range(start, end);
            let set_i = ByteSet::from_range_inclusive(start, end);
            for b in 0..=u8::max_value() {
                assert_eq!(range.contains(&b), set.contains(b));
                assert_eq!(range_i.contains(&b), set_i.contains(b));
            }
        }
    }
}

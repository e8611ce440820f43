use byte_set::ByteSet;

/// Counts members by brute force, byte by byte.
fn brute_force_len(set: &ByteSet) -> usize {
    let mut n = 0;
    for b in 0..=u8::max_value() {
        if set.contains(b) {
            n += 1;
        }
    }
    n
}

fn sample_sets() -> Vec<ByteSet> {
    vec![
        ByteSet::new(),
        ByteSet::full(),
        ByteSet::from_byte(0),
        ByteSet::from_byte(255),
        ByteSet::from_range_inclusive(60, 70),
        ByteSet::from_slice(&[1, 63, 64, 127, 128, 191, 192, 255]),
        ByteSet::ascii_alphanumeric(),
    ]
}

#[test]
fn len_counts_members() {
    for set in sample_sets() {
        assert_eq!(set.len(), brute_force_len(&set));
    }
}

#[test]
fn emptiness_matches_len() {
    for set in sample_sets() {
        assert_eq!(set.is_empty(), set.len() == 0);
        assert_eq!(set.is_full(), set.len() == 256);
    }
}

#[test]
fn insert_remove_round_trip() {
    for b in 0..=u8::max_value() {
        assert!(ByteSet::new().inserting(b).contains(b));
        assert!(!ByteSet::full().removing(b).contains(b));
    }
}

#[test]
fn idempotence() {
    for b in [0u8, 1, 63, 64, 200, 255] {
        let base = ByteSet::from_range_inclusive(50, 210);
        assert_eq!(base.inserting(b).inserting(b), base.inserting(b));
        assert_eq!(base.removing(b).removing(b), base.removing(b));
    }
}

#[test]
fn algebra_laws() {
    let a = ByteSet::from_range_inclusive(10, 140);
    let b = ByteSet::from_slice(&[5, 10, 77, 141, 254]);

    assert_eq!(a.union(b).not(), a.not().intersection(b.not()));
    assert_eq!(a.difference(b), a.intersection(b.not()));
    assert_eq!(
        a.symmetric_difference(b),
        a.union(b).difference(a.intersection(b))
    );
}

#[test]
fn operators_match_methods() {
    let a = ByteSet::from_range_inclusive(10, 140);
    let b = ByteSet::from_slice(&[5, 10, 77, 141, 254]);

    assert_eq!(a | b, a.union(b));
    assert_eq!(a & b, a.intersection(b));
    assert_eq!(a ^ b, a.symmetric_difference(b));
    assert_eq!(a - b, a.difference(b));
    assert_eq!(!a, a.not());
}

#[test]
fn subset_consistency() {
    let a = ByteSet::from_range_inclusive(20, 30);
    let b = ByteSet::from_range_inclusive(10, 40);

    assert_eq!(a.is_subset(&b), a.intersection(b).eq(&a));
    assert_eq!(b.is_subset(&a), b.intersection(a).eq(&b));
    assert_eq!(a.is_strict_subset(&b), a.ne(&b) && a.is_subset(&b));
    assert_eq!(a.is_strict_subset(&a), false);
    assert!(b.is_superset(&a));
    assert!(b.is_strict_superset(&a));
    assert!(a.is_disjoint(&ByteSet::from_byte(50)));
    assert!(!a.is_disjoint(&ByteSet::from_byte(25)));
    assert!(a.contains_any(&b));
    assert!(!a.contains_any(&ByteSet::from_range_to(20)));
}

#[test]
fn forward_equals_reversed_backward() {
    for set in sample_sets() {
        let mut forward = Vec::new();
        let mut iter = set.into_iter();
        while let Some(b) = iter.next() {
            forward.push(b);
        }
        let mut backward = Vec::new();
        let mut iter = set.into_iter();
        while let Some(b) = iter.next_back() {
            backward.push(b);
        }
        backward.reverse();
        assert_eq!(forward, backward);
    }
}

#[test]
fn range_boundaries() {
    assert!(ByteSet::from_range_to_inclusive(255).is_full());
    assert!(ByteSet::from_range_from(0).is_full());
    assert!(ByteSet::from_range_to(0).is_empty());
    assert_eq!(ByteSet::from_range_inclusive(7, 7), ByteSet::from_byte(7));
    // A reversed range is empty.
    assert!(ByteSet::from_range(9, 3).is_empty());
    assert!(ByteSet::from_range_inclusive(9, 3).is_empty());
    assert!(ByteSet::from_range(5, 5).is_empty());
}

#[test]
fn alphabet_union_commutes() {
    let lower_first = ByteSet::from_range_inclusive(b'a', b'z').union(ByteSet::from_range_inclusive(b'A', b'Z'));
    let upper_first = ByteSet::from_range_inclusive(b'A', b'Z').union(ByteSet::from_range_inclusive(b'a', b'z'));
    assert_eq!(lower_first, upper_first);

    let mut brute = ByteSet::new();
    for b in 0..=u8::max_value() {
        if b.is_ascii_alphabetic() {
            brute.insert(b);
        }
    }
    assert_eq!(lower_first, brute);
    assert_eq!(brute.len(), 52);
}

#[test]
fn reverse_bits_involution() {
    for set in [ByteSet::new(), ByteSet::full(), ByteSet::from_byte(200)] {
        assert_eq!(set.reverse_bits().reverse_bits(), set);
    }
    assert_eq!(ByteSet::from_byte(200).reverse_bits(), ByteSet::from_byte(55));
}

#[test]
fn raw_byte_ordering() {
    assert!(ByteSet::from_byte(0) < ByteSet::from_byte(1));
    assert!(ByteSet::full() > ByteSet::new());
    // The order compares the raw little-endian bytes, not the contents:
    // {8} is stored as [0, 1, 0, ...] and {0, 1} as [3, 0, 0, ...].
    assert!(ByteSet::from_byte(8) < ByteSet::from_slice(&[0, 1]));
    assert!(ByteSet::from_byte(1) <= ByteSet::from_byte(1));
    assert_eq!(ByteSet::default(), ByteSet::new());
}

#[test]
fn from_single_byte() {
    assert_eq!(ByteSet::from(7u8), ByteSet::from_byte(7));
    let converted: ByteSet = 200u8.into();
    assert_eq!(converted, ByteSet::from_byte(200));
}

#[test]
fn set_and_setting() {
    let mut set = ByteSet::new();
    set.set(42, true);
    assert!(set.contains(42));
    set.set(42, false);
    assert!(set.is_empty());
    assert_eq!(ByteSet::new().setting(7, true), ByteSet::from_byte(7));
    assert_eq!(ByteSet::from_byte(7).setting(7, false), ByteSet::new());
}

#[test]
fn bulk_updates() {
    let mut set = ByteSet::from_range_to(10);
    set.insert_all(ByteSet::from_range_inclusive(250, 255));
    assert_eq!(set.len(), 16);
    set.remove_all(ByteSet::from_range_to(10));
    assert_eq!(set, ByteSet::from_range_from(250));
    assert_eq!(
        ByteSet::from_byte(1).inserting_all(ByteSet::from_byte(2)),
        ByteSet::from_slice(&[1, 2])
    );
    assert_eq!(
        ByteSet::from_slice(&[1, 2]).removing_all(ByteSet::from_byte(2)),
        ByteSet::from_byte(1)
    );
    let mut cleared = ByteSet::full();
    cleared.clear();
    assert!(cleared.is_empty());
}

#[test]
fn ascii_classes_match_std() {
    for b in 0..=u8::max_value() {
        assert_eq!(ByteSet::ascii().contains(b), b.is_ascii());
        assert_eq!(ByteSet::ascii_alphabetic().contains(b), b.is_ascii_alphabetic());
        assert_eq!(ByteSet::ascii_uppercase().contains(b), b.is_ascii_uppercase());
        assert_eq!(ByteSet::ascii_lowercase().contains(b), b.is_ascii_lowercase());
        assert_eq!(ByteSet::ascii_alphanumeric().contains(b), b.is_ascii_alphanumeric());
        assert_eq!(ByteSet::ascii_digit().contains(b), b.is_ascii_digit());
        assert_eq!(ByteSet::ascii_hexdigit().contains(b), b.is_ascii_hexdigit());
        assert_eq!(ByteSet::ascii_punctuation().contains(b), b.is_ascii_punctuation());
        assert_eq!(ByteSet::ascii_graphic().contains(b), b.is_ascii_graphic());
        assert_eq!(ByteSet::ascii_whitespace().contains(b), b.is_ascii_whitespace());
        assert_eq!(ByteSet::ascii_control().contains(b), b.is_ascii_control());
    }
}

#[test]
fn ascii_predicates() {
    assert!(ByteSet::ascii_digit().is_ascii());
    assert!(ByteSet::ascii_digit().is_ascii_digit());
    assert!(ByteSet::ascii_digit().is_ascii_alphanumeric());
    assert!(ByteSet::ascii_digit().is_ascii_hexdigit());
    assert!(!ByteSet::ascii_digit().is_ascii_alphabetic());
    assert!(ByteSet::ascii_uppercase().is_ascii_uppercase());
    assert!(!ByteSet::full().is_ascii());
    assert!(ByteSet::ascii_whitespace().is_ascii_whitespace());
    assert!(ByteSet::ascii_control().is_ascii_control());
    assert!(ByteSet::ascii_punctuation().is_ascii_punctuation());
    assert!(ByteSet::ascii_graphic().is_ascii_graphic());
    assert!(ByteSet::ascii_lowercase().is_ascii_lowercase());
    // The empty set is a subset of every class.
    assert!(ByteSet::new().is_ascii_digit());
}

#[test]
fn raw_bytes_round_trip() {
    for set in sample_sets() {
        let bytes = set.to_bytes();
        assert_eq!(bytes.len(), 32);
        assert_eq!(ByteSet::from_bytes(&bytes), set);
    }
}

#[test]
fn raw_bytes_layout() {
    // Bits 0 and 2 of byte 0 stand for the byte values 0 and 2.
    let mut bytes = vec![0u8; 32];
    bytes[0] = 0b101;
    bytes[1] = 0b10;
    let set = ByteSet::from_bytes(&bytes);
    assert_eq!(set, ByteSet::from_slice(&[0, 2, 9]));

    let encoded = ByteSet::from_byte(9).to_bytes();
    assert_eq!(encoded[1], 0b10);
    assert_eq!(encoded.iter().filter(|&&b| b != 0).count(), 1);
}

#[test]
fn random_sets_are_sets() {
    let set = ByteSet::rand();
    assert_eq!(set.len(), brute_force_len(&set));

    let tried = ByteSet::try_rand();
    assert!(tried.is_ok());
}

#[test]
fn slices_and_strings() {
    let set = ByteSet::from_slice(b"hello");
    assert_eq!(set.len(), 4);
    for b in 0..=u8::max_value() {
        assert_eq!(set.contains(b), b"hello".contains(&b));
    }
    let mut grown = set;
    grown.extend(b" world");
    assert_eq!(grown, ByteSet::from_slice(b"hello world"));
    assert_eq!(ByteSet::from_slice(&[]), ByteSet::new());
}

#[test]
fn binary_rendering() {
    let rendered = ByteSet::from_byte(0).fmt_binary();
    assert_eq!(rendered.len(), 256);
    assert_eq!(rendered.chars().nth(63), Some('1'));
    assert_eq!(rendered.chars().filter(|&c| c == '1').count(), 1);
    assert_eq!(ByteSet::new().fmt_binary(), "0".repeat(256));
}

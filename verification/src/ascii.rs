//! The ASCII character classes as byte sets, and subset tests against
//! them.

use crate::set::ByteSet;
use vstd::prelude::*;

verus! {

/// `b` is an ASCII character: U+0000 NULL ..= U+007F DELETE.
pub open spec fn is_ascii_byte(b: u8) -> bool {
    b < 128
}

/// `b` is an ASCII uppercase letter: U+0041 'A' ..= U+005A 'Z'.
pub open spec fn is_ascii_uppercase_byte(b: u8) -> bool {
    65 <= b && b <= 90
}

/// `b` is an ASCII lowercase letter: U+0061 'a' ..= U+007A 'z'.
pub open spec fn is_ascii_lowercase_byte(b: u8) -> bool {
    97 <= b && b <= 122
}

/// `b` is an ASCII letter.
pub open spec fn is_ascii_alphabetic_byte(b: u8) -> bool {
    is_ascii_uppercase_byte(b) || is_ascii_lowercase_byte(b)
}

/// `b` is an ASCII decimal digit: U+0030 '0' ..= U+0039 '9'.
pub open spec fn is_ascii_digit_byte(b: u8) -> bool {
    48 <= b && b <= 57
}

/// `b` is an ASCII letter or decimal digit.
pub open spec fn is_ascii_alphanumeric_byte(b: u8) -> bool {
    is_ascii_alphabetic_byte(b) || is_ascii_digit_byte(b)
}

/// `b` is an ASCII hexadecimal digit.
pub open spec fn is_ascii_hexdigit_byte(b: u8) -> bool {
    is_ascii_digit_byte(b) || (65 <= b && b <= 70) || (97 <= b && b <= 102)
}

/// `b` is an ASCII punctuation character.
pub open spec fn is_ascii_punctuation_byte(b: u8) -> bool {
    (33 <= b && b <= 47) || (58 <= b && b <= 64) || (91 <= b && b <= 96) || (123 <= b && b <= 126)
}

/// `b` is an ASCII graphic character: U+0021 '!' ..= U+007E '~'.
pub open spec fn is_ascii_graphic_byte(b: u8) -> bool {
    33 <= b && b <= 126
}

/// `b` is an ASCII whitespace character: space, horizontal tab, line
/// feed, form feed or carriage return.
pub open spec fn is_ascii_whitespace_byte(b: u8) -> bool {
    b == 9 || b == 10 || b == 12 || b == 13 || b == 32
}

/// `b` is an ASCII control character: U+0000 NUL ..= U+001F UNIT
/// SEPARATOR, or U+007F DELETE.
pub open spec fn is_ascii_control_byte(b: u8) -> bool {
    b <= 31 || b == 127
}

impl ByteSet {
    /// The set of all ASCII characters.
    pub fn ascii() -> (r: ByteSet)
        ensures
            forall|b: u8| #[trigger] r@.contains(b) == is_ascii_byte(b),
    {
        ByteSet::from_range_to(128)
    }

    /// The set of all ASCII uppercase characters.
    pub fn ascii_uppercase() -> (r: ByteSet)
        ensures
            forall|b: u8| #[trigger] r@.contains(b) == is_ascii_uppercase_byte(b),
    {
        ByteSet::from_range_inclusive(65, 90)
    }

    /// The set of all ASCII lowercase characters.
    pub fn ascii_lowercase() -> (r: ByteSet)
        ensures
            forall|b: u8| #[trigger] r@.contains(b) == is_ascii_lowercase_byte(b),
    {
        ByteSet::from_range_inclusive(97, 122)
    }

    /// The set of all ASCII alphabetic characters.
    pub fn ascii_alphabetic() -> (r: ByteSet)
        ensures
            forall|b: u8| #[trigger] r@.contains(b) == is_ascii_alphabetic_byte(b),
    {
        ByteSet::ascii_lowercase().inserting_all(ByteSet::ascii_uppercase())
    }

    /// The set of all ASCII decimal digits.
    pub fn ascii_digit() -> (r: ByteSet)
        ensures
            forall|b: u8| #[trigger] r@.contains(b) == is_ascii_digit_byte(b),
    {
        ByteSet::from_range_inclusive(48, 57)
    }

    /// The set of all ASCII alphanumeric characters.
    pub fn ascii_alphanumeric() -> (r: ByteSet)
        ensures
            forall|b: u8| #[trigger] r@.contains(b) == is_ascii_alphanumeric_byte(b),
    {
        ByteSet::ascii_alphabetic().inserting_all(ByteSet::ascii_digit())
    }

    /// The set of all ASCII hexadecimal digits.
    pub fn ascii_hexdigit() -> (r: ByteSet)
        ensures
            forall|b: u8| #[trigger] r@.contains(b) == is_ascii_hexdigit_byte(b),
    {
        ByteSet::ascii_digit().inserting_all(ByteSet::from_range_inclusive(65, 70))
            .inserting_all(ByteSet::from_range_inclusive(97, 102))
    }

    /// The set of all ASCII punctuation characters.
    pub fn ascii_punctuation() -> (r: ByteSet)
        ensures
            forall|b: u8| #[trigger] r@.contains(b) == is_ascii_punctuation_byte(b),
    {
        ByteSet::from_range_inclusive(33, 47).inserting_all(ByteSet::from_range_inclusive(58, 64))
            .inserting_all(ByteSet::from_range_inclusive(91, 96)).inserting_all(
            ByteSet::from_range_inclusive(123, 126),
        )
    }

    /// The set of all ASCII graphic characters.
    pub fn ascii_graphic() -> (r: ByteSet)
        ensures
            forall|b: u8| #[trigger] r@.contains(b) == is_ascii_graphic_byte(b),
    {
        ByteSet::ascii_alphanumeric().inserting_all(ByteSet::ascii_punctuation())
    }

    /// The set of all ASCII whitespace characters.
    pub fn ascii_whitespace() -> (r: ByteSet)
        ensures
            forall|b: u8| #[trigger] r@.contains(b) == is_ascii_whitespace_byte(b),
    {
        ByteSet::new().inserting(9).inserting(10).inserting(12).inserting(13).inserting(32)
    }

    /// The set of all ASCII control characters.
    ///
    /// Most ASCII whitespace characters are control characters, but SPACE
    /// is not.
    pub fn ascii_control() -> (r: ByteSet)
        ensures
            forall|b: u8| #[trigger] r@.contains(b) == is_ascii_control_byte(b),
    {
        ByteSet::from_range_to_inclusive(31).inserting(127)
    }

    /// Returns `true` if every byte in `self` is an ASCII character.
    pub fn is_ascii(&self) -> (r: bool)
        ensures
            r == (forall|b: u8| #[trigger] self@.contains(b) ==> is_ascii_byte(b)),
    {
        self.is_subset(&ByteSet::ascii())
    }

    /// Returns `true` if every byte in `self` is an ASCII alphabetic
    /// character.
    pub fn is_ascii_alphabetic(&self) -> (r: bool)
        ensures
            r == (forall|b: u8| #[trigger] self@.contains(b) ==> is_ascii_alphabetic_byte(b)),
    {
        self.is_subset(&ByteSet::ascii_alphabetic())
    }

    /// Returns `true` if every byte in `self` is an ASCII uppercase
    /// character.
    pub fn is_ascii_uppercase(&self) -> (r: bool)
        ensures
            r == (forall|b: u8| #[trigger] self@.contains(b) ==> is_ascii_uppercase_byte(b)),
    {
        self.is_subset(&ByteSet::ascii_uppercase())
    }

    /// Returns `true` if every byte in `self` is an ASCII lowercase
    /// character.
    pub fn is_ascii_lowercase(&self) -> (r: bool)
        ensures
            r == (forall|b: u8| #[trigger] self@.contains(b) ==> is_ascii_lowercase_byte(b)),
    {
        self.is_subset(&ByteSet::ascii_lowercase())
    }

    /// Returns `true` if every byte in `self` is an ASCII alphanumeric
    /// character.
    pub fn is_ascii_alphanumeric(&self) -> (r: bool)
        ensures
            r == (forall|b: u8| #[trigger] self@.contains(b) ==> is_ascii_alphanumeric_byte(b)),
    {
        self.is_subset(&ByteSet::ascii_alphanumeric())
    }

    /// Returns `true` if every byte in `self` is an ASCII decimal digit.
    pub fn is_ascii_digit(&self) -> (r: bool)
        ensures
            r == (forall|b: u8| #[trigger] self@.contains(b) ==> is_ascii_digit_byte(b)),
    {
        self.is_subset(&ByteSet::ascii_digit())
    }

    /// Returns `true` if every byte in `self` is an ASCII hexadecimal
    /// digit.
    pub fn is_ascii_hexdigit(&self) -> (r: bool)
        ensures
            r == (forall|b: u8| #[trigger] self@.contains(b) ==> is_ascii_hexdigit_byte(b)),
    {
        self.is_subset(&ByteSet::ascii_hexdigit())
    }

    /// Returns `true` if every byte in `self` is an ASCII punctuation
    /// character.
    pub fn is_ascii_punctuation(&self) -> (r: bool)
        ensures
            r == (forall|b: u8| #[trigger] self@.contains(b) ==> is_ascii_punctuation_byte(b)),
    {
        self.is_subset(&ByteSet::ascii_punctuation())
    }

    /// Returns `true` if every byte in `self` is an ASCII graphic
    /// character.
    pub fn is_ascii_graphic(&self) -> (r: bool)
        ensures
            r == (forall|b: u8| #[trigger] self@.contains(b) ==> is_ascii_graphic_byte(b)),
    {
        self.is_subset(&ByteSet::ascii_graphic())
    }

    /// Returns `true` if every byte in `self` is an ASCII whitespace
    /// character.
    pub fn is_ascii_whitespace(&self) -> (r: bool)
        ensures
            r == (forall|b: u8| #[trigger] self@.contains(b) ==> is_ascii_whitespace_byte(b)),
    {
        self.is_subset(&ByteSet::ascii_whitespace())
    }

    /// Returns `true` if every byte in `self` is an ASCII control
    /// character.
    pub fn is_ascii_control(&self) -> (r: bool)
        ensures
            r == (forall|b: u8| #[trigger] self@.contains(b) ==> is_ascii_control_byte(b)),
    {
        self.is_subset(&ByteSet::ascii_control())
    }
}

} // verus!

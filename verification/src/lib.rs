//! An efficient, allocation-free set of `u8` values.
//!
//! The set is a 256-bit mask packed into four 64-bit words. A byte is a
//! member exactly when its bit is set: bit `b % 64` of word `b / 64`
//! stands for the byte value `b`, with word 0 holding the lowest byte
//! values and the least-significant bit of each word the lowest value
//! within that word.

mod ascii;
pub mod chunk;
mod cmp;
mod convert;
mod fmt;
mod from;
mod iter;
mod laws;
mod ops;
mod random;
mod raw;
mod set;

pub use ascii::is_ascii_alphabetic_byte;
pub use ascii::is_ascii_alphanumeric_byte;
pub use ascii::is_ascii_byte;
pub use ascii::is_ascii_control_byte;
pub use ascii::is_ascii_digit_byte;
pub use ascii::is_ascii_graphic_byte;
pub use ascii::is_ascii_hexdigit_byte;
pub use ascii::is_ascii_lowercase_byte;
pub use ascii::is_ascii_punctuation_byte;
pub use ascii::is_ascii_uppercase_byte;
pub use ascii::is_ascii_whitespace_byte;
pub use cmp::raw_cmp_from;
pub use convert::slice_members;
pub use from::singleton_chunks;
pub use iter::Iter;
pub use laws::ascending_up_to;
pub use laws::descending_up_to;
pub use laws::lemma_algebra;
pub use laws::lemma_ascending_head;
pub use laws::lemma_descending_head;
pub use laws::lemma_descending_is_reversed_ascending;
pub use laws::lemma_full_ascending;
pub use laws::lemma_idempotent;
pub use laws::lemma_len_characterizes_extremes;
pub use laws::lemma_reverse_involution;
pub use laws::lemma_single_byte_round_trip;
pub use laws::lemma_subset_consistency;
pub use ops::and_chunks;
pub use ops::not_chunks;
pub use ops::or_chunks;
pub use ops::xor_chunks;
pub use random::EntropyError;
pub use raw::buffer_bit;
pub use set::lemma_view_ext;
pub use set::ByteSet;

//! Reading and writing single bits and bit fields of unsigned integers.
//!
//! Bits are indexed from the right, starting at zero. A field is named by
//! the index of its highest bit and by its length.

use vstd::prelude::*;

verus! {

pub trait GetBit: Sized {
    /// Number of bits of the type.
    spec fn bit_count() -> nat;

    /// The bit at `idx`.
    spec fn bit(&self, idx: nat) -> bool;

    /// The `len` bits from `first_idx` down, moved to the right end.
    spec fn bits(&self, first_idx: nat, len: nat) -> Self;

    /// Gets a single bit from `self`.
    fn get_bit(&self, idx: usize) -> (b: bool)
        requires
            idx < Self::bit_count(),
        ensures
            b == self.bit(idx as nat),
    ;

    /// Gets the `len` bits of which `first_idx` is the highest.
    fn get_bits(&self, first_idx: usize, len: usize) -> (r: Self)
        requires
            len <= first_idx + 1,
            first_idx + 1 - len < Self::bit_count(),
            len < Self::bit_count(),
        ensures
            r == self.bits(first_idx as nat, len as nat),
    ;
}

pub trait SetBit: Sized {
    /// Number of bits of the type.
    spec fn bit_width() -> nat;

    /// `self` with the bit at `idx` set to `value`.
    spec fn with_bit(&self, idx: nat, value: bool) -> Self;

    /// `self` with the `len` bits from `first_idx` down cleared, and `value`,
    /// moved up to the field's place, laid over the result.
    spec fn with_bits(&self, first_idx: nat, len: nat, value: Self) -> Self;

    /// Sets a single bit in `self`.
    fn set_bit(&mut self, idx: usize, value: bool)
        requires
            idx < Self::bit_width(),
        ensures
            *final(self) == old(self).with_bit(idx as nat, value),
    ;

    /// Sets the `len` bits of which `first_idx` is the highest.
    fn set_bits(&mut self, first_idx: u32, len: u32, value: Self)
        requires
            1 <= len <= Self::bit_width(),
            len <= first_idx + 1,
            first_idx + 1 - len < Self::bit_width(),
        ensures
            *final(self) == old(self).with_bits(first_idx as nat, len as nat, value),
    ;
}

impl GetBit for u8 {
    open spec fn bit_count() -> nat {
        8
    }

    open spec fn bit(&self, idx: nat) -> bool {
        (*self & (1u8 << (idx as u8))) != 0
    }

    open spec fn bits(&self, first_idx: nat, len: nat) -> u8 {
        (*self >> ((first_idx + 1 - len) as u8)) & (((1u8 << (len as u8)) - 1) as u8)
    }

    fn get_bit(&self, idx: usize) -> (b: bool) {
        (*self & (1u8 << (idx as u8))) != 0
    }

    fn get_bits(&self, first_idx: usize, len: usize) -> (r: u8) {
        let width: u8 = len as u8;
        assert((1u8 << width) >= 1) by (bit_vector)
            requires
                width < 8,
        ;
        let mask: u8 = (1u8 << width) - 1;
        (*self >> (((first_idx + 1) - len) as u8)) & mask
    }
}

impl SetBit for u8 {
    open spec fn bit_width() -> nat {
        8
    }

    open spec fn with_bit(&self, idx: nat, value: bool) -> u8 {
        (*self & !(1u8 << (idx as u8))) | ((if value {
            1u8
        } else {
            0u8
        }) << (idx as u8))
    }

    open spec fn with_bits(&self, first_idx: nat, len: nat, value: u8) -> u8 {
        (*self & !((u8::MAX >> ((8 - len) as u8)) << ((first_idx + 1 - len) as u8))) | (value << ((
        first_idx + 1 - len) as u8))
    }

    fn set_bit(&mut self, idx: usize, value: bool) {
        let one: u8 = if value {
            1
        } else {
            0
        };
        *self = (*self & !(1u8 << (idx as u8))) | (one << (idx as u8));
    }

    fn set_bits(&mut self, first_idx: u32, len: u32, value: u8) {
        let mask: u8 = u8::MAX >> ((8 - len) as u8);
        let mask: u8 = !(mask << ((first_idx + 1 - len) as u8));
        *self = (*self & mask) | (value << ((first_idx + 1 - len) as u8));
    }
}

impl GetBit for u32 {
    open spec fn bit_count() -> nat {
        32
    }

    open spec fn bit(&self, idx: nat) -> bool {
        (*self & (1u32 << (idx as u32))) != 0
    }

    open spec fn bits(&self, first_idx: nat, len: nat) -> u32 {
        (*self >> ((first_idx + 1 - len) as u32)) & (((1u32 << (len as u32)) - 1) as u32)
    }

    fn get_bit(&self, idx: usize) -> (b: bool) {
        (*self & (1u32 << (idx as u32))) != 0
    }

    fn get_bits(&self, first_idx: usize, len: usize) -> (r: u32) {
        let width: u32 = len as u32;
        assert((1u32 << width) >= 1) by (bit_vector)
            requires
                width < 32,
        ;
        let mask: u32 = (1u32 << width) - 1;
        (*self >> (((first_idx + 1) - len) as u32)) & mask
    }
}

impl GetBit for u64 {
    open spec fn bit_count() -> nat {
        64
    }

    open spec fn bit(&self, idx: nat) -> bool {
        (*self & (1u64 << (idx as u64))) != 0
    }

    open spec fn bits(&self, first_idx: nat, len: nat) -> u64 {
        (*self >> ((first_idx + 1 - len) as u64)) & (((1u64 << (len as u64)) - 1) as u64)
    }

    fn get_bit(&self, idx: usize) -> (b: bool) {
        (*self & (1u64 << (idx as u64))) != 0
    }

    fn get_bits(&self, first_idx: usize, len: usize) -> (r: u64) {
        let width: u64 = len as u64;
        assert((1u64 << width) >= 1) by (bit_vector)
            requires
                width < 64,
        ;
        let mask: u64 = (1u64 << width) - 1;
        (*self >> (((first_idx + 1) - len) as u64)) & mask
    }
}

impl SetBit for u64 {
    open spec fn bit_width() -> nat {
        64
    }

    open spec fn with_bit(&self, idx: nat, value: bool) -> u64 {
        (*self & !(1u64 << (idx as u64))) | ((if value {
            1u64
        } else {
            0u64
        }) << (idx as u64))
    }

    open spec fn with_bits(&self, first_idx: nat, len: nat, value: u64) -> u64 {
        (*self & !((u64::MAX >> ((64 - len) as u64)) << ((first_idx + 1 - len) as u64))) | (value << ((
        first_idx + 1 - len) as u64))
    }

    fn set_bit(&mut self, idx: usize, value: bool) {
        let one: u64 = if value {
            1
        } else {
            0
        };
        *self = (*self & !(1u64 << (idx as u64))) | (one << (idx as u64));
    }

    fn set_bits(&mut self, first_idx: u32, len: u32, value: u64) {
        let mask: u64 = u64::MAX >> ((64 - len) as u64);
        let mask: u64 = !(mask << ((first_idx + 1 - len) as u64));
        *self = (*self & mask) | (value << ((first_idx + 1 - len) as u64));
    }
}


/// A bit that was set reads back as it was set, and the other bits read as
/// before.
pub proof fn lemma_u8_bit_set(x: u8, idx: nat, value: bool, j: nat)
    requires
        idx < 8,
        j < 8,
    ensures
        x.with_bit(idx, value).bit(j) == (if j == idx {
            value
        } else {
            x.bit(j)
        }),
{
    let i = idx as u8;
    let k = j as u8;
    assert((((x & !(1u8 << i)) | ((if value {
        1u8
    } else {
        0u8
    }) << i)) & (1u8 << k) != 0) == (if k == i {
        value
    } else {
        x & (1u8 << k) != 0
    })) by (bit_vector)
        requires
            i < 8,
            k < 8,
    ;
}

/// A field reads, bit for bit, the bits it spans.
pub proof fn lemma_u8_field_bits(x: u8, first_idx: nat, len: nat, j: nat)
    requires
        len <= first_idx + 1,
        first_idx < 8,
        first_idx + 1 - len < 8,
        len < 8,
        j < 8,
    ensures
        x.bits(first_idx, len).bit(j) == (j < len && x.bit((first_idx + 1 - len + j) as nat)),
{
    let low = (first_idx + 1 - len) as u8;
    let n = len as u8;
    let k = j as u8;
    let up = if j < len { (first_idx + 1 - len + j) as u8 } else { 0u8 };
    assert((((x >> low) & (((1u8 << n) - 1) as u8)) & (1u8 << k) != 0) == (k < n && (x & (1u8
        << up) != 0))) by (bit_vector)
        requires
            low < 8,
            n < 8,
            k < 8,
            low + n <= 8,
            k < n ==> up == low + k,
    ;
}

/// A value that fits a field reads back from it as it was written.
pub proof fn lemma_u8_field_read_back(x: u8, first_idx: nat, len: nat, value: u8)
    requires
        1 <= len <= first_idx + 1,
        first_idx < 8,
        len < 8,
        value >> (len as u8) == 0,
    ensures
        x.with_bits(first_idx, len, value).bits(first_idx, len) == value,
{
    let low = (first_idx + 1 - len) as u8;
    let n = len as u8;
    let m = (8 - len) as u8;
    assert(((((x & !((u8::MAX >> m) << low)) | (value << low)) >> low) & (((1u8 << n) - 1) as u8))
        == value) by (bit_vector)
        requires
            1 <= n < 8,
            low + n <= 8,
            m == 8 - n,
            value >> n == 0,
    ;
}

/// Writing a value that fits a field leaves every bit outside it as it was.
pub proof fn lemma_u8_field_keeps_bit(x: u8, first_idx: nat, len: nat, value: u8, j: nat)
    requires
        1 <= len <= first_idx + 1,
        first_idx < 8,
        len < 8 ==> value >> (len as u8) == 0,
        j < 8,
        j < first_idx + 1 - len || first_idx < j,
    ensures
        x.with_bits(first_idx, len, value).bit(j) == x.bit(j),
{
    let low = (first_idx + 1 - len) as u8;
    let n = len as u8;
    let m = (8 - len) as u8;
    let k = j as u8;
    assert((((x & !((u8::MAX >> m) << low)) | (value << low)) & (1u8 << k) != 0) == (x & (1u8 << k)
        != 0)) by (bit_vector)
        requires
            1 <= n <= 8,
            low + n <= 8,
            m == 8 - n,
            n < 8 ==> value >> n == 0,
            k < 8,
            k < low || low + n <= k,
    ;
}

/// Writing a value that fits a field leaves every field apart from it as
/// it was.
pub proof fn lemma_u8_field_keeps_field(
    x: u8,
    first_idx: nat,
    len: nat,
    value: u8,
    other_first: nat,
    other_len: nat,
)
    requires
        1 <= len <= first_idx + 1,
        first_idx < 8,
        len < 8 ==> value >> (len as u8) == 0,
        other_len <= other_first + 1,
        other_first < 8,
        other_len < 8,
        other_first < first_idx + 1 - len || first_idx < other_first + 1 - other_len,
    ensures
        x.with_bits(first_idx, len, value).bits(other_first, other_len) == x.bits(
            other_first,
            other_len,
        ),
{
    let low = (first_idx + 1 - len) as u8;
    let n = len as u8;
    let m = (8 - len) as u8;
    let l2 = (other_first + 1 - other_len) as u8;
    let n2 = other_len as u8;
    assert(((((x & !((u8::MAX >> m) << low)) | (value << low)) >> l2) & (((1u8 << n2) - 1) as u8))
        == ((x >> l2) & (((1u8 << n2) - 1) as u8))) by (bit_vector)
        requires
            1 <= n <= 8,
            low + n <= 8,
            m == 8 - n,
            n < 8 ==> value >> n == 0,
            n2 < 8,
            l2 + n2 <= 8,
            l2 + n2 <= low || low + n <= l2,
    ;
}

/// Setting a bit leaves every field that does not hold it as it was.
pub proof fn lemma_u8_bit_keeps_field(x: u8, idx: nat, value: bool, first_idx: nat, len: nat)
    requires
        idx < 8,
        len <= first_idx + 1,
        first_idx < 8,
        len < 8,
        idx < first_idx + 1 - len || first_idx < idx,
    ensures
        x.with_bit(idx, value).bits(first_idx, len) == x.bits(first_idx, len),
{
    let i = idx as u8;
    let low = (first_idx + 1 - len) as u8;
    let n = len as u8;
    assert(((((x & !(1u8 << i)) | ((if value {
        1u8
    } else {
        0u8
    }) << i)) >> low) & (((1u8 << n) - 1) as u8)) == ((x >> low) & (((1u8 << n) - 1) as u8)))
        by (bit_vector)
        requires
            i < 8,
            n < 8,
            low + n <= 8,
            i < low || low + n <= i,
    ;
}

/// A bit that was set reads back as it was set, and the other bits read as
/// before.
pub proof fn lemma_u64_bit_set(x: u64, idx: nat, value: bool, j: nat)
    requires
        idx < 64,
        j < 64,
    ensures
        x.with_bit(idx, value).bit(j) == (if j == idx {
            value
        } else {
            x.bit(j)
        }),
{
    let i = idx as u64;
    let k = j as u64;
    assert((((x & !(1u64 << i)) | ((if value {
        1u64
    } else {
        0u64
    }) << i)) & (1u64 << k) != 0) == (if k == i {
        value
    } else {
        x & (1u64 << k) != 0
    })) by (bit_vector)
        requires
            i < 64,
            k < 64,
    ;
}

/// A field reads, bit for bit, the bits it spans.
pub proof fn lemma_u64_field_bits(x: u64, first_idx: nat, len: nat, j: nat)
    requires
        len <= first_idx + 1,
        first_idx < 64,
        first_idx + 1 - len < 64,
        len < 64,
        j < 64,
    ensures
        x.bits(first_idx, len).bit(j) == (j < len && x.bit((first_idx + 1 - len + j) as nat)),
{
    let low = (first_idx + 1 - len) as u64;
    let n = len as u64;
    let k = j as u64;
    let up = if j < len { (first_idx + 1 - len + j) as u64 } else { 0u64 };
    assert((((x >> low) & (((1u64 << n) - 1) as u64)) & (1u64 << k) != 0) == (k < n && (x & (1u64
        << up) != 0))) by (bit_vector)
        requires
            low < 64,
            n < 64,
            k < 64,
            low + n <= 64,
            k < n ==> up == low + k,
    ;
}

/// A value that fits a field reads back from it as it was written.
pub proof fn lemma_u64_field_read_back(x: u64, first_idx: nat, len: nat, value: u64)
    requires
        1 <= len <= first_idx + 1,
        first_idx < 64,
        len < 64,
        value >> (len as u64) == 0,
    ensures
        x.with_bits(first_idx, len, value).bits(first_idx, len) == value,
{
    let low = (first_idx + 1 - len) as u64;
    let n = len as u64;
    let m = (64 - len) as u64;
    assert(((((x & !((u64::MAX >> m) << low)) | (value << low)) >> low) & (((1u64 << n) - 1) as u64))
        == value) by (bit_vector)
        requires
            1 <= n < 64,
            low + n <= 64,
            m == 64 - n,
            value >> n == 0,
    ;
}

/// Writing a value that fits a field leaves every bit outside it as it was.
pub proof fn lemma_u64_field_keeps_bit(x: u64, first_idx: nat, len: nat, value: u64, j: nat)
    requires
        1 <= len <= first_idx + 1,
        first_idx < 64,
        len < 64 ==> value >> (len as u64) == 0,
        j < 64,
        j < first_idx + 1 - len || first_idx < j,
    ensures
        x.with_bits(first_idx, len, value).bit(j) == x.bit(j),
{
    let low = (first_idx + 1 - len) as u64;
    let n = len as u64;
    let m = (64 - len) as u64;
    let k = j as u64;
    assert((((x & !((u64::MAX >> m) << low)) | (value << low)) & (1u64 << k) != 0) == (x & (1u64 << k)
        != 0)) by (bit_vector)
        requires
            1 <= n <= 64,
            low + n <= 64,
            m == 64 - n,
            n < 64 ==> value >> n == 0,
            k < 64,
            k < low || low + n <= k,
    ;
}

/// Writing a value that fits a field leaves every field apart from it as
/// it was.
pub proof fn lemma_u64_field_keeps_field(
    x: u64,
    first_idx: nat,
    len: nat,
    value: u64,
    other_first: nat,
    other_len: nat,
)
    requires
        1 <= len <= first_idx + 1,
        first_idx < 64,
        len < 64 ==> value >> (len as u64) == 0,
        other_len <= other_first + 1,
        other_first < 64,
        other_len < 64,
        other_first < first_idx + 1 - len || first_idx < other_first + 1 - other_len,
    ensures
        x.with_bits(first_idx, len, value).bits(other_first, other_len) == x.bits(
            other_first,
            other_len,
        ),
{
    let low = (first_idx + 1 - len) as u64;
    let n = len as u64;
    let m = (64 - len) as u64;
    let l2 = (other_first + 1 - other_len) as u64;
    let n2 = other_len as u64;
    assert(((((x & !((u64::MAX >> m) << low)) | (value << low)) >> l2) & (((1u64 << n2) - 1) as u64))
        == ((x >> l2) & (((1u64 << n2) - 1) as u64))) by (bit_vector)
        requires
            1 <= n <= 64,
            low + n <= 64,
            m == 64 - n,
            n < 64 ==> value >> n == 0,
            n2 < 64,
            l2 + n2 <= 64,
            l2 + n2 <= low || low + n <= l2,
    ;
}

/// Setting a bit leaves every field that does not hold it as it was.
pub proof fn lemma_u64_bit_keeps_field(x: u64, idx: nat, value: bool, first_idx: nat, len: nat)
    requires
        idx < 64,
        len <= first_idx + 1,
        first_idx < 64,
        len < 64,
        idx < first_idx + 1 - len || first_idx < idx,
    ensures
        x.with_bit(idx, value).bits(first_idx, len) == x.bits(first_idx, len),
{
    let i = idx as u64;
    let low = (first_idx + 1 - len) as u64;
    let n = len as u64;
    assert(((((x & !(1u64 << i)) | ((if value {
        1u64
    } else {
        0u64
    }) << i)) >> low) & (((1u64 << n) - 1) as u64)) == ((x >> low) & (((1u64 << n) - 1) as u64)))
        by (bit_vector)
        requires
            i < 64,
            n < 64,
            low + n <= 64,
            i < low || low + n <= i,
    ;
}

/// What a field reads fits the field.
pub proof fn lemma_u8_field_fits(x: u8, first_idx: nat, len: nat)
    requires
        len <= first_idx + 1,
        first_idx + 1 - len < 8,
        len < 8,
    ensures
        x.bits(first_idx, len) >> (len as u8) == 0,
        x.bits(first_idx, len) < (1u8 << (len as u8)),
{
    let low = (first_idx + 1 - len) as u8;
    let n = len as u8;
    assert((((x >> low) & (((1u8 << n) - 1) as u8)) >> n) == 0 && ((x >> low) & (((1u8 << n)
        - 1) as u8)) < (1u8 << n)) by (bit_vector)
        requires
            low < 8,
            n < 8,
    ;
}

/// A value below the power of two of a field's length fits the field.
pub proof fn lemma_u8_small_fits(value: u8, len: nat)
    requires
        len < 8,
        value < (1u8 << (len as u8)),
    ensures
        value >> (len as u8) == 0,
{
    let n = len as u8;
    assert(value >> n == 0) by (bit_vector)
        requires
            n < 8,
            value < (1u8 << n),
    ;
}

/// What a field reads fits the field.
pub proof fn lemma_u64_field_fits(x: u64, first_idx: nat, len: nat)
    requires
        len <= first_idx + 1,
        first_idx + 1 - len < 64,
        len < 64,
    ensures
        x.bits(first_idx, len) >> (len as u64) == 0,
        x.bits(first_idx, len) < (1u64 << (len as u64)),
{
    let low = (first_idx + 1 - len) as u64;
    let n = len as u64;
    assert((((x >> low) & (((1u64 << n) - 1) as u64)) >> n) == 0 && ((x >> low) & (((1u64 << n)
        - 1) as u64)) < (1u64 << n)) by (bit_vector)
        requires
            low < 64,
            n < 64,
    ;
}

/// A value below the power of two of a field's length fits the field.
pub proof fn lemma_u64_small_fits(value: u64, len: nat)
    requires
        len < 64,
        value < (1u64 << (len as u64)),
    ensures
        value >> (len as u64) == 0,
{
    let n = len as u64;
    assert(value >> n == 0) by (bit_vector)
        requires
            n < 64,
            value < (1u64 << n),
    ;
}

} // verus!

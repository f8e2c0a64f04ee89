//! The primitive integer types as `Int`. Each method first states what
//! `value`, `lowest` and `highest` are for the type, so that the trait's
//! contract is read in terms of the type's own arithmetic.

use vstd::prelude::*;
use crate::integer::{Int, lemma_quotient_fits};

verus! {

impl Int for u8 {
    open spec fn value(self) -> int {
        self as int
    }

    open spec fn lowest() -> int {
        0
    }

    open spec fn highest() -> int {
        255
    }

    proof fn lemma_range(self) {
        assert(Self::lowest() == 0 && Self::highest() == 255);
        assert(self.value() == self as int);
    }

    proof fn lemma_value_is_injective(self, other: Self) {
        assert(self.value() == self as int && other.value() == other as int);
    }

    fn zero() -> (r: Self) {
        0
    }

    fn one() -> (r: Self) {
        1
    }

    fn next(self) -> (r: Self) {
        proof {
            assert(Self::lowest() == 0 && Self::highest() == 255);
            assert(self.value() == self as int);
        }
        self + Self::one()
    }

    fn prev(self) -> (r: Self) {
        proof {
            assert(Self::lowest() == 0 && Self::highest() == 255);
            assert(self.value() == self as int);
        }
        self - Self::one()
    }

    fn plus(self, other: Self) -> (r: Self) {
        proof {
            assert(Self::lowest() == 0 && Self::highest() == 255);
            assert(self.value() == self as int && other.value() == other as int);
        }
        self + other
    }

    fn minus(self, other: Self) -> (r: Self) {
        proof {
            assert(Self::lowest() == 0 && Self::highest() == 255);
            assert(self.value() == self as int && other.value() == other as int);
        }
        self - other
    }

    fn times(self, other: Self) -> (r: Self) {
        proof {
            assert(Self::lowest() == 0 && Self::highest() == 255);
            assert(self.value() == self as int && other.value() == other as int);
        }
        self * other
    }

    fn quot(self, other: Self) -> (r: Self) {
        proof {
            assert(Self::lowest() == 0 && Self::highest() == 255);
            assert(self.value() == self as int && other.value() == other as int);
            lemma_quotient_fits(self as int, other as int, Self::lowest(), Self::highest());
        }
        self / other
    }

    fn rem(self, other: Self) -> (r: Self) {
        proof {
            assert(Self::lowest() == 0 && Self::highest() == 255);
            assert(self.value() == self as int && other.value() == other as int);
        }
        self % other
    }

    fn less(self, other: Self) -> (r: bool) {
        self < other
    }

    fn same(self, other: Self) -> (r: bool) {
        self == other
    }
}

impl Int for i8 {
    open spec fn value(self) -> int {
        self as int
    }

    open spec fn lowest() -> int {
        -128
    }

    open spec fn highest() -> int {
        127
    }

    proof fn lemma_range(self) {
        assert(Self::lowest() == -128 && Self::highest() == 127);
        assert(self.value() == self as int);
    }

    proof fn lemma_value_is_injective(self, other: Self) {
        assert(self.value() == self as int && other.value() == other as int);
    }

    fn zero() -> (r: Self) {
        0
    }

    fn one() -> (r: Self) {
        1
    }

    fn next(self) -> (r: Self) {
        proof {
            assert(Self::lowest() == -128 && Self::highest() == 127);
            assert(self.value() == self as int);
        }
        self + Self::one()
    }

    fn prev(self) -> (r: Self) {
        proof {
            assert(Self::lowest() == -128 && Self::highest() == 127);
            assert(self.value() == self as int);
        }
        self - Self::one()
    }

    fn plus(self, other: Self) -> (r: Self) {
        proof {
            assert(Self::lowest() == -128 && Self::highest() == 127);
            assert(self.value() == self as int && other.value() == other as int);
        }
        self + other
    }

    fn minus(self, other: Self) -> (r: Self) {
        proof {
            assert(Self::lowest() == -128 && Self::highest() == 127);
            assert(self.value() == self as int && other.value() == other as int);
        }
        self - other
    }

    fn times(self, other: Self) -> (r: Self) {
        proof {
            assert(Self::lowest() == -128 && Self::highest() == 127);
            assert(self.value() == self as int && other.value() == other as int);
        }
        self * other
    }

    fn quot(self, other: Self) -> (r: Self) {
        proof {
            assert(Self::lowest() == -128 && Self::highest() == 127);
            assert(self.value() == self as int && other.value() == other as int);
            lemma_quotient_fits(self as int, other as int, Self::lowest(), Self::highest());
        }
        self / other
    }

    fn rem(self, other: Self) -> (r: Self) {
        proof {
            assert(Self::lowest() == -128 && Self::highest() == 127);
            assert(self.value() == self as int && other.value() == other as int);
        }
        self % other
    }

    fn less(self, other: Self) -> (r: bool) {
        self < other
    }

    fn same(self, other: Self) -> (r: bool) {
        self == other
    }
}

impl Int for u16 {
    open spec fn value(self) -> int {
        self as int
    }

    open spec fn lowest() -> int {
        0
    }

    open spec fn highest() -> int {
        65535
    }

    proof fn lemma_range(self) {
        assert(Self::lowest() == 0 && Self::highest() == 65535);
        assert(self.value() == self as int);
    }

    proof fn lemma_value_is_injective(self, other: Self) {
        assert(self.value() == self as int && other.value() == other as int);
    }

    fn zero() -> (r: Self) {
        0
    }

    fn one() -> (r: Self) {
        1
    }

    fn next(self) -> (r: Self) {
        proof {
            assert(Self::lowest() == 0 && Self::highest() == 65535);
            assert(self.value() == self as int);
        }
        self + Self::one()
    }

    fn prev(self) -> (r: Self) {
        proof {
            assert(Self::lowest() == 0 && Self::highest() == 65535);
            assert(self.value() == self as int);
        }
        self - Self::one()
    }

    fn plus(self, other: Self) -> (r: Self) {
        proof {
            assert(Self::lowest() == 0 && Self::highest() == 65535);
            assert(self.value() == self as int && other.value() == other as int);
        }
        self + other
    }

    fn minus(self, other: Self) -> (r: Self) {
        proof {
            assert(Self::lowest() == 0 && Self::highest() == 65535);
            assert(self.value() == self as int && other.value() == other as int);
        }
        self - other
    }

    fn times(self, other: Self) -> (r: Self) {
        proof {
            assert(Self::lowest() == 0 && Self::highest() == 65535);
            assert(self.value() == self as int && other.value() == other as int);
        }
        self * other
    }

    fn quot(self, other: Self) -> (r: Self) {
        proof {
            assert(Self::lowest() == 0 && Self::highest() == 65535);
            assert(self.value() == self as int && other.value() == other as int);
            lemma_quotient_fits(self as int, other as int, Self::lowest(), Self::highest());
        }
        self / other
    }

    fn rem(self, other: Self) -> (r: Self) {
        proof {
            assert(Self::lowest() == 0 && Self::highest() == 65535);
            assert(self.value() == self as int && other.value() == other as int);
        }
        self % other
    }

    fn less(self, other: Self) -> (r: bool) {
        self < other
    }

    fn same(self, other: Self) -> (r: bool) {
        self == other
    }
}

impl Int for i16 {
    open spec fn value(self) -> int {
        self as int
    }

    open spec fn lowest() -> int {
        -32768
    }

    open spec fn highest() -> int {
        32767
    }

    proof fn lemma_range(self) {
        assert(Self::lowest() == -32768 && Self::highest() == 32767);
        assert(self.value() == self as int);
    }

    proof fn lemma_value_is_injective(self, other: Self) {
        assert(self.value() == self as int && other.value() == other as int);
    }

    fn zero() -> (r: Self) {
        0
    }

    fn one() -> (r: Self) {
        1
    }

    fn next(self) -> (r: Self) {
        proof {
            assert(Self::lowest() == -32768 && Self::highest() == 32767);
            assert(self.value() == self as int);
        }
        self + Self::one()
    }

    fn prev(self) -> (r: Self) {
        proof {
            assert(Self::lowest() == -32768 && Self::highest() == 32767);
            assert(self.value() == self as int);
        }
        self - Self::one()
    }

    fn plus(self, other: Self) -> (r: Self) {
        proof {
            assert(Self::lowest() == -32768 && Self::highest() == 32767);
            assert(self.value() == self as int && other.value() == other as int);
        }
        self + other
    }

    fn minus(self, other: Self) -> (r: Self) {
        proof {
            assert(Self::lowest() == -32768 && Self::highest() == 32767);
            assert(self.value() == self as int && other.value() == other as int);
        }
        self - other
    }

    fn times(self, other: Self) -> (r: Self) {
        proof {
            assert(Self::lowest() == -32768 && Self::highest() == 32767);
            assert(self.value() == self as int && other.value() == other as int);
        }
        self * other
    }

    fn quot(self, other: Self) -> (r: Self) {
        proof {
            assert(Self::lowest() == -32768 && Self::highest() == 32767);
            assert(self.value() == self as int && other.value() == other as int);
            lemma_quotient_fits(self as int, other as int, Self::lowest(), Self::highest());
        }
        self / other
    }

    fn rem(self, other: Self) -> (r: Self) {
        proof {
            assert(Self::lowest() == -32768 && Self::highest() == 32767);
            assert(self.value() == self as int && other.value() == other as int);
        }
        self % other
    }

    fn less(self, other: Self) -> (r: bool) {
        self < other
    }

    fn same(self, other: Self) -> (r: bool) {
        self == other
    }
}

impl Int for u32 {
    open spec fn value(self) -> int {
        self as int
    }

    open spec fn lowest() -> int {
        0
    }

    open spec fn highest() -> int {
        4294967295
    }

    proof fn lemma_range(self) {
        assert(Self::lowest() == 0 && Self::highest() == 4294967295);
        assert(self.value() == self as int);
    }

    proof fn lemma_value_is_injective(self, other: Self) {
        assert(self.value() == self as int && other.value() == other as int);
    }

    fn zero() -> (r: Self) {
        0
    }

    fn one() -> (r: Self) {
        1
    }

    fn next(self) -> (r: Self) {
        proof {
            assert(Self::lowest() == 0 && Self::highest() == 4294967295);
            assert(self.value() == self as int);
        }
        self + Self::one()
    }

    fn prev(self) -> (r: Self) {
        proof {
            assert(Self::lowest() == 0 && Self::highest() == 4294967295);
            assert(self.value() == self as int);
        }
        self - Self::one()
    }

    fn plus(self, other: Self) -> (r: Self) {
        proof {
            assert(Self::lowest() == 0 && Self::highest() == 4294967295);
            assert(self.value() == self as int && other.value() == other as int);
        }
        self + other
    }

    fn minus(self, other: Self) -> (r: Self) {
        proof {
            assert(Self::lowest() == 0 && Self::highest() == 4294967295);
            assert(self.value() == self as int && other.value() == other as int);
        }
        self - other
    }

    fn times(self, other: Self) -> (r: Self) {
        proof {
            assert(Self::lowest() == 0 && Self::highest() == 4294967295);
            assert(self.value() == self as int && other.value() == other as int);
        }
        self * other
    }

    fn quot(self, other: Self) -> (r: Self) {
        proof {
            assert(Self::lowest() == 0 && Self::highest() == 4294967295);
            assert(self.value() == self as int && other.value() == other as int);
            lemma_quotient_fits(self as int, other as int, Self::lowest(), Self::highest());
        }
        self / other
    }

    fn rem(self, other: Self) -> (r: Self) {
        proof {
            assert(Self::lowest() == 0 && Self::highest() == 4294967295);
            assert(self.value() == self as int && other.value() == other as int);
        }
        self % other
    }

    fn less(self, other: Self) -> (r: bool) {
        self < other
    }

    fn same(self, other: Self) -> (r: bool) {
        self == other
    }
}

impl Int for i32 {
    open spec fn value(self) -> int {
        self as int
    }

    open spec fn lowest() -> int {
        -2147483648
    }

    open spec fn highest() -> int {
        2147483647
    }

    proof fn lemma_range(self) {
        assert(Self::lowest() == -2147483648 && Self::highest() == 2147483647);
        assert(self.value() == self as int);
    }

    proof fn lemma_value_is_injective(self, other: Self) {
        assert(self.value() == self as int && other.value() == other as int);
    }

    fn zero() -> (r: Self) {
        0
    }

    fn one() -> (r: Self) {
        1
    }

    fn next(self) -> (r: Self) {
        proof {
            assert(Self::lowest() == -2147483648 && Self::highest() == 2147483647);
            assert(self.value() == self as int);
        }
        self + Self::one()
    }

    fn prev(self) -> (r: Self) {
        proof {
            assert(Self::lowest() == -2147483648 && Self::highest() == 2147483647);
            assert(self.value() == self as int);
        }
        self - Self::one()
    }

    fn plus(self, other: Self) -> (r: Self) {
        proof {
            assert(Self::lowest() == -2147483648 && Self::highest() == 2147483647);
            assert(self.value() == self as int && other.value() == other as int);
        }
        self + other
    }

    fn minus(self, other: Self) -> (r: Self) {
        proof {
            assert(Self::lowest() == -2147483648 && Self::highest() == 2147483647);
            assert(self.value() == self as int && other.value() == other as int);
        }
        self - other
    }

    fn times(self, other: Self) -> (r: Self) {
        proof {
            assert(Self::lowest() == -2147483648 && Self::highest() == 2147483647);
            assert(self.value() == self as int && other.value() == other as int);
        }
        self * other
    }

    fn quot(self, other: Self) -> (r: Self) {
        proof {
            assert(Self::lowest() == -2147483648 && Self::highest() == 2147483647);
            assert(self.value() == self as int && other.value() == other as int);
            lemma_quotient_fits(self as int, other as int, Self::lowest(), Self::highest());
        }
        self / other
    }

    fn rem(self, other: Self) -> (r: Self) {
        proof {
            assert(Self::lowest() == -2147483648 && Self::highest() == 2147483647);
            assert(self.value() == self as int && other.value() == other as int);
        }
        self % other
    }

    fn less(self, other: Self) -> (r: bool) {
        self < other
    }

    fn same(self, other: Self) -> (r: bool) {
        self == other
    }
}

impl Int for u64 {
    open spec fn value(self) -> int {
        self as int
    }

    open spec fn lowest() -> int {
        0
    }

    open spec fn highest() -> int {
        18446744073709551615
    }

    proof fn lemma_range(self) {
        assert(Self::lowest() == 0 && Self::highest() == 18446744073709551615);
        assert(self.value() == self as int);
    }

    proof fn lemma_value_is_injective(self, other: Self) {
        assert(self.value() == self as int && other.value() == other as int);
    }

    fn zero() -> (r: Self) {
        0
    }

    fn one() -> (r: Self) {
        1
    }

    fn next(self) -> (r: Self) {
        proof {
            assert(Self::lowest() == 0 && Self::highest() == 18446744073709551615);
            assert(self.value() == self as int);
        }
        self + Self::one()
    }

    fn prev(self) -> (r: Self) {
        proof {
            assert(Self::lowest() == 0 && Self::highest() == 18446744073709551615);
            assert(self.value() == self as int);
        }
        self - Self::one()
    }

    fn plus(self, other: Self) -> (r: Self) {
        proof {
            assert(Self::lowest() == 0 && Self::highest() == 18446744073709551615);
            assert(self.value() == self as int && other.value() == other as int);
        }
        self + other
    }

    fn minus(self, other: Self) -> (r: Self) {
        proof {
            assert(Self::lowest() == 0 && Self::highest() == 18446744073709551615);
            assert(self.value() == self as int && other.value() == other as int);
        }
        self - other
    }

    fn times(self, other: Self) -> (r: Self) {
        proof {
            assert(Self::lowest() == 0 && Self::highest() == 18446744073709551615);
            assert(self.value() == self as int && other.value() == other as int);
        }
        self * other
    }

    fn quot(self, other: Self) -> (r: Self) {
        proof {
            assert(Self::lowest() == 0 && Self::highest() == 18446744073709551615);
            assert(self.value() == self as int && other.value() == other as int);
            lemma_quotient_fits(self as int, other as int, Self::lowest(), Self::highest());
        }
        self / other
    }

    fn rem(self, other: Self) -> (r: Self) {
        proof {
            assert(Self::lowest() == 0 && Self::highest() == 18446744073709551615);
            assert(self.value() == self as int && other.value() == other as int);
        }
        self % other
    }

    fn less(self, other: Self) -> (r: bool) {
        self < other
    }

    fn same(self, other: Self) -> (r: bool) {
        self == other
    }
}

impl Int for i64 {
    open spec fn value(self) -> int {
        self as int
    }

    open spec fn lowest() -> int {
        -9223372036854775808
    }

    open spec fn highest() -> int {
        9223372036854775807
    }

    proof fn lemma_range(self) {
        assert(Self::lowest() == -9223372036854775808 && Self::highest() == 9223372036854775807);
        assert(self.value() == self as int);
    }

    proof fn lemma_value_is_injective(self, other: Self) {
        assert(self.value() == self as int && other.value() == other as int);
    }

    fn zero() -> (r: Self) {
        0
    }

    fn one() -> (r: Self) {
        1
    }

    fn next(self) -> (r: Self) {
        proof {
            assert(Self::lowest() == -9223372036854775808 && Self::highest() == 9223372036854775807);
            assert(self.value() == self as int);
        }
        self + Self::one()
    }

    fn prev(self) -> (r: Self) {
        proof {
            assert(Self::lowest() == -9223372036854775808 && Self::highest() == 9223372036854775807);
            assert(self.value() == self as int);
        }
        self - Self::one()
    }

    fn plus(self, other: Self) -> (r: Self) {
        proof {
            assert(Self::lowest() == -9223372036854775808 && Self::highest() == 9223372036854775807);
            assert(self.value() == self as int && other.value() == other as int);
        }
        self + other
    }

    fn minus(self, other: Self) -> (r: Self) {
        proof {
            assert(Self::lowest() == -9223372036854775808 && Self::highest() == 9223372036854775807);
            assert(self.value() == self as int && other.value() == other as int);
        }
        self - other
    }

    fn times(self, other: Self) -> (r: Self) {
        proof {
            assert(Self::lowest() == -9223372036854775808 && Self::highest() == 9223372036854775807);
            assert(self.value() == self as int && other.value() == other as int);
        }
        self * other
    }

    fn quot(self, other: Self) -> (r: Self) {
        proof {
            assert(Self::lowest() == -9223372036854775808 && Self::highest() == 9223372036854775807);
            assert(self.value() == self as int && other.value() == other as int);
            lemma_quotient_fits(self as int, other as int, Self::lowest(), Self::highest());
        }
        self / other
    }

    fn rem(self, other: Self) -> (r: Self) {
        proof {
            assert(Self::lowest() == -9223372036854775808 && Self::highest() == 9223372036854775807);
            assert(self.value() == self as int && other.value() == other as int);
        }
        self % other
    }

    fn less(self, other: Self) -> (r: bool) {
        self < other
    }

    fn same(self, other: Self) -> (r: bool) {
        self == other
    }
}

impl Int for usize {
    open spec fn value(self) -> int {
        self as int
    }

    open spec fn lowest() -> int {
        0
    }

    open spec fn highest() -> int {
        usize::MAX as int
    }

    proof fn lemma_range(self) {
        assert(Self::lowest() == 0 && Self::highest() == usize::MAX as int);
        assert(self.value() == self as int);
    }

    proof fn lemma_value_is_injective(self, other: Self) {
        assert(self.value() == self as int && other.value() == other as int);
    }

    fn zero() -> (r: Self) {
        0
    }

    fn one() -> (r: Self) {
        1
    }

    fn next(self) -> (r: Self) {
        proof {
            assert(Self::lowest() == 0 && Self::highest() == usize::MAX as int);
            assert(self.value() == self as int);
        }
        self + Self::one()
    }

    fn prev(self) -> (r: Self) {
        proof {
            assert(Self::lowest() == 0 && Self::highest() == usize::MAX as int);
            assert(self.value() == self as int);
        }
        self - Self::one()
    }

    fn plus(self, other: Self) -> (r: Self) {
        proof {
            assert(Self::lowest() == 0 && Self::highest() == usize::MAX as int);
            assert(self.value() == self as int && other.value() == other as int);
        }
        self + other
    }

    fn minus(self, other: Self) -> (r: Self) {
        proof {
            assert(Self::lowest() == 0 && Self::highest() == usize::MAX as int);
            assert(self.value() == self as int && other.value() == other as int);
        }
        self - other
    }

    fn times(self, other: Self) -> (r: Self) {
        proof {
            assert(Self::lowest() == 0 && Self::highest() == usize::MAX as int);
            assert(self.value() == self as int && other.value() == other as int);
        }
        self * other
    }

    fn quot(self, other: Self) -> (r: Self) {
        proof {
            assert(Self::lowest() == 0 && Self::highest() == usize::MAX as int);
            assert(self.value() == self as int && other.value() == other as int);
            lemma_quotient_fits(self as int, other as int, Self::lowest(), Self::highest());
        }
        self / other
    }

    fn rem(self, other: Self) -> (r: Self) {
        proof {
            assert(Self::lowest() == 0 && Self::highest() == usize::MAX as int);
            assert(self.value() == self as int && other.value() == other as int);
        }
        self % other
    }

    fn less(self, other: Self) -> (r: bool) {
        self < other
    }

    fn same(self, other: Self) -> (r: bool) {
        self == other
    }
}

impl Int for isize {
    open spec fn value(self) -> int {
        self as int
    }

    open spec fn lowest() -> int {
        isize::MIN as int
    }

    open spec fn highest() -> int {
        isize::MAX as int
    }

    proof fn lemma_range(self) {
        assert(Self::lowest() == isize::MIN as int && Self::highest() == isize::MAX as int);
        assert(self.value() == self as int);
    }

    proof fn lemma_value_is_injective(self, other: Self) {
        assert(self.value() == self as int && other.value() == other as int);
    }

    fn zero() -> (r: Self) {
        0
    }

    fn one() -> (r: Self) {
        1
    }

    fn next(self) -> (r: Self) {
        proof {
            assert(Self::lowest() == isize::MIN as int && Self::highest() == isize::MAX as int);
            assert(self.value() == self as int);
        }
        self + Self::one()
    }

    fn prev(self) -> (r: Self) {
        proof {
            assert(Self::lowest() == isize::MIN as int && Self::highest() == isize::MAX as int);
            assert(self.value() == self as int);
        }
        self - Self::one()
    }

    fn plus(self, other: Self) -> (r: Self) {
        proof {
            assert(Self::lowest() == isize::MIN as int && Self::highest() == isize::MAX as int);
            assert(self.value() == self as int && other.value() == other as int);
        }
        self + other
    }

    fn minus(self, other: Self) -> (r: Self) {
        proof {
            assert(Self::lowest() == isize::MIN as int && Self::highest() == isize::MAX as int);
            assert(self.value() == self as int && other.value() == other as int);
        }
        self - other
    }

    fn times(self, other: Self) -> (r: Self) {
        proof {
            assert(Self::lowest() == isize::MIN as int && Self::highest() == isize::MAX as int);
            assert(self.value() == self as int && other.value() == other as int);
        }
        self * other
    }

    fn quot(self, other: Self) -> (r: Self) {
        proof {
            assert(Self::lowest() == isize::MIN as int && Self::highest() == isize::MAX as int);
            assert(self.value() == self as int && other.value() == other as int);
            lemma_quotient_fits(self as int, other as int, Self::lowest(), Self::highest());
        }
        self / other
    }

    fn rem(self, other: Self) -> (r: Self) {
        proof {
            assert(Self::lowest() == isize::MIN as int && Self::highest() == isize::MAX as int);
            assert(self.value() == self as int && other.value() == other as int);
        }
        self % other
    }

    fn less(self, other: Self) -> (r: bool) {
        self < other
    }

    fn same(self, other: Self) -> (r: bool) {
        self == other
    }
}

} // verus!

//! The primitive integers on the left of a fraction: comparison and
//! arithmetic take the integer as a fraction over one.

use vstd::prelude::*;
use vstd::std_specs::cmp::{PartialEqSpecImpl, PartialOrdSpecImpl};
use vstd::std_specs::ops::{AddSpecImpl, DivSpecImpl, MulSpecImpl, SubSpecImpl};
use std::cmp::Ordering;
use crate::integer::Int;
use crate::rational::{
    order_of, product_fits, quotient_fits, reduced_product, reduced_quotient, reduced_sum, sum_fits,
    Rational,
};

verus! {

impl PartialEqSpecImpl<Rational<u8>> for u8 {
    open spec fn obeys_eq_spec() -> bool {
        true
    }

    open spec fn eq_spec(&self, other: &Rational<u8>) -> bool {
        self.value() * other.denom() == other.numer()
    }
}

impl PartialEq<Rational<u8>> for u8 {
    fn eq(&self, other: &Rational<u8>) -> (r: bool) {
        let r = Rational::from_integer(*self);
        proof {
            assert(other.numer() * 1 == other.numer()) by (nonlinear_arith);
        }
        match r.cmp(other) {
            Ordering::Equal => true,
            _ => false,
        }
    }
}

impl PartialOrdSpecImpl<Rational<u8>> for u8 {
    open spec fn obeys_partial_cmp_spec() -> bool {
        true
    }

    open spec fn partial_cmp_spec(&self, other: &Rational<u8>) -> Option<Ordering> {
        Some(order_of(self.value() * other.denom(), other.numer()))
    }
}

impl PartialOrd<Rational<u8>> for u8 {
    fn partial_cmp(&self, other: &Rational<u8>) -> (r: Option<Ordering>) {
        let r = Rational::from_integer(*self);
        proof {
            assert(other.numer() * 1 == other.numer()) by (nonlinear_arith);
        }
        Some(r.cmp(other))
    }
}

impl AddSpecImpl<Rational<u8>> for u8 {
    open spec fn obeys_add_spec() -> bool {
        true
    }

    open spec fn add_req(self, rhs: Rational<u8>) -> bool {
        sum_fits(self.value(), 1, rhs.numer(), rhs.denom(), 1, u8::lowest(), u8::highest())
    }

    open spec fn add_spec(self, rhs: Rational<u8>) -> Rational<u8> {
        Rational::with_parts(reduced_sum(self.value(), 1, rhs.numer(), rhs.denom(), 1))
    }
}

impl std::ops::Add<Rational<u8>> for u8 {
    type Output = Rational<u8>;

    fn add(self, rhs: Rational<u8>) -> Self::Output {
        let r = Rational::from_integer(self).plus(rhs);
        proof {
            r.lemma_with_parts();
        }
        r
    }
}

impl SubSpecImpl<Rational<u8>> for u8 {
    open spec fn obeys_sub_spec() -> bool {
        true
    }

    open spec fn sub_req(self, rhs: Rational<u8>) -> bool {
        sum_fits(self.value(), 1, rhs.numer(), rhs.denom(), -1, u8::lowest(), u8::highest())
    }

    open spec fn sub_spec(self, rhs: Rational<u8>) -> Rational<u8> {
        Rational::with_parts(reduced_sum(self.value(), 1, rhs.numer(), rhs.denom(), -1))
    }
}

impl std::ops::Sub<Rational<u8>> for u8 {
    type Output = Rational<u8>;

    fn sub(self, rhs: Rational<u8>) -> Self::Output {
        let r = Rational::from_integer(self).minus(rhs);
        proof {
            r.lemma_with_parts();
        }
        r
    }
}

impl MulSpecImpl<Rational<u8>> for u8 {
    open spec fn obeys_mul_spec() -> bool {
        true
    }

    open spec fn mul_req(self, rhs: Rational<u8>) -> bool {
        product_fits(self.value(), 1, rhs.numer(), rhs.denom(), u8::lowest(), u8::highest())
    }

    open spec fn mul_spec(self, rhs: Rational<u8>) -> Rational<u8> {
        Rational::with_parts(reduced_product(self.value(), 1, rhs.numer(), rhs.denom()))
    }
}

impl std::ops::Mul<Rational<u8>> for u8 {
    type Output = Rational<u8>;

    fn mul(self, rhs: Rational<u8>) -> Self::Output {
        let r = Rational::from_integer(self).times(rhs);
        proof {
            r.lemma_with_parts();
        }
        r
    }
}

impl DivSpecImpl<Rational<u8>> for u8 {
    open spec fn obeys_div_spec() -> bool {
        true
    }

    open spec fn div_req(self, rhs: Rational<u8>) -> bool {
        quotient_fits(self.value(), 1, rhs.numer(), rhs.denom(), u8::lowest(), u8::highest())
    }

    open spec fn div_spec(self, rhs: Rational<u8>) -> Rational<u8> {
        Rational::with_parts(reduced_quotient(self.value(), 1, rhs.numer(), rhs.denom()))
    }
}

impl std::ops::Div<Rational<u8>> for u8 {
    type Output = Rational<u8>;

    fn div(self, rhs: Rational<u8>) -> Self::Output {
        let r = Rational::from_integer(self).over(rhs);
        proof {
            r.lemma_with_parts();
        }
        r
    }
}

impl PartialEqSpecImpl<Rational<i8>> for i8 {
    open spec fn obeys_eq_spec() -> bool {
        true
    }

    open spec fn eq_spec(&self, other: &Rational<i8>) -> bool {
        self.value() * other.denom() == other.numer()
    }
}

impl PartialEq<Rational<i8>> for i8 {
    fn eq(&self, other: &Rational<i8>) -> (r: bool) {
        let r = Rational::from_integer(*self);
        proof {
            assert(other.numer() * 1 == other.numer()) by (nonlinear_arith);
        }
        match r.cmp(other) {
            Ordering::Equal => true,
            _ => false,
        }
    }
}

impl PartialOrdSpecImpl<Rational<i8>> for i8 {
    open spec fn obeys_partial_cmp_spec() -> bool {
        true
    }

    open spec fn partial_cmp_spec(&self, other: &Rational<i8>) -> Option<Ordering> {
        Some(order_of(self.value() * other.denom(), other.numer()))
    }
}

impl PartialOrd<Rational<i8>> for i8 {
    fn partial_cmp(&self, other: &Rational<i8>) -> (r: Option<Ordering>) {
        let r = Rational::from_integer(*self);
        proof {
            assert(other.numer() * 1 == other.numer()) by (nonlinear_arith);
        }
        Some(r.cmp(other))
    }
}

impl AddSpecImpl<Rational<i8>> for i8 {
    open spec fn obeys_add_spec() -> bool {
        true
    }

    open spec fn add_req(self, rhs: Rational<i8>) -> bool {
        sum_fits(self.value(), 1, rhs.numer(), rhs.denom(), 1, i8::lowest(), i8::highest())
    }

    open spec fn add_spec(self, rhs: Rational<i8>) -> Rational<i8> {
        Rational::with_parts(reduced_sum(self.value(), 1, rhs.numer(), rhs.denom(), 1))
    }
}

impl std::ops::Add<Rational<i8>> for i8 {
    type Output = Rational<i8>;

    fn add(self, rhs: Rational<i8>) -> Self::Output {
        let r = Rational::from_integer(self).plus(rhs);
        proof {
            r.lemma_with_parts();
        }
        r
    }
}

impl SubSpecImpl<Rational<i8>> for i8 {
    open spec fn obeys_sub_spec() -> bool {
        true
    }

    open spec fn sub_req(self, rhs: Rational<i8>) -> bool {
        sum_fits(self.value(), 1, rhs.numer(), rhs.denom(), -1, i8::lowest(), i8::highest())
    }

    open spec fn sub_spec(self, rhs: Rational<i8>) -> Rational<i8> {
        Rational::with_parts(reduced_sum(self.value(), 1, rhs.numer(), rhs.denom(), -1))
    }
}

impl std::ops::Sub<Rational<i8>> for i8 {
    type Output = Rational<i8>;

    fn sub(self, rhs: Rational<i8>) -> Self::Output {
        let r = Rational::from_integer(self).minus(rhs);
        proof {
            r.lemma_with_parts();
        }
        r
    }
}

impl MulSpecImpl<Rational<i8>> for i8 {
    open spec fn obeys_mul_spec() -> bool {
        true
    }

    open spec fn mul_req(self, rhs: Rational<i8>) -> bool {
        product_fits(self.value(), 1, rhs.numer(), rhs.denom(), i8::lowest(), i8::highest())
    }

    open spec fn mul_spec(self, rhs: Rational<i8>) -> Rational<i8> {
        Rational::with_parts(reduced_product(self.value(), 1, rhs.numer(), rhs.denom()))
    }
}

impl std::ops::Mul<Rational<i8>> for i8 {
    type Output = Rational<i8>;

    fn mul(self, rhs: Rational<i8>) -> Self::Output {
        let r = Rational::from_integer(self).times(rhs);
        proof {
            r.lemma_with_parts();
        }
        r
    }
}

impl DivSpecImpl<Rational<i8>> for i8 {
    open spec fn obeys_div_spec() -> bool {
        true
    }

    open spec fn div_req(self, rhs: Rational<i8>) -> bool {
        quotient_fits(self.value(), 1, rhs.numer(), rhs.denom(), i8::lowest(), i8::highest())
    }

    open spec fn div_spec(self, rhs: Rational<i8>) -> Rational<i8> {
        Rational::with_parts(reduced_quotient(self.value(), 1, rhs.numer(), rhs.denom()))
    }
}

impl std::ops::Div<Rational<i8>> for i8 {
    type Output = Rational<i8>;

    fn div(self, rhs: Rational<i8>) -> Self::Output {
        let r = Rational::from_integer(self).over(rhs);
        proof {
            r.lemma_with_parts();
        }
        r
    }
}

impl PartialEqSpecImpl<Rational<u16>> for u16 {
    open spec fn obeys_eq_spec() -> bool {
        true
    }

    open spec fn eq_spec(&self, other: &Rational<u16>) -> bool {
        self.value() * other.denom() == other.numer()
    }
}

impl PartialEq<Rational<u16>> for u16 {
    fn eq(&self, other: &Rational<u16>) -> (r: bool) {
        let r = Rational::from_integer(*self);
        proof {
            assert(other.numer() * 1 == other.numer()) by (nonlinear_arith);
        }
        match r.cmp(other) {
            Ordering::Equal => true,
            _ => false,
        }
    }
}

impl PartialOrdSpecImpl<Rational<u16>> for u16 {
    open spec fn obeys_partial_cmp_spec() -> bool {
        true
    }

    open spec fn partial_cmp_spec(&self, other: &Rational<u16>) -> Option<Ordering> {
        Some(order_of(self.value() * other.denom(), other.numer()))
    }
}

impl PartialOrd<Rational<u16>> for u16 {
    fn partial_cmp(&self, other: &Rational<u16>) -> (r: Option<Ordering>) {
        let r = Rational::from_integer(*self);
        proof {
            assert(other.numer() * 1 == other.numer()) by (nonlinear_arith);
        }
        Some(r.cmp(other))
    }
}

impl AddSpecImpl<Rational<u16>> for u16 {
    open spec fn obeys_add_spec() -> bool {
        true
    }

    open spec fn add_req(self, rhs: Rational<u16>) -> bool {
        sum_fits(self.value(), 1, rhs.numer(), rhs.denom(), 1, u16::lowest(), u16::highest())
    }

    open spec fn add_spec(self, rhs: Rational<u16>) -> Rational<u16> {
        Rational::with_parts(reduced_sum(self.value(), 1, rhs.numer(), rhs.denom(), 1))
    }
}

impl std::ops::Add<Rational<u16>> for u16 {
    type Output = Rational<u16>;

    fn add(self, rhs: Rational<u16>) -> Self::Output {
        let r = Rational::from_integer(self).plus(rhs);
        proof {
            r.lemma_with_parts();
        }
        r
    }
}

impl SubSpecImpl<Rational<u16>> for u16 {
    open spec fn obeys_sub_spec() -> bool {
        true
    }

    open spec fn sub_req(self, rhs: Rational<u16>) -> bool {
        sum_fits(self.value(), 1, rhs.numer(), rhs.denom(), -1, u16::lowest(), u16::highest())
    }

    open spec fn sub_spec(self, rhs: Rational<u16>) -> Rational<u16> {
        Rational::with_parts(reduced_sum(self.value(), 1, rhs.numer(), rhs.denom(), -1))
    }
}

impl std::ops::Sub<Rational<u16>> for u16 {
    type Output = Rational<u16>;

    fn sub(self, rhs: Rational<u16>) -> Self::Output {
        let r = Rational::from_integer(self).minus(rhs);
        proof {
            r.lemma_with_parts();
        }
        r
    }
}

impl MulSpecImpl<Rational<u16>> for u16 {
    open spec fn obeys_mul_spec() -> bool {
        true
    }

    open spec fn mul_req(self, rhs: Rational<u16>) -> bool {
        product_fits(self.value(), 1, rhs.numer(), rhs.denom(), u16::lowest(), u16::highest())
    }

    open spec fn mul_spec(self, rhs: Rational<u16>) -> Rational<u16> {
        Rational::with_parts(reduced_product(self.value(), 1, rhs.numer(), rhs.denom()))
    }
}

impl std::ops::Mul<Rational<u16>> for u16 {
    type Output = Rational<u16>;

    fn mul(self, rhs: Rational<u16>) -> Self::Output {
        let r = Rational::from_integer(self).times(rhs);
        proof {
            r.lemma_with_parts();
        }
        r
    }
}

impl DivSpecImpl<Rational<u16>> for u16 {
    open spec fn obeys_div_spec() -> bool {
        true
    }

    open spec fn div_req(self, rhs: Rational<u16>) -> bool {
        quotient_fits(self.value(), 1, rhs.numer(), rhs.denom(), u16::lowest(), u16::highest())
    }

    open spec fn div_spec(self, rhs: Rational<u16>) -> Rational<u16> {
        Rational::with_parts(reduced_quotient(self.value(), 1, rhs.numer(), rhs.denom()))
    }
}

impl std::ops::Div<Rational<u16>> for u16 {
    type Output = Rational<u16>;

    fn div(self, rhs: Rational<u16>) -> Self::Output {
        let r = Rational::from_integer(self).over(rhs);
        proof {
            r.lemma_with_parts();
        }
        r
    }
}

impl PartialEqSpecImpl<Rational<i16>> for i16 {
    open spec fn obeys_eq_spec() -> bool {
        true
    }

    open spec fn eq_spec(&self, other: &Rational<i16>) -> bool {
        self.value() * other.denom() == other.numer()
    }
}

impl PartialEq<Rational<i16>> for i16 {
    fn eq(&self, other: &Rational<i16>) -> (r: bool) {
        let r = Rational::from_integer(*self);
        proof {
            assert(other.numer() * 1 == other.numer()) by (nonlinear_arith);
        }
        match r.cmp(other) {
            Ordering::Equal => true,
            _ => false,
        }
    }
}

impl PartialOrdSpecImpl<Rational<i16>> for i16 {
    open spec fn obeys_partial_cmp_spec() -> bool {
        true
    }

    open spec fn partial_cmp_spec(&self, other: &Rational<i16>) -> Option<Ordering> {
        Some(order_of(self.value() * other.denom(), other.numer()))
    }
}

impl PartialOrd<Rational<i16>> for i16 {
    fn partial_cmp(&self, other: &Rational<i16>) -> (r: Option<Ordering>) {
        let r = Rational::from_integer(*self);
        proof {
            assert(other.numer() * 1 == other.numer()) by (nonlinear_arith);
        }
        Some(r.cmp(other))
    }
}

impl AddSpecImpl<Rational<i16>> for i16 {
    open spec fn obeys_add_spec() -> bool {
        true
    }

    open spec fn add_req(self, rhs: Rational<i16>) -> bool {
        sum_fits(self.value(), 1, rhs.numer(), rhs.denom(), 1, i16::lowest(), i16::highest())
    }

    open spec fn add_spec(self, rhs: Rational<i16>) -> Rational<i16> {
        Rational::with_parts(reduced_sum(self.value(), 1, rhs.numer(), rhs.denom(), 1))
    }
}

impl std::ops::Add<Rational<i16>> for i16 {
    type Output = Rational<i16>;

    fn add(self, rhs: Rational<i16>) -> Self::Output {
        let r = Rational::from_integer(self).plus(rhs);
        proof {
            r.lemma_with_parts();
        }
        r
    }
}

impl SubSpecImpl<Rational<i16>> for i16 {
    open spec fn obeys_sub_spec() -> bool {
        true
    }

    open spec fn sub_req(self, rhs: Rational<i16>) -> bool {
        sum_fits(self.value(), 1, rhs.numer(), rhs.denom(), -1, i16::lowest(), i16::highest())
    }

    open spec fn sub_spec(self, rhs: Rational<i16>) -> Rational<i16> {
        Rational::with_parts(reduced_sum(self.value(), 1, rhs.numer(), rhs.denom(), -1))
    }
}

impl std::ops::Sub<Rational<i16>> for i16 {
    type Output = Rational<i16>;

    fn sub(self, rhs: Rational<i16>) -> Self::Output {
        let r = Rational::from_integer(self).minus(rhs);
        proof {
            r.lemma_with_parts();
        }
        r
    }
}

impl MulSpecImpl<Rational<i16>> for i16 {
    open spec fn obeys_mul_spec() -> bool {
        true
    }

    open spec fn mul_req(self, rhs: Rational<i16>) -> bool {
        product_fits(self.value(), 1, rhs.numer(), rhs.denom(), i16::lowest(), i16::highest())
    }

    open spec fn mul_spec(self, rhs: Rational<i16>) -> Rational<i16> {
        Rational::with_parts(reduced_product(self.value(), 1, rhs.numer(), rhs.denom()))
    }
}

impl std::ops::Mul<Rational<i16>> for i16 {
    type Output = Rational<i16>;

    fn mul(self, rhs: Rational<i16>) -> Self::Output {
        let r = Rational::from_integer(self).times(rhs);
        proof {
            r.lemma_with_parts();
        }
        r
    }
}

impl DivSpecImpl<Rational<i16>> for i16 {
    open spec fn obeys_div_spec() -> bool {
        true
    }

    open spec fn div_req(self, rhs: Rational<i16>) -> bool {
        quotient_fits(self.value(), 1, rhs.numer(), rhs.denom(), i16::lowest(), i16::highest())
    }

    open spec fn div_spec(self, rhs: Rational<i16>) -> Rational<i16> {
        Rational::with_parts(reduced_quotient(self.value(), 1, rhs.numer(), rhs.denom()))
    }
}

impl std::ops::Div<Rational<i16>> for i16 {
    type Output = Rational<i16>;

    fn div(self, rhs: Rational<i16>) -> Self::Output {
        let r = Rational::from_integer(self).over(rhs);
        proof {
            r.lemma_with_parts();
        }
        r
    }
}

impl PartialEqSpecImpl<Rational<u32>> for u32 {
    open spec fn obeys_eq_spec() -> bool {
        true
    }

    open spec fn eq_spec(&self, other: &Rational<u32>) -> bool {
        self.value() * other.denom() == other.numer()
    }
}

impl PartialEq<Rational<u32>> for u32 {
    fn eq(&self, other: &Rational<u32>) -> (r: bool) {
        let r = Rational::from_integer(*self);
        proof {
            assert(other.numer() * 1 == other.numer()) by (nonlinear_arith);
        }
        match r.cmp(other) {
            Ordering::Equal => true,
            _ => false,
        }
    }
}

impl PartialOrdSpecImpl<Rational<u32>> for u32 {
    open spec fn obeys_partial_cmp_spec() -> bool {
        true
    }

    open spec fn partial_cmp_spec(&self, other: &Rational<u32>) -> Option<Ordering> {
        Some(order_of(self.value() * other.denom(), other.numer()))
    }
}

impl PartialOrd<Rational<u32>> for u32 {
    fn partial_cmp(&self, other: &Rational<u32>) -> (r: Option<Ordering>) {
        let r = Rational::from_integer(*self);
        proof {
            assert(other.numer() * 1 == other.numer()) by (nonlinear_arith);
        }
        Some(r.cmp(other))
    }
}

impl AddSpecImpl<Rational<u32>> for u32 {
    open spec fn obeys_add_spec() -> bool {
        true
    }

    open spec fn add_req(self, rhs: Rational<u32>) -> bool {
        sum_fits(self.value(), 1, rhs.numer(), rhs.denom(), 1, u32::lowest(), u32::highest())
    }

    open spec fn add_spec(self, rhs: Rational<u32>) -> Rational<u32> {
        Rational::with_parts(reduced_sum(self.value(), 1, rhs.numer(), rhs.denom(), 1))
    }
}

impl std::ops::Add<Rational<u32>> for u32 {
    type Output = Rational<u32>;

    fn add(self, rhs: Rational<u32>) -> Self::Output {
        let r = Rational::from_integer(self).plus(rhs);
        proof {
            r.lemma_with_parts();
        }
        r
    }
}

impl SubSpecImpl<Rational<u32>> for u32 {
    open spec fn obeys_sub_spec() -> bool {
        true
    }

    open spec fn sub_req(self, rhs: Rational<u32>) -> bool {
        sum_fits(self.value(), 1, rhs.numer(), rhs.denom(), -1, u32::lowest(), u32::highest())
    }

    open spec fn sub_spec(self, rhs: Rational<u32>) -> Rational<u32> {
        Rational::with_parts(reduced_sum(self.value(), 1, rhs.numer(), rhs.denom(), -1))
    }
}

impl std::ops::Sub<Rational<u32>> for u32 {
    type Output = Rational<u32>;

    fn sub(self, rhs: Rational<u32>) -> Self::Output {
        let r = Rational::from_integer(self).minus(rhs);
        proof {
            r.lemma_with_parts();
        }
        r
    }
}

impl MulSpecImpl<Rational<u32>> for u32 {
    open spec fn obeys_mul_spec() -> bool {
        true
    }

    open spec fn mul_req(self, rhs: Rational<u32>) -> bool {
        product_fits(self.value(), 1, rhs.numer(), rhs.denom(), u32::lowest(), u32::highest())
    }

    open spec fn mul_spec(self, rhs: Rational<u32>) -> Rational<u32> {
        Rational::with_parts(reduced_product(self.value(), 1, rhs.numer(), rhs.denom()))
    }
}

impl std::ops::Mul<Rational<u32>> for u32 {
    type Output = Rational<u32>;

    fn mul(self, rhs: Rational<u32>) -> Self::Output {
        let r = Rational::from_integer(self).times(rhs);
        proof {
            r.lemma_with_parts();
        }
        r
    }
}

impl DivSpecImpl<Rational<u32>> for u32 {
    open spec fn obeys_div_spec() -> bool {
        true
    }

    open spec fn div_req(self, rhs: Rational<u32>) -> bool {
        quotient_fits(self.value(), 1, rhs.numer(), rhs.denom(), u32::lowest(), u32::highest())
    }

    open spec fn div_spec(self, rhs: Rational<u32>) -> Rational<u32> {
        Rational::with_parts(reduced_quotient(self.value(), 1, rhs.numer(), rhs.denom()))
    }
}

impl std::ops::Div<Rational<u32>> for u32 {
    type Output = Rational<u32>;

    fn div(self, rhs: Rational<u32>) -> Self::Output {
        let r = Rational::from_integer(self).over(rhs);
        proof {
            r.lemma_with_parts();
        }
        r
    }
}

impl PartialEqSpecImpl<Rational<i32>> for i32 {
    open spec fn obeys_eq_spec() -> bool {
        true
    }

    open spec fn eq_spec(&self, other: &Rational<i32>) -> bool {
        self.value() * other.denom() == other.numer()
    }
}

impl PartialEq<Rational<i32>> for i32 {
    fn eq(&self, other: &Rational<i32>) -> (r: bool) {
        let r = Rational::from_integer(*self);
        proof {
            assert(other.numer() * 1 == other.numer()) by (nonlinear_arith);
        }
        match r.cmp(other) {
            Ordering::Equal => true,
            _ => false,
        }
    }
}

impl PartialOrdSpecImpl<Rational<i32>> for i32 {
    open spec fn obeys_partial_cmp_spec() -> bool {
        true
    }

    open spec fn partial_cmp_spec(&self, other: &Rational<i32>) -> Option<Ordering> {
        Some(order_of(self.value() * other.denom(), other.numer()))
    }
}

impl PartialOrd<Rational<i32>> for i32 {
    fn partial_cmp(&self, other: &Rational<i32>) -> (r: Option<Ordering>) {
        let r = Rational::from_integer(*self);
        proof {
            assert(other.numer() * 1 == other.numer()) by (nonlinear_arith);
        }
        Some(r.cmp(other))
    }
}

impl AddSpecImpl<Rational<i32>> for i32 {
    open spec fn obeys_add_spec() -> bool {
        true
    }

    open spec fn add_req(self, rhs: Rational<i32>) -> bool {
        sum_fits(self.value(), 1, rhs.numer(), rhs.denom(), 1, i32::lowest(), i32::highest())
    }

    open spec fn add_spec(self, rhs: Rational<i32>) -> Rational<i32> {
        Rational::with_parts(reduced_sum(self.value(), 1, rhs.numer(), rhs.denom(), 1))
    }
}

impl std::ops::Add<Rational<i32>> for i32 {
    type Output = Rational<i32>;

    fn add(self, rhs: Rational<i32>) -> Self::Output {
        let r = Rational::from_integer(self).plus(rhs);
        proof {
            r.lemma_with_parts();
        }
        r
    }
}

impl SubSpecImpl<Rational<i32>> for i32 {
    open spec fn obeys_sub_spec() -> bool {
        true
    }

    open spec fn sub_req(self, rhs: Rational<i32>) -> bool {
        sum_fits(self.value(), 1, rhs.numer(), rhs.denom(), -1, i32::lowest(), i32::highest())
    }

    open spec fn sub_spec(self, rhs: Rational<i32>) -> Rational<i32> {
        Rational::with_parts(reduced_sum(self.value(), 1, rhs.numer(), rhs.denom(), -1))
    }
}

impl std::ops::Sub<Rational<i32>> for i32 {
    type Output = Rational<i32>;

    fn sub(self, rhs: Rational<i32>) -> Self::Output {
        let r = Rational::from_integer(self).minus(rhs);
        proof {
            r.lemma_with_parts();
        }
        r
    }
}

impl MulSpecImpl<Rational<i32>> for i32 {
    open spec fn obeys_mul_spec() -> bool {
        true
    }

    open spec fn mul_req(self, rhs: Rational<i32>) -> bool {
        product_fits(self.value(), 1, rhs.numer(), rhs.denom(), i32::lowest(), i32::highest())
    }

    open spec fn mul_spec(self, rhs: Rational<i32>) -> Rational<i32> {
        Rational::with_parts(reduced_product(self.value(), 1, rhs.numer(), rhs.denom()))
    }
}

impl std::ops::Mul<Rational<i32>> for i32 {
    type Output = Rational<i32>;

    fn mul(self, rhs: Rational<i32>) -> Self::Output {
        let r = Rational::from_integer(self).times(rhs);
        proof {
            r.lemma_with_parts();
        }
        r
    }
}

impl DivSpecImpl<Rational<i32>> for i32 {
    open spec fn obeys_div_spec() -> bool {
        true
    }

    open spec fn div_req(self, rhs: Rational<i32>) -> bool {
        quotient_fits(self.value(), 1, rhs.numer(), rhs.denom(), i32::lowest(), i32::highest())
    }

    open spec fn div_spec(self, rhs: Rational<i32>) -> Rational<i32> {
        Rational::with_parts(reduced_quotient(self.value(), 1, rhs.numer(), rhs.denom()))
    }
}

impl std::ops::Div<Rational<i32>> for i32 {
    type Output = Rational<i32>;

    fn div(self, rhs: Rational<i32>) -> Self::Output {
        let r = Rational::from_integer(self).over(rhs);
        proof {
            r.lemma_with_parts();
        }
        r
    }
}

impl PartialEqSpecImpl<Rational<u64>> for u64 {
    open spec fn obeys_eq_spec() -> bool {
        true
    }

    open spec fn eq_spec(&self, other: &Rational<u64>) -> bool {
        self.value() * other.denom() == other.numer()
    }
}

impl PartialEq<Rational<u64>> for u64 {
    fn eq(&self, other: &Rational<u64>) -> (r: bool) {
        let r = Rational::from_integer(*self);
        proof {
            assert(other.numer() * 1 == other.numer()) by (nonlinear_arith);
        }
        match r.cmp(other) {
            Ordering::Equal => true,
            _ => false,
        }
    }
}

impl PartialOrdSpecImpl<Rational<u64>> for u64 {
    open spec fn obeys_partial_cmp_spec() -> bool {
        true
    }

    open spec fn partial_cmp_spec(&self, other: &Rational<u64>) -> Option<Ordering> {
        Some(order_of(self.value() * other.denom(), other.numer()))
    }
}

impl PartialOrd<Rational<u64>> for u64 {
    fn partial_cmp(&self, other: &Rational<u64>) -> (r: Option<Ordering>) {
        let r = Rational::from_integer(*self);
        proof {
            assert(other.numer() * 1 == other.numer()) by (nonlinear_arith);
        }
        Some(r.cmp(other))
    }
}

impl AddSpecImpl<Rational<u64>> for u64 {
    open spec fn obeys_add_spec() -> bool {
        true
    }

    open spec fn add_req(self, rhs: Rational<u64>) -> bool {
        sum_fits(self.value(), 1, rhs.numer(), rhs.denom(), 1, u64::lowest(), u64::highest())
    }

    open spec fn add_spec(self, rhs: Rational<u64>) -> Rational<u64> {
        Rational::with_parts(reduced_sum(self.value(), 1, rhs.numer(), rhs.denom(), 1))
    }
}

impl std::ops::Add<Rational<u64>> for u64 {
    type Output = Rational<u64>;

    fn add(self, rhs: Rational<u64>) -> Self::Output {
        let r = Rational::from_integer(self).plus(rhs);
        proof {
            r.lemma_with_parts();
        }
        r
    }
}

impl SubSpecImpl<Rational<u64>> for u64 {
    open spec fn obeys_sub_spec() -> bool {
        true
    }

    open spec fn sub_req(self, rhs: Rational<u64>) -> bool {
        sum_fits(self.value(), 1, rhs.numer(), rhs.denom(), -1, u64::lowest(), u64::highest())
    }

    open spec fn sub_spec(self, rhs: Rational<u64>) -> Rational<u64> {
        Rational::with_parts(reduced_sum(self.value(), 1, rhs.numer(), rhs.denom(), -1))
    }
}

impl std::ops::Sub<Rational<u64>> for u64 {
    type Output = Rational<u64>;

    fn sub(self, rhs: Rational<u64>) -> Self::Output {
        let r = Rational::from_integer(self).minus(rhs);
        proof {
            r.lemma_with_parts();
        }
        r
    }
}

impl MulSpecImpl<Rational<u64>> for u64 {
    open spec fn obeys_mul_spec() -> bool {
        true
    }

    open spec fn mul_req(self, rhs: Rational<u64>) -> bool {
        product_fits(self.value(), 1, rhs.numer(), rhs.denom(), u64::lowest(), u64::highest())
    }

    open spec fn mul_spec(self, rhs: Rational<u64>) -> Rational<u64> {
        Rational::with_parts(reduced_product(self.value(), 1, rhs.numer(), rhs.denom()))
    }
}

impl std::ops::Mul<Rational<u64>> for u64 {
    type Output = Rational<u64>;

    fn mul(self, rhs: Rational<u64>) -> Self::Output {
        let r = Rational::from_integer(self).times(rhs);
        proof {
            r.lemma_with_parts();
        }
        r
    }
}

impl DivSpecImpl<Rational<u64>> for u64 {
    open spec fn obeys_div_spec() -> bool {
        true
    }

    open spec fn div_req(self, rhs: Rational<u64>) -> bool {
        quotient_fits(self.value(), 1, rhs.numer(), rhs.denom(), u64::lowest(), u64::highest())
    }

    open spec fn div_spec(self, rhs: Rational<u64>) -> Rational<u64> {
        Rational::with_parts(reduced_quotient(self.value(), 1, rhs.numer(), rhs.denom()))
    }
}

impl std::ops::Div<Rational<u64>> for u64 {
    type Output = Rational<u64>;

    fn div(self, rhs: Rational<u64>) -> Self::Output {
        let r = Rational::from_integer(self).over(rhs);
        proof {
            r.lemma_with_parts();
        }
        r
    }
}

impl PartialEqSpecImpl<Rational<i64>> for i64 {
    open spec fn obeys_eq_spec() -> bool {
        true
    }

    open spec fn eq_spec(&self, other: &Rational<i64>) -> bool {
        self.value() * other.denom() == other.numer()
    }
}

impl PartialEq<Rational<i64>> for i64 {
    fn eq(&self, other: &Rational<i64>) -> (r: bool) {
        let r = Rational::from_integer(*self);
        proof {
            assert(other.numer() * 1 == other.numer()) by (nonlinear_arith);
        }
        match r.cmp(other) {
            Ordering::Equal => true,
            _ => false,
        }
    }
}

impl PartialOrdSpecImpl<Rational<i64>> for i64 {
    open spec fn obeys_partial_cmp_spec() -> bool {
        true
    }

    open spec fn partial_cmp_spec(&self, other: &Rational<i64>) -> Option<Ordering> {
        Some(order_of(self.value() * other.denom(), other.numer()))
    }
}

impl PartialOrd<Rational<i64>> for i64 {
    fn partial_cmp(&self, other: &Rational<i64>) -> (r: Option<Ordering>) {
        let r = Rational::from_integer(*self);
        proof {
            assert(other.numer() * 1 == other.numer()) by (nonlinear_arith);
        }
        Some(r.cmp(other))
    }
}

impl AddSpecImpl<Rational<i64>> for i64 {
    open spec fn obeys_add_spec() -> bool {
        true
    }

    open spec fn add_req(self, rhs: Rational<i64>) -> bool {
        sum_fits(self.value(), 1, rhs.numer(), rhs.denom(), 1, i64::lowest(), i64::highest())
    }

    open spec fn add_spec(self, rhs: Rational<i64>) -> Rational<i64> {
        Rational::with_parts(reduced_sum(self.value(), 1, rhs.numer(), rhs.denom(), 1))
    }
}

impl std::ops::Add<Rational<i64>> for i64 {
    type Output = Rational<i64>;

    fn add(self, rhs: Rational<i64>) -> Self::Output {
        let r = Rational::from_integer(self).plus(rhs);
        proof {
            r.lemma_with_parts();
        }
        r
    }
}

impl SubSpecImpl<Rational<i64>> for i64 {
    open spec fn obeys_sub_spec() -> bool {
        true
    }

    open spec fn sub_req(self, rhs: Rational<i64>) -> bool {
        sum_fits(self.value(), 1, rhs.numer(), rhs.denom(), -1, i64::lowest(), i64::highest())
    }

    open spec fn sub_spec(self, rhs: Rational<i64>) -> Rational<i64> {
        Rational::with_parts(reduced_sum(self.value(), 1, rhs.numer(), rhs.denom(), -1))
    }
}

impl std::ops::Sub<Rational<i64>> for i64 {
    type Output = Rational<i64>;

    fn sub(self, rhs: Rational<i64>) -> Self::Output {
        let r = Rational::from_integer(self).minus(rhs);
        proof {
            r.lemma_with_parts();
        }
        r
    }
}

impl MulSpecImpl<Rational<i64>> for i64 {
    open spec fn obeys_mul_spec() -> bool {
        true
    }

    open spec fn mul_req(self, rhs: Rational<i64>) -> bool {
        product_fits(self.value(), 1, rhs.numer(), rhs.denom(), i64::lowest(), i64::highest())
    }

    open spec fn mul_spec(self, rhs: Rational<i64>) -> Rational<i64> {
        Rational::with_parts(reduced_product(self.value(), 1, rhs.numer(), rhs.denom()))
    }
}

impl std::ops::Mul<Rational<i64>> for i64 {
    type Output = Rational<i64>;

    fn mul(self, rhs: Rational<i64>) -> Self::Output {
        let r = Rational::from_integer(self).times(rhs);
        proof {
            r.lemma_with_parts();
        }
        r
    }
}

impl DivSpecImpl<Rational<i64>> for i64 {
    open spec fn obeys_div_spec() -> bool {
        true
    }

    open spec fn div_req(self, rhs: Rational<i64>) -> bool {
        quotient_fits(self.value(), 1, rhs.numer(), rhs.denom(), i64::lowest(), i64::highest())
    }

    open spec fn div_spec(self, rhs: Rational<i64>) -> Rational<i64> {
        Rational::with_parts(reduced_quotient(self.value(), 1, rhs.numer(), rhs.denom()))
    }
}

impl std::ops::Div<Rational<i64>> for i64 {
    type Output = Rational<i64>;

    fn div(self, rhs: Rational<i64>) -> Self::Output {
        let r = Rational::from_integer(self).over(rhs);
        proof {
            r.lemma_with_parts();
        }
        r
    }
}

impl PartialEqSpecImpl<Rational<usize>> for usize {
    open spec fn obeys_eq_spec() -> bool {
        true
    }

    open spec fn eq_spec(&self, other: &Rational<usize>) -> bool {
        self.value() * other.denom() == other.numer()
    }
}

impl PartialEq<Rational<usize>> for usize {
    fn eq(&self, other: &Rational<usize>) -> (r: bool) {
        let r = Rational::from_integer(*self);
        proof {
            assert(other.numer() * 1 == other.numer()) by (nonlinear_arith);
        }
        match r.cmp(other) {
            Ordering::Equal => true,
            _ => false,
        }
    }
}

impl PartialOrdSpecImpl<Rational<usize>> for usize {
    open spec fn obeys_partial_cmp_spec() -> bool {
        true
    }

    open spec fn partial_cmp_spec(&self, other: &Rational<usize>) -> Option<Ordering> {
        Some(order_of(self.value() * other.denom(), other.numer()))
    }
}

impl PartialOrd<Rational<usize>> for usize {
    fn partial_cmp(&self, other: &Rational<usize>) -> (r: Option<Ordering>) {
        let r = Rational::from_integer(*self);
        proof {
            assert(other.numer() * 1 == other.numer()) by (nonlinear_arith);
        }
        Some(r.cmp(other))
    }
}

impl AddSpecImpl<Rational<usize>> for usize {
    open spec fn obeys_add_spec() -> bool {
        true
    }

    open spec fn add_req(self, rhs: Rational<usize>) -> bool {
        sum_fits(self.value(), 1, rhs.numer(), rhs.denom(), 1, usize::lowest(), usize::highest())
    }

    open spec fn add_spec(self, rhs: Rational<usize>) -> Rational<usize> {
        Rational::with_parts(reduced_sum(self.value(), 1, rhs.numer(), rhs.denom(), 1))
    }
}

impl std::ops::Add<Rational<usize>> for usize {
    type Output = Rational<usize>;

    fn add(self, rhs: Rational<usize>) -> Self::Output {
        let r = Rational::from_integer(self).plus(rhs);
        proof {
            r.lemma_with_parts();
        }
        r
    }
}

impl SubSpecImpl<Rational<usize>> for usize {
    open spec fn obeys_sub_spec() -> bool {
        true
    }

    open spec fn sub_req(self, rhs: Rational<usize>) -> bool {
        sum_fits(self.value(), 1, rhs.numer(), rhs.denom(), -1, usize::lowest(), usize::highest())
    }

    open spec fn sub_spec(self, rhs: Rational<usize>) -> Rational<usize> {
        Rational::with_parts(reduced_sum(self.value(), 1, rhs.numer(), rhs.denom(), -1))
    }
}

impl std::ops::Sub<Rational<usize>> for usize {
    type Output = Rational<usize>;

    fn sub(self, rhs: Rational<usize>) -> Self::Output {
        let r = Rational::from_integer(self).minus(rhs);
        proof {
            r.lemma_with_parts();
        }
        r
    }
}

impl MulSpecImpl<Rational<usize>> for usize {
    open spec fn obeys_mul_spec() -> bool {
        true
    }

    open spec fn mul_req(self, rhs: Rational<usize>) -> bool {
        product_fits(self.value(), 1, rhs.numer(), rhs.denom(), usize::lowest(), usize::highest())
    }

    open spec fn mul_spec(self, rhs: Rational<usize>) -> Rational<usize> {
        Rational::with_parts(reduced_product(self.value(), 1, rhs.numer(), rhs.denom()))
    }
}

impl std::ops::Mul<Rational<usize>> for usize {
    type Output = Rational<usize>;

    fn mul(self, rhs: Rational<usize>) -> Self::Output {
        let r = Rational::from_integer(self).times(rhs);
        proof {
            r.lemma_with_parts();
        }
        r
    }
}

impl DivSpecImpl<Rational<usize>> for usize {
    open spec fn obeys_div_spec() -> bool {
        true
    }

    open spec fn div_req(self, rhs: Rational<usize>) -> bool {
        quotient_fits(self.value(), 1, rhs.numer(), rhs.denom(), usize::lowest(), usize::highest())
    }

    open spec fn div_spec(self, rhs: Rational<usize>) -> Rational<usize> {
        Rational::with_parts(reduced_quotient(self.value(), 1, rhs.numer(), rhs.denom()))
    }
}

impl std::ops::Div<Rational<usize>> for usize {
    type Output = Rational<usize>;

    fn div(self, rhs: Rational<usize>) -> Self::Output {
        let r = Rational::from_integer(self).over(rhs);
        proof {
            r.lemma_with_parts();
        }
        r
    }
}

impl PartialEqSpecImpl<Rational<isize>> for isize {
    open spec fn obeys_eq_spec() -> bool {
        true
    }

    open spec fn eq_spec(&self, other: &Rational<isize>) -> bool {
        self.value() * other.denom() == other.numer()
    }
}

impl PartialEq<Rational<isize>> for isize {
    fn eq(&self, other: &Rational<isize>) -> (r: bool) {
        let r = Rational::from_integer(*self);
        proof {
            assert(other.numer() * 1 == other.numer()) by (nonlinear_arith);
        }
        match r.cmp(other) {
            Ordering::Equal => true,
            _ => false,
        }
    }
}

impl PartialOrdSpecImpl<Rational<isize>> for isize {
    open spec fn obeys_partial_cmp_spec() -> bool {
        true
    }

    open spec fn partial_cmp_spec(&self, other: &Rational<isize>) -> Option<Ordering> {
        Some(order_of(self.value() * other.denom(), other.numer()))
    }
}

impl PartialOrd<Rational<isize>> for isize {
    fn partial_cmp(&self, other: &Rational<isize>) -> (r: Option<Ordering>) {
        let r = Rational::from_integer(*self);
        proof {
            assert(other.numer() * 1 == other.numer()) by (nonlinear_arith);
        }
        Some(r.cmp(other))
    }
}

impl AddSpecImpl<Rational<isize>> for isize {
    open spec fn obeys_add_spec() -> bool {
        true
    }

    open spec fn add_req(self, rhs: Rational<isize>) -> bool {
        sum_fits(self.value(), 1, rhs.numer(), rhs.denom(), 1, isize::lowest(), isize::highest())
    }

    open spec fn add_spec(self, rhs: Rational<isize>) -> Rational<isize> {
        Rational::with_parts(reduced_sum(self.value(), 1, rhs.numer(), rhs.denom(), 1))
    }
}

impl std::ops::Add<Rational<isize>> for isize {
    type Output = Rational<isize>;

    fn add(self, rhs: Rational<isize>) -> Self::Output {
        let r = Rational::from_integer(self).plus(rhs);
        proof {
            r.lemma_with_parts();
        }
        r
    }
}

impl SubSpecImpl<Rational<isize>> for isize {
    open spec fn obeys_sub_spec() -> bool {
        true
    }

    open spec fn sub_req(self, rhs: Rational<isize>) -> bool {
        sum_fits(self.value(), 1, rhs.numer(), rhs.denom(), -1, isize::lowest(), isize::highest())
    }

    open spec fn sub_spec(self, rhs: Rational<isize>) -> Rational<isize> {
        Rational::with_parts(reduced_sum(self.value(), 1, rhs.numer(), rhs.denom(), -1))
    }
}

impl std::ops::Sub<Rational<isize>> for isize {
    type Output = Rational<isize>;

    fn sub(self, rhs: Rational<isize>) -> Self::Output {
        let r = Rational::from_integer(self).minus(rhs);
        proof {
            r.lemma_with_parts();
        }
        r
    }
}

impl MulSpecImpl<Rational<isize>> for isize {
    open spec fn obeys_mul_spec() -> bool {
        true
    }

    open spec fn mul_req(self, rhs: Rational<isize>) -> bool {
        product_fits(self.value(), 1, rhs.numer(), rhs.denom(), isize::lowest(), isize::highest())
    }

    open spec fn mul_spec(self, rhs: Rational<isize>) -> Rational<isize> {
        Rational::with_parts(reduced_product(self.value(), 1, rhs.numer(), rhs.denom()))
    }
}

impl std::ops::Mul<Rational<isize>> for isize {
    type Output = Rational<isize>;

    fn mul(self, rhs: Rational<isize>) -> Self::Output {
        let r = Rational::from_integer(self).times(rhs);
        proof {
            r.lemma_with_parts();
        }
        r
    }
}

impl DivSpecImpl<Rational<isize>> for isize {
    open spec fn obeys_div_spec() -> bool {
        true
    }

    open spec fn div_req(self, rhs: Rational<isize>) -> bool {
        quotient_fits(self.value(), 1, rhs.numer(), rhs.denom(), isize::lowest(), isize::highest())
    }

    open spec fn div_spec(self, rhs: Rational<isize>) -> Rational<isize> {
        Rational::with_parts(reduced_quotient(self.value(), 1, rhs.numer(), rhs.denom()))
    }
}

impl std::ops::Div<Rational<isize>> for isize {
    type Output = Rational<isize>;

    fn div(self, rhs: Rational<isize>) -> Self::Output {
        let r = Rational::from_integer(self).over(rhs);
        proof {
            r.lemma_with_parts();
        }
        r
    }
}

} // verus!

//! The residue type's operators with the primitive integers on the right:
//! the integer is taken as an `i64`, as a cast gives it.

use vstd::prelude::*;
use vstd::std_specs::ops::{AddSpecImpl, SubSpecImpl, MulSpecImpl, DivSpecImpl};
use vstd::std_specs::cmp::PartialEqSpecImpl;
use crate::modulo::{ModInt, mod_inv_spec};

verus! {

impl PartialEqSpecImpl<u8> for ModInt {
    open spec fn obeys_eq_spec() -> bool {
        true
    }

    open spec fn eq_spec(&self, other: &u8) -> bool {
        self.value() == (*other as i64)
    }
}

impl PartialEq<u8> for ModInt {
    fn eq(&self, other: &u8) -> (r: bool) {
        self.is_scalar(*other as i64)
    }
}

impl AddSpecImpl<u8> for ModInt {
    open spec fn obeys_add_spec() -> bool {
        true
    }

    open spec fn add_req(self, other: u8) -> bool {
        true
    }

    open spec fn add_spec(self, other: u8) -> ModInt {
        ModInt::residue(self.value() + (other as i64), self.modulo())
    }
}

impl std::ops::Add<u8> for ModInt {
    type Output = Self;

    fn add(self, other: u8) -> Self {
        self.add_scalar(other as i64)
    }
}

impl std::ops::AddAssign<u8> for ModInt {
    fn add_assign(&mut self, other: u8)
        ensures
            *final(self) == ModInt::residue(old(self).value() + (other as i64), old(self).modulo()),
    {
        *self = self.add_scalar(other as i64);
    }
}

impl SubSpecImpl<u8> for ModInt {
    open spec fn obeys_sub_spec() -> bool {
        true
    }

    open spec fn sub_req(self, other: u8) -> bool {
        true
    }

    open spec fn sub_spec(self, other: u8) -> ModInt {
        ModInt::residue(self.value() - (other as i64), self.modulo())
    }
}

impl std::ops::Sub<u8> for ModInt {
    type Output = Self;

    fn sub(self, other: u8) -> Self {
        self.sub_scalar(other as i64)
    }
}

impl std::ops::SubAssign<u8> for ModInt {
    fn sub_assign(&mut self, other: u8)
        ensures
            *final(self) == ModInt::residue(old(self).value() - (other as i64), old(self).modulo()),
    {
        *self = self.sub_scalar(other as i64);
    }
}

impl MulSpecImpl<u8> for ModInt {
    open spec fn obeys_mul_spec() -> bool {
        true
    }

    open spec fn mul_req(self, other: u8) -> bool {
        true
    }

    open spec fn mul_spec(self, other: u8) -> ModInt {
        ModInt::residue(self.value() * (other as i64), self.modulo())
    }
}

impl std::ops::Mul<u8> for ModInt {
    type Output = Self;

    fn mul(self, other: u8) -> Self {
        self.mul_scalar(other as i64)
    }
}

impl std::ops::MulAssign<u8> for ModInt {
    fn mul_assign(&mut self, other: u8)
        ensures
            *final(self) == ModInt::residue(old(self).value() * (other as i64), old(self).modulo()),
    {
        *self = self.mul_scalar(other as i64);
    }
}

impl DivSpecImpl<u8> for ModInt {
    open spec fn obeys_div_spec() -> bool {
        true
    }

    open spec fn div_req(self, other: u8) -> bool {
        true
    }

    open spec fn div_spec(self, other: u8) -> ModInt {
        ModInt::residue(self.value() * mod_inv_spec((other as i64) as int, self.modulo()), self.modulo())
    }
}

impl std::ops::Div<u8> for ModInt {
    type Output = Self;

    fn div(self, other: u8) -> Self {
        self.div_scalar(other as i64)
    }
}

impl std::ops::DivAssign<u8> for ModInt {
    fn div_assign(&mut self, other: u8)
        ensures
            *final(self) == ModInt::residue(old(self).value() * mod_inv_spec((other as i64) as int, old(self).modulo()), old(self).modulo()),
    {
        *self = self.div_scalar(other as i64);
    }
}

impl PartialEqSpecImpl<i8> for ModInt {
    open spec fn obeys_eq_spec() -> bool {
        true
    }

    open spec fn eq_spec(&self, other: &i8) -> bool {
        self.value() == (*other as i64)
    }
}

impl PartialEq<i8> for ModInt {
    fn eq(&self, other: &i8) -> (r: bool) {
        self.is_scalar(*other as i64)
    }
}

impl AddSpecImpl<i8> for ModInt {
    open spec fn obeys_add_spec() -> bool {
        true
    }

    open spec fn add_req(self, other: i8) -> bool {
        true
    }

    open spec fn add_spec(self, other: i8) -> ModInt {
        ModInt::residue(self.value() + (other as i64), self.modulo())
    }
}

impl std::ops::Add<i8> for ModInt {
    type Output = Self;

    fn add(self, other: i8) -> Self {
        self.add_scalar(other as i64)
    }
}

impl std::ops::AddAssign<i8> for ModInt {
    fn add_assign(&mut self, other: i8)
        ensures
            *final(self) == ModInt::residue(old(self).value() + (other as i64), old(self).modulo()),
    {
        *self = self.add_scalar(other as i64);
    }
}

impl SubSpecImpl<i8> for ModInt {
    open spec fn obeys_sub_spec() -> bool {
        true
    }

    open spec fn sub_req(self, other: i8) -> bool {
        true
    }

    open spec fn sub_spec(self, other: i8) -> ModInt {
        ModInt::residue(self.value() - (other as i64), self.modulo())
    }
}

impl std::ops::Sub<i8> for ModInt {
    type Output = Self;

    fn sub(self, other: i8) -> Self {
        self.sub_scalar(other as i64)
    }
}

impl std::ops::SubAssign<i8> for ModInt {
    fn sub_assign(&mut self, other: i8)
        ensures
            *final(self) == ModInt::residue(old(self).value() - (other as i64), old(self).modulo()),
    {
        *self = self.sub_scalar(other as i64);
    }
}

impl MulSpecImpl<i8> for ModInt {
    open spec fn obeys_mul_spec() -> bool {
        true
    }

    open spec fn mul_req(self, other: i8) -> bool {
        true
    }

    open spec fn mul_spec(self, other: i8) -> ModInt {
        ModInt::residue(self.value() * (other as i64), self.modulo())
    }
}

impl std::ops::Mul<i8> for ModInt {
    type Output = Self;

    fn mul(self, other: i8) -> Self {
        self.mul_scalar(other as i64)
    }
}

impl std::ops::MulAssign<i8> for ModInt {
    fn mul_assign(&mut self, other: i8)
        ensures
            *final(self) == ModInt::residue(old(self).value() * (other as i64), old(self).modulo()),
    {
        *self = self.mul_scalar(other as i64);
    }
}

impl DivSpecImpl<i8> for ModInt {
    open spec fn obeys_div_spec() -> bool {
        true
    }

    open spec fn div_req(self, other: i8) -> bool {
        true
    }

    open spec fn div_spec(self, other: i8) -> ModInt {
        ModInt::residue(self.value() * mod_inv_spec((other as i64) as int, self.modulo()), self.modulo())
    }
}

impl std::ops::Div<i8> for ModInt {
    type Output = Self;

    fn div(self, other: i8) -> Self {
        self.div_scalar(other as i64)
    }
}

impl std::ops::DivAssign<i8> for ModInt {
    fn div_assign(&mut self, other: i8)
        ensures
            *final(self) == ModInt::residue(old(self).value() * mod_inv_spec((other as i64) as int, old(self).modulo()), old(self).modulo()),
    {
        *self = self.div_scalar(other as i64);
    }
}

impl PartialEqSpecImpl<u16> for ModInt {
    open spec fn obeys_eq_spec() -> bool {
        true
    }

    open spec fn eq_spec(&self, other: &u16) -> bool {
        self.value() == (*other as i64)
    }
}

impl PartialEq<u16> for ModInt {
    fn eq(&self, other: &u16) -> (r: bool) {
        self.is_scalar(*other as i64)
    }
}

impl AddSpecImpl<u16> for ModInt {
    open spec fn obeys_add_spec() -> bool {
        true
    }

    open spec fn add_req(self, other: u16) -> bool {
        true
    }

    open spec fn add_spec(self, other: u16) -> ModInt {
        ModInt::residue(self.value() + (other as i64), self.modulo())
    }
}

impl std::ops::Add<u16> for ModInt {
    type Output = Self;

    fn add(self, other: u16) -> Self {
        self.add_scalar(other as i64)
    }
}

impl std::ops::AddAssign<u16> for ModInt {
    fn add_assign(&mut self, other: u16)
        ensures
            *final(self) == ModInt::residue(old(self).value() + (other as i64), old(self).modulo()),
    {
        *self = self.add_scalar(other as i64);
    }
}

impl SubSpecImpl<u16> for ModInt {
    open spec fn obeys_sub_spec() -> bool {
        true
    }

    open spec fn sub_req(self, other: u16) -> bool {
        true
    }

    open spec fn sub_spec(self, other: u16) -> ModInt {
        ModInt::residue(self.value() - (other as i64), self.modulo())
    }
}

impl std::ops::Sub<u16> for ModInt {
    type Output = Self;

    fn sub(self, other: u16) -> Self {
        self.sub_scalar(other as i64)
    }
}

impl std::ops::SubAssign<u16> for ModInt {
    fn sub_assign(&mut self, other: u16)
        ensures
            *final(self) == ModInt::residue(old(self).value() - (other as i64), old(self).modulo()),
    {
        *self = self.sub_scalar(other as i64);
    }
}

impl MulSpecImpl<u16> for ModInt {
    open spec fn obeys_mul_spec() -> bool {
        true
    }

    open spec fn mul_req(self, other: u16) -> bool {
        true
    }

    open spec fn mul_spec(self, other: u16) -> ModInt {
        ModInt::residue(self.value() * (other as i64), self.modulo())
    }
}

impl std::ops::Mul<u16> for ModInt {
    type Output = Self;

    fn mul(self, other: u16) -> Self {
        self.mul_scalar(other as i64)
    }
}

impl std::ops::MulAssign<u16> for ModInt {
    fn mul_assign(&mut self, other: u16)
        ensures
            *final(self) == ModInt::residue(old(self).value() * (other as i64), old(self).modulo()),
    {
        *self = self.mul_scalar(other as i64);
    }
}

impl DivSpecImpl<u16> for ModInt {
    open spec fn obeys_div_spec() -> bool {
        true
    }

    open spec fn div_req(self, other: u16) -> bool {
        true
    }

    open spec fn div_spec(self, other: u16) -> ModInt {
        ModInt::residue(self.value() * mod_inv_spec((other as i64) as int, self.modulo()), self.modulo())
    }
}

impl std::ops::Div<u16> for ModInt {
    type Output = Self;

    fn div(self, other: u16) -> Self {
        self.div_scalar(other as i64)
    }
}

impl std::ops::DivAssign<u16> for ModInt {
    fn div_assign(&mut self, other: u16)
        ensures
            *final(self) == ModInt::residue(old(self).value() * mod_inv_spec((other as i64) as int, old(self).modulo()), old(self).modulo()),
    {
        *self = self.div_scalar(other as i64);
    }
}

impl PartialEqSpecImpl<i16> for ModInt {
    open spec fn obeys_eq_spec() -> bool {
        true
    }

    open spec fn eq_spec(&self, other: &i16) -> bool {
        self.value() == (*other as i64)
    }
}

impl PartialEq<i16> for ModInt {
    fn eq(&self, other: &i16) -> (r: bool) {
        self.is_scalar(*other as i64)
    }
}

impl AddSpecImpl<i16> for ModInt {
    open spec fn obeys_add_spec() -> bool {
        true
    }

    open spec fn add_req(self, other: i16) -> bool {
        true
    }

    open spec fn add_spec(self, other: i16) -> ModInt {
        ModInt::residue(self.value() + (other as i64), self.modulo())
    }
}

impl std::ops::Add<i16> for ModInt {
    type Output = Self;

    fn add(self, other: i16) -> Self {
        self.add_scalar(other as i64)
    }
}

impl std::ops::AddAssign<i16> for ModInt {
    fn add_assign(&mut self, other: i16)
        ensures
            *final(self) == ModInt::residue(old(self).value() + (other as i64), old(self).modulo()),
    {
        *self = self.add_scalar(other as i64);
    }
}

impl SubSpecImpl<i16> for ModInt {
    open spec fn obeys_sub_spec() -> bool {
        true
    }

    open spec fn sub_req(self, other: i16) -> bool {
        true
    }

    open spec fn sub_spec(self, other: i16) -> ModInt {
        ModInt::residue(self.value() - (other as i64), self.modulo())
    }
}

impl std::ops::Sub<i16> for ModInt {
    type Output = Self;

    fn sub(self, other: i16) -> Self {
        self.sub_scalar(other as i64)
    }
}

impl std::ops::SubAssign<i16> for ModInt {
    fn sub_assign(&mut self, other: i16)
        ensures
            *final(self) == ModInt::residue(old(self).value() - (other as i64), old(self).modulo()),
    {
        *self = self.sub_scalar(other as i64);
    }
}

impl MulSpecImpl<i16> for ModInt {
    open spec fn obeys_mul_spec() -> bool {
        true
    }

    open spec fn mul_req(self, other: i16) -> bool {
        true
    }

    open spec fn mul_spec(self, other: i16) -> ModInt {
        ModInt::residue(self.value() * (other as i64), self.modulo())
    }
}

impl std::ops::Mul<i16> for ModInt {
    type Output = Self;

    fn mul(self, other: i16) -> Self {
        self.mul_scalar(other as i64)
    }
}

impl std::ops::MulAssign<i16> for ModInt {
    fn mul_assign(&mut self, other: i16)
        ensures
            *final(self) == ModInt::residue(old(self).value() * (other as i64), old(self).modulo()),
    {
        *self = self.mul_scalar(other as i64);
    }
}

impl DivSpecImpl<i16> for ModInt {
    open spec fn obeys_div_spec() -> bool {
        true
    }

    open spec fn div_req(self, other: i16) -> bool {
        true
    }

    open spec fn div_spec(self, other: i16) -> ModInt {
        ModInt::residue(self.value() * mod_inv_spec((other as i64) as int, self.modulo()), self.modulo())
    }
}

impl std::ops::Div<i16> for ModInt {
    type Output = Self;

    fn div(self, other: i16) -> Self {
        self.div_scalar(other as i64)
    }
}

impl std::ops::DivAssign<i16> for ModInt {
    fn div_assign(&mut self, other: i16)
        ensures
            *final(self) == ModInt::residue(old(self).value() * mod_inv_spec((other as i64) as int, old(self).modulo()), old(self).modulo()),
    {
        *self = self.div_scalar(other as i64);
    }
}

impl PartialEqSpecImpl<u32> for ModInt {
    open spec fn obeys_eq_spec() -> bool {
        true
    }

    open spec fn eq_spec(&self, other: &u32) -> bool {
        self.value() == (*other as i64)
    }
}

impl PartialEq<u32> for ModInt {
    fn eq(&self, other: &u32) -> (r: bool) {
        self.is_scalar(*other as i64)
    }
}

impl AddSpecImpl<u32> for ModInt {
    open spec fn obeys_add_spec() -> bool {
        true
    }

    open spec fn add_req(self, other: u32) -> bool {
        true
    }

    open spec fn add_spec(self, other: u32) -> ModInt {
        ModInt::residue(self.value() + (other as i64), self.modulo())
    }
}

impl std::ops::Add<u32> for ModInt {
    type Output = Self;

    fn add(self, other: u32) -> Self {
        self.add_scalar(other as i64)
    }
}

impl std::ops::AddAssign<u32> for ModInt {
    fn add_assign(&mut self, other: u32)
        ensures
            *final(self) == ModInt::residue(old(self).value() + (other as i64), old(self).modulo()),
    {
        *self = self.add_scalar(other as i64);
    }
}

impl SubSpecImpl<u32> for ModInt {
    open spec fn obeys_sub_spec() -> bool {
        true
    }

    open spec fn sub_req(self, other: u32) -> bool {
        true
    }

    open spec fn sub_spec(self, other: u32) -> ModInt {
        ModInt::residue(self.value() - (other as i64), self.modulo())
    }
}

impl std::ops::Sub<u32> for ModInt {
    type Output = Self;

    fn sub(self, other: u32) -> Self {
        self.sub_scalar(other as i64)
    }
}

impl std::ops::SubAssign<u32> for ModInt {
    fn sub_assign(&mut self, other: u32)
        ensures
            *final(self) == ModInt::residue(old(self).value() - (other as i64), old(self).modulo()),
    {
        *self = self.sub_scalar(other as i64);
    }
}

impl MulSpecImpl<u32> for ModInt {
    open spec fn obeys_mul_spec() -> bool {
        true
    }

    open spec fn mul_req(self, other: u32) -> bool {
        true
    }

    open spec fn mul_spec(self, other: u32) -> ModInt {
        ModInt::residue(self.value() * (other as i64), self.modulo())
    }
}

impl std::ops::Mul<u32> for ModInt {
    type Output = Self;

    fn mul(self, other: u32) -> Self {
        self.mul_scalar(other as i64)
    }
}

impl std::ops::MulAssign<u32> for ModInt {
    fn mul_assign(&mut self, other: u32)
        ensures
            *final(self) == ModInt::residue(old(self).value() * (other as i64), old(self).modulo()),
    {
        *self = self.mul_scalar(other as i64);
    }
}

impl DivSpecImpl<u32> for ModInt {
    open spec fn obeys_div_spec() -> bool {
        true
    }

    open spec fn div_req(self, other: u32) -> bool {
        true
    }

    open spec fn div_spec(self, other: u32) -> ModInt {
        ModInt::residue(self.value() * mod_inv_spec((other as i64) as int, self.modulo()), self.modulo())
    }
}

impl std::ops::Div<u32> for ModInt {
    type Output = Self;

    fn div(self, other: u32) -> Self {
        self.div_scalar(other as i64)
    }
}

impl std::ops::DivAssign<u32> for ModInt {
    fn div_assign(&mut self, other: u32)
        ensures
            *final(self) == ModInt::residue(old(self).value() * mod_inv_spec((other as i64) as int, old(self).modulo()), old(self).modulo()),
    {
        *self = self.div_scalar(other as i64);
    }
}

impl PartialEqSpecImpl<i32> for ModInt {
    open spec fn obeys_eq_spec() -> bool {
        true
    }

    open spec fn eq_spec(&self, other: &i32) -> bool {
        self.value() == (*other as i64)
    }
}

impl PartialEq<i32> for ModInt {
    fn eq(&self, other: &i32) -> (r: bool) {
        self.is_scalar(*other as i64)
    }
}

impl AddSpecImpl<i32> for ModInt {
    open spec fn obeys_add_spec() -> bool {
        true
    }

    open spec fn add_req(self, other: i32) -> bool {
        true
    }

    open spec fn add_spec(self, other: i32) -> ModInt {
        ModInt::residue(self.value() + (other as i64), self.modulo())
    }
}

impl std::ops::Add<i32> for ModInt {
    type Output = Self;

    fn add(self, other: i32) -> Self {
        self.add_scalar(other as i64)
    }
}

impl std::ops::AddAssign<i32> for ModInt {
    fn add_assign(&mut self, other: i32)
        ensures
            *final(self) == ModInt::residue(old(self).value() + (other as i64), old(self).modulo()),
    {
        *self = self.add_scalar(other as i64);
    }
}

impl SubSpecImpl<i32> for ModInt {
    open spec fn obeys_sub_spec() -> bool {
        true
    }

    open spec fn sub_req(self, other: i32) -> bool {
        true
    }

    open spec fn sub_spec(self, other: i32) -> ModInt {
        ModInt::residue(self.value() - (other as i64), self.modulo())
    }
}

impl std::ops::Sub<i32> for ModInt {
    type Output = Self;

    fn sub(self, other: i32) -> Self {
        self.sub_scalar(other as i64)
    }
}

impl std::ops::SubAssign<i32> for ModInt {
    fn sub_assign(&mut self, other: i32)
        ensures
            *final(self) == ModInt::residue(old(self).value() - (other as i64), old(self).modulo()),
    {
        *self = self.sub_scalar(other as i64);
    }
}

impl MulSpecImpl<i32> for ModInt {
    open spec fn obeys_mul_spec() -> bool {
        true
    }

    open spec fn mul_req(self, other: i32) -> bool {
        true
    }

    open spec fn mul_spec(self, other: i32) -> ModInt {
        ModInt::residue(self.value() * (other as i64), self.modulo())
    }
}

impl std::ops::Mul<i32> for ModInt {
    type Output = Self;

    fn mul(self, other: i32) -> Self {
        self.mul_scalar(other as i64)
    }
}

impl std::ops::MulAssign<i32> for ModInt {
    fn mul_assign(&mut self, other: i32)
        ensures
            *final(self) == ModInt::residue(old(self).value() * (other as i64), old(self).modulo()),
    {
        *self = self.mul_scalar(other as i64);
    }
}

impl DivSpecImpl<i32> for ModInt {
    open spec fn obeys_div_spec() -> bool {
        true
    }

    open spec fn div_req(self, other: i32) -> bool {
        true
    }

    open spec fn div_spec(self, other: i32) -> ModInt {
        ModInt::residue(self.value() * mod_inv_spec((other as i64) as int, self.modulo()), self.modulo())
    }
}

impl std::ops::Div<i32> for ModInt {
    type Output = Self;

    fn div(self, other: i32) -> Self {
        self.div_scalar(other as i64)
    }
}

impl std::ops::DivAssign<i32> for ModInt {
    fn div_assign(&mut self, other: i32)
        ensures
            *final(self) == ModInt::residue(old(self).value() * mod_inv_spec((other as i64) as int, old(self).modulo()), old(self).modulo()),
    {
        *self = self.div_scalar(other as i64);
    }
}

impl PartialEqSpecImpl<u64> for ModInt {
    open spec fn obeys_eq_spec() -> bool {
        true
    }

    open spec fn eq_spec(&self, other: &u64) -> bool {
        self.value() == (*other as i64)
    }
}

impl PartialEq<u64> for ModInt {
    fn eq(&self, other: &u64) -> (r: bool) {
        self.is_scalar(#[verifier::truncate] (*other as i64))
    }
}

impl AddSpecImpl<u64> for ModInt {
    open spec fn obeys_add_spec() -> bool {
        true
    }

    open spec fn add_req(self, other: u64) -> bool {
        true
    }

    open spec fn add_spec(self, other: u64) -> ModInt {
        ModInt::residue(self.value() + (other as i64), self.modulo())
    }
}

impl std::ops::Add<u64> for ModInt {
    type Output = Self;

    fn add(self, other: u64) -> Self {
        self.add_scalar(#[verifier::truncate] (other as i64))
    }
}

impl std::ops::AddAssign<u64> for ModInt {
    fn add_assign(&mut self, other: u64)
        ensures
            *final(self) == ModInt::residue(old(self).value() + (other as i64), old(self).modulo()),
    {
        *self = self.add_scalar(#[verifier::truncate] (other as i64));
    }
}

impl SubSpecImpl<u64> for ModInt {
    open spec fn obeys_sub_spec() -> bool {
        true
    }

    open spec fn sub_req(self, other: u64) -> bool {
        true
    }

    open spec fn sub_spec(self, other: u64) -> ModInt {
        ModInt::residue(self.value() - (other as i64), self.modulo())
    }
}

impl std::ops::Sub<u64> for ModInt {
    type Output = Self;

    fn sub(self, other: u64) -> Self {
        self.sub_scalar(#[verifier::truncate] (other as i64))
    }
}

impl std::ops::SubAssign<u64> for ModInt {
    fn sub_assign(&mut self, other: u64)
        ensures
            *final(self) == ModInt::residue(old(self).value() - (other as i64), old(self).modulo()),
    {
        *self = self.sub_scalar(#[verifier::truncate] (other as i64));
    }
}

impl MulSpecImpl<u64> for ModInt {
    open spec fn obeys_mul_spec() -> bool {
        true
    }

    open spec fn mul_req(self, other: u64) -> bool {
        true
    }

    open spec fn mul_spec(self, other: u64) -> ModInt {
        ModInt::residue(self.value() * (other as i64), self.modulo())
    }
}

impl std::ops::Mul<u64> for ModInt {
    type Output = Self;

    fn mul(self, other: u64) -> Self {
        self.mul_scalar(#[verifier::truncate] (other as i64))
    }
}

impl std::ops::MulAssign<u64> for ModInt {
    fn mul_assign(&mut self, other: u64)
        ensures
            *final(self) == ModInt::residue(old(self).value() * (other as i64), old(self).modulo()),
    {
        *self = self.mul_scalar(#[verifier::truncate] (other as i64));
    }
}

impl DivSpecImpl<u64> for ModInt {
    open spec fn obeys_div_spec() -> bool {
        true
    }

    open spec fn div_req(self, other: u64) -> bool {
        true
    }

    open spec fn div_spec(self, other: u64) -> ModInt {
        ModInt::residue(self.value() * mod_inv_spec((other as i64) as int, self.modulo()), self.modulo())
    }
}

impl std::ops::Div<u64> for ModInt {
    type Output = Self;

    fn div(self, other: u64) -> Self {
        self.div_scalar(#[verifier::truncate] (other as i64))
    }
}

impl std::ops::DivAssign<u64> for ModInt {
    fn div_assign(&mut self, other: u64)
        ensures
            *final(self) == ModInt::residue(old(self).value() * mod_inv_spec((other as i64) as int, old(self).modulo()), old(self).modulo()),
    {
        *self = self.div_scalar(#[verifier::truncate] (other as i64));
    }
}

impl PartialEqSpecImpl<i64> for ModInt {
    open spec fn obeys_eq_spec() -> bool {
        true
    }

    open spec fn eq_spec(&self, other: &i64) -> bool {
        self.value() == (*other as i64)
    }
}

impl PartialEq<i64> for ModInt {
    fn eq(&self, other: &i64) -> (r: bool) {
        self.is_scalar(*other as i64)
    }
}

impl AddSpecImpl<i64> for ModInt {
    open spec fn obeys_add_spec() -> bool {
        true
    }

    open spec fn add_req(self, other: i64) -> bool {
        true
    }

    open spec fn add_spec(self, other: i64) -> ModInt {
        ModInt::residue(self.value() + (other as i64), self.modulo())
    }
}

impl std::ops::Add<i64> for ModInt {
    type Output = Self;

    fn add(self, other: i64) -> Self {
        self.add_scalar(other as i64)
    }
}

impl std::ops::AddAssign<i64> for ModInt {
    fn add_assign(&mut self, other: i64)
        ensures
            *final(self) == ModInt::residue(old(self).value() + (other as i64), old(self).modulo()),
    {
        *self = self.add_scalar(other as i64);
    }
}

impl SubSpecImpl<i64> for ModInt {
    open spec fn obeys_sub_spec() -> bool {
        true
    }

    open spec fn sub_req(self, other: i64) -> bool {
        true
    }

    open spec fn sub_spec(self, other: i64) -> ModInt {
        ModInt::residue(self.value() - (other as i64), self.modulo())
    }
}

impl std::ops::Sub<i64> for ModInt {
    type Output = Self;

    fn sub(self, other: i64) -> Self {
        self.sub_scalar(other as i64)
    }
}

impl std::ops::SubAssign<i64> for ModInt {
    fn sub_assign(&mut self, other: i64)
        ensures
            *final(self) == ModInt::residue(old(self).value() - (other as i64), old(self).modulo()),
    {
        *self = self.sub_scalar(other as i64);
    }
}

impl MulSpecImpl<i64> for ModInt {
    open spec fn obeys_mul_spec() -> bool {
        true
    }

    open spec fn mul_req(self, other: i64) -> bool {
        true
    }

    open spec fn mul_spec(self, other: i64) -> ModInt {
        ModInt::residue(self.value() * (other as i64), self.modulo())
    }
}

impl std::ops::Mul<i64> for ModInt {
    type Output = Self;

    fn mul(self, other: i64) -> Self {
        self.mul_scalar(other as i64)
    }
}

impl std::ops::MulAssign<i64> for ModInt {
    fn mul_assign(&mut self, other: i64)
        ensures
            *final(self) == ModInt::residue(old(self).value() * (other as i64), old(self).modulo()),
    {
        *self = self.mul_scalar(other as i64);
    }
}

impl DivSpecImpl<i64> for ModInt {
    open spec fn obeys_div_spec() -> bool {
        true
    }

    open spec fn div_req(self, other: i64) -> bool {
        true
    }

    open spec fn div_spec(self, other: i64) -> ModInt {
        ModInt::residue(self.value() * mod_inv_spec((other as i64) as int, self.modulo()), self.modulo())
    }
}

impl std::ops::Div<i64> for ModInt {
    type Output = Self;

    fn div(self, other: i64) -> Self {
        self.div_scalar(other as i64)
    }
}

impl std::ops::DivAssign<i64> for ModInt {
    fn div_assign(&mut self, other: i64)
        ensures
            *final(self) == ModInt::residue(old(self).value() * mod_inv_spec((other as i64) as int, old(self).modulo()), old(self).modulo()),
    {
        *self = self.div_scalar(other as i64);
    }
}

impl PartialEqSpecImpl<usize> for ModInt {
    open spec fn obeys_eq_spec() -> bool {
        true
    }

    open spec fn eq_spec(&self, other: &usize) -> bool {
        self.value() == (*other as i64)
    }
}

impl PartialEq<usize> for ModInt {
    fn eq(&self, other: &usize) -> (r: bool) {
        self.is_scalar(#[verifier::truncate] (*other as i64))
    }
}

impl AddSpecImpl<usize> for ModInt {
    open spec fn obeys_add_spec() -> bool {
        true
    }

    open spec fn add_req(self, other: usize) -> bool {
        true
    }

    open spec fn add_spec(self, other: usize) -> ModInt {
        ModInt::residue(self.value() + (other as i64), self.modulo())
    }
}

impl std::ops::Add<usize> for ModInt {
    type Output = Self;

    fn add(self, other: usize) -> Self {
        self.add_scalar(#[verifier::truncate] (other as i64))
    }
}

impl std::ops::AddAssign<usize> for ModInt {
    fn add_assign(&mut self, other: usize)
        ensures
            *final(self) == ModInt::residue(old(self).value() + (other as i64), old(self).modulo()),
    {
        *self = self.add_scalar(#[verifier::truncate] (other as i64));
    }
}

impl SubSpecImpl<usize> for ModInt {
    open spec fn obeys_sub_spec() -> bool {
        true
    }

    open spec fn sub_req(self, other: usize) -> bool {
        true
    }

    open spec fn sub_spec(self, other: usize) -> ModInt {
        ModInt::residue(self.value() - (other as i64), self.modulo())
    }
}

impl std::ops::Sub<usize> for ModInt {
    type Output = Self;

    fn sub(self, other: usize) -> Self {
        self.sub_scalar(#[verifier::truncate] (other as i64))
    }
}

impl std::ops::SubAssign<usize> for ModInt {
    fn sub_assign(&mut self, other: usize)
        ensures
            *final(self) == ModInt::residue(old(self).value() - (other as i64), old(self).modulo()),
    {
        *self = self.sub_scalar(#[verifier::truncate] (other as i64));
    }
}

impl MulSpecImpl<usize> for ModInt {
    open spec fn obeys_mul_spec() -> bool {
        true
    }

    open spec fn mul_req(self, other: usize) -> bool {
        true
    }

    open spec fn mul_spec(self, other: usize) -> ModInt {
        ModInt::residue(self.value() * (other as i64), self.modulo())
    }
}

impl std::ops::Mul<usize> for ModInt {
    type Output = Self;

    fn mul(self, other: usize) -> Self {
        self.mul_scalar(#[verifier::truncate] (other as i64))
    }
}

impl std::ops::MulAssign<usize> for ModInt {
    fn mul_assign(&mut self, other: usize)
        ensures
            *final(self) == ModInt::residue(old(self).value() * (other as i64), old(self).modulo()),
    {
        *self = self.mul_scalar(#[verifier::truncate] (other as i64));
    }
}

impl DivSpecImpl<usize> for ModInt {
    open spec fn obeys_div_spec() -> bool {
        true
    }

    open spec fn div_req(self, other: usize) -> bool {
        true
    }

    open spec fn div_spec(self, other: usize) -> ModInt {
        ModInt::residue(self.value() * mod_inv_spec((other as i64) as int, self.modulo()), self.modulo())
    }
}

impl std::ops::Div<usize> for ModInt {
    type Output = Self;

    fn div(self, other: usize) -> Self {
        self.div_scalar(#[verifier::truncate] (other as i64))
    }
}

impl std::ops::DivAssign<usize> for ModInt {
    fn div_assign(&mut self, other: usize)
        ensures
            *final(self) == ModInt::residue(old(self).value() * mod_inv_spec((other as i64) as int, old(self).modulo()), old(self).modulo()),
    {
        *self = self.div_scalar(#[verifier::truncate] (other as i64));
    }
}

impl PartialEqSpecImpl<isize> for ModInt {
    open spec fn obeys_eq_spec() -> bool {
        true
    }

    open spec fn eq_spec(&self, other: &isize) -> bool {
        self.value() == (*other as i64)
    }
}

impl PartialEq<isize> for ModInt {
    fn eq(&self, other: &isize) -> (r: bool) {
        self.is_scalar(*other as i64)
    }
}

impl AddSpecImpl<isize> for ModInt {
    open spec fn obeys_add_spec() -> bool {
        true
    }

    open spec fn add_req(self, other: isize) -> bool {
        true
    }

    open spec fn add_spec(self, other: isize) -> ModInt {
        ModInt::residue(self.value() + (other as i64), self.modulo())
    }
}

impl std::ops::Add<isize> for ModInt {
    type Output = Self;

    fn add(self, other: isize) -> Self {
        self.add_scalar(other as i64)
    }
}

impl std::ops::AddAssign<isize> for ModInt {
    fn add_assign(&mut self, other: isize)
        ensures
            *final(self) == ModInt::residue(old(self).value() + (other as i64), old(self).modulo()),
    {
        *self = self.add_scalar(other as i64);
    }
}

impl SubSpecImpl<isize> for ModInt {
    open spec fn obeys_sub_spec() -> bool {
        true
    }

    open spec fn sub_req(self, other: isize) -> bool {
        true
    }

    open spec fn sub_spec(self, other: isize) -> ModInt {
        ModInt::residue(self.value() - (other as i64), self.modulo())
    }
}

impl std::ops::Sub<isize> for ModInt {
    type Output = Self;

    fn sub(self, other: isize) -> Self {
        self.sub_scalar(other as i64)
    }
}

impl std::ops::SubAssign<isize> for ModInt {
    fn sub_assign(&mut self, other: isize)
        ensures
            *final(self) == ModInt::residue(old(self).value() - (other as i64), old(self).modulo()),
    {
        *self = self.sub_scalar(other as i64);
    }
}

impl MulSpecImpl<isize> for ModInt {
    open spec fn obeys_mul_spec() -> bool {
        true
    }

    open spec fn mul_req(self, other: isize) -> bool {
        true
    }

    open spec fn mul_spec(self, other: isize) -> ModInt {
        ModInt::residue(self.value() * (other as i64), self.modulo())
    }
}

impl std::ops::Mul<isize> for ModInt {
    type Output = Self;

    fn mul(self, other: isize) -> Self {
        self.mul_scalar(other as i64)
    }
}

impl std::ops::MulAssign<isize> for ModInt {
    fn mul_assign(&mut self, other: isize)
        ensures
            *final(self) == ModInt::residue(old(self).value() * (other as i64), old(self).modulo()),
    {
        *self = self.mul_scalar(other as i64);
    }
}

impl DivSpecImpl<isize> for ModInt {
    open spec fn obeys_div_spec() -> bool {
        true
    }

    open spec fn div_req(self, other: isize) -> bool {
        true
    }

    open spec fn div_spec(self, other: isize) -> ModInt {
        ModInt::residue(self.value() * mod_inv_spec((other as i64) as int, self.modulo()), self.modulo())
    }
}

impl std::ops::Div<isize> for ModInt {
    type Output = Self;

    fn div(self, other: isize) -> Self {
        self.div_scalar(other as i64)
    }
}

impl std::ops::DivAssign<isize> for ModInt {
    fn div_assign(&mut self, other: isize)
        ensures
            *final(self) == ModInt::residue(old(self).value() * mod_inv_spec((other as i64) as int, old(self).modulo()), old(self).modulo()),
    {
        *self = self.div_scalar(other as i64);
    }
}

} // verus!

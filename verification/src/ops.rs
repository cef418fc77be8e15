//! Assigning and exponentiation operator traits.
//!
//! These traits complete std's operator family with the forms it lacks:
//! assignment into the right-hand operand (`AddFrom`), assignment into a
//! separate output operand (`AssignAdd`), in-place unary operations, and
//! exponentiation. The number types of this crate implement every total
//! operation; the fallible ones (division, remainder, inversion) return
//! their `Result` through the inherent methods instead.

use vstd::prelude::*;
use crate::Error;
use crate::integer::Integer;
use crate::rational::Rational;

verus! {

/// Assign to self. Not meant for expensive conversion.
pub trait Assign<T = Self> {
    fn assign(&mut self, other: T);
}

/// Inverse as a unary operation.
pub trait Inv {
    type Output;

    fn inv(self) -> Self::Output;
}

/// Inverse with assignment.
pub trait InvAssign {
    fn inv_assign(&mut self);
}

/// Inverse with assignment into a separate argument.
pub trait AssignInv<Arg = Self> {
    fn assign_inv(&mut self, arg: Arg);
}

/// Negation with assignment.
pub trait NegAssign {
    fn neg_assign(&mut self);
}

/// Negation with assignment into a separate argument.
pub trait AssignNeg<Arg = Self> {
    fn assign_neg(&mut self, arg: Arg);
}

/// Complement with assignment.
pub trait NotAssign {
    fn not_assign(&mut self);
}

/// Complement with assignment into a separate argument.
pub trait AssignNot<Arg = Self> {
    fn assign_not(&mut self, arg: Arg);
}

/// Bitwise `and` with assignment to the rhs operand.
pub trait BitAndFrom<Lhs = Self> {
    fn bitand_from(&mut self, lhs: Lhs);
}

/// Bitwise `and` with assignment into a separate argument.
pub trait AssignBitAnd<Lhs = Self, Rhs = Self> {
    fn assign_bitand(&mut self, lhs: Lhs, rhs: Rhs);
}

/// Bitwise `or` with assignment to the rhs operand.
pub trait BitOrFrom<Lhs = Self> {
    fn bitor_from(&mut self, lhs: Lhs);
}

/// Bitwise `or` with assignment into a separate argument.
pub trait AssignBitOr<Lhs = Self, Rhs = Self> {
    fn assign_bitor(&mut self, lhs: Lhs, rhs: Rhs);
}

/// Bitwise `xor` with assignment to the rhs operand.
pub trait BitXorFrom<Lhs = Self> {
    fn bitxor_from(&mut self, lhs: Lhs);
}

/// Bitwise `xor` with assignment into a separate argument.
pub trait AssignBitXor<Lhs = Self, Rhs = Self> {
    fn assign_bitxor(&mut self, lhs: Lhs, rhs: Rhs);
}

/// Addition with assignment to the rhs operand.
pub trait AddFrom<Lhs = Self> {
    fn add_from(&mut self, lhs: Lhs);
}

/// Addition with assignment into a separate argument.
pub trait AssignAdd<Lhs = Self, Rhs = Self> {
    fn assign_add(&mut self, lhs: Lhs, rhs: Rhs);
}

/// Subtraction with assignment to the rhs operand.
pub trait SubFrom<Lhs = Self> {
    fn sub_from(&mut self, lhs: Lhs);
}

/// Subtraction with assignment into a separate argument.
pub trait AssignSub<Lhs = Self, Rhs = Self> {
    fn assign_sub(&mut self, lhs: Lhs, rhs: Rhs);
}

/// Multiplication with assignment to the rhs operand.
pub trait MulFrom<Lhs = Self> {
    fn mul_from(&mut self, lhs: Lhs);
}

/// Multiplication with assignment into a separate argument.
pub trait AssignMul<Lhs = Self, Rhs = Self> {
    fn assign_mul(&mut self, lhs: Lhs, rhs: Rhs);
}

/// Division with assignment to the rhs operand.
pub trait DivFrom<Lhs = Self> {
    fn div_from(&mut self, lhs: Lhs);
}

/// Division with assignment into a separate argument.
pub trait AssignDiv<Lhs = Self, Rhs = Self> {
    fn assign_div(&mut self, lhs: Lhs, rhs: Rhs);
}

/// Remainder with assignment to the rhs operand.
pub trait RemFrom<Lhs = Self> {
    fn rem_from(&mut self, lhs: Lhs);
}

/// Remainder with assignment into a separate argument.
pub trait AssignRem<Lhs = Self, Rhs = Self> {
    fn assign_rem(&mut self, lhs: Lhs, rhs: Rhs);
}

/// Exponentiation.
pub trait Pow<Rhs = Self> {
    type Output;

    fn pow(self, rhs: Rhs) -> Self::Output;
}

/// Exponentiation with assignment.
pub trait PowAssign<Rhs = Self> {
    fn pow_assign(&mut self, rhs: Rhs);
}

/// Exponentiation with assignment to the rhs operand.
pub trait PowFrom<Lhs = Self> {
    fn pow_from(&mut self, lhs: Lhs);
}

/// Exponentiation with assignment into a separate argument.
pub trait AssignPow<Lhs = Self, Rhs = Self> {
    fn assign_pow(&mut self, lhs: Lhs, rhs: Rhs);
}

impl Assign for Integer {
    fn assign(&mut self, other: Integer) {
        self.replace_with(other);
    }
}

impl NegAssign for Integer {
    fn neg_assign(&mut self) {
        let r = self.negated();
        self.replace_with(r);
    }
}

impl AssignNeg<&Integer> for Integer {
    fn assign_neg(&mut self, arg: &Integer) {
        let r = arg.negated();
        self.replace_with(r);
    }
}

impl NotAssign for Integer {
    fn not_assign(&mut self) {
        let r = self.complement();
        self.replace_with(r);
    }
}

impl AssignNot<&Integer> for Integer {
    fn assign_not(&mut self, arg: &Integer) {
        let r = arg.complement();
        self.replace_with(r);
    }
}

impl AddFrom<&Integer> for Integer {
    fn add_from(&mut self, lhs: &Integer) {
        let r = lhs.add(self);
        self.replace_with(r);
    }
}

impl AssignAdd<&Integer, &Integer> for Integer {
    fn assign_add(&mut self, lhs: &Integer, rhs: &Integer) {
        let r = lhs.add(rhs);
        self.replace_with(r);
    }
}

impl SubFrom<&Integer> for Integer {
    fn sub_from(&mut self, lhs: &Integer) {
        let r = lhs.sub(self);
        self.replace_with(r);
    }
}

impl AssignSub<&Integer, &Integer> for Integer {
    fn assign_sub(&mut self, lhs: &Integer, rhs: &Integer) {
        let r = lhs.sub(rhs);
        self.replace_with(r);
    }
}

impl MulFrom<&Integer> for Integer {
    fn mul_from(&mut self, lhs: &Integer) {
        let r = lhs.mul(self);
        self.replace_with(r);
    }
}

impl AssignMul<&Integer, &Integer> for Integer {
    fn assign_mul(&mut self, lhs: &Integer, rhs: &Integer) {
        let r = lhs.mul(rhs);
        self.replace_with(r);
    }
}

impl BitAndFrom<&Integer> for Integer {
    fn bitand_from(&mut self, lhs: &Integer) {
        let r = lhs.bit_and(self);
        self.replace_with(r);
    }
}

impl AssignBitAnd<&Integer, &Integer> for Integer {
    fn assign_bitand(&mut self, lhs: &Integer, rhs: &Integer) {
        let r = lhs.bit_and(rhs);
        self.replace_with(r);
    }
}

impl BitOrFrom<&Integer> for Integer {
    fn bitor_from(&mut self, lhs: &Integer) {
        let r = lhs.bit_or(self);
        self.replace_with(r);
    }
}

impl AssignBitOr<&Integer, &Integer> for Integer {
    fn assign_bitor(&mut self, lhs: &Integer, rhs: &Integer) {
        let r = lhs.bit_or(rhs);
        self.replace_with(r);
    }
}

impl BitXorFrom<&Integer> for Integer {
    fn bitxor_from(&mut self, lhs: &Integer) {
        let r = lhs.bit_xor(self);
        self.replace_with(r);
    }
}

impl AssignBitXor<&Integer, &Integer> for Integer {
    fn assign_bitxor(&mut self, lhs: &Integer, rhs: &Integer) {
        let r = lhs.bit_xor(rhs);
        self.replace_with(r);
    }
}

impl Pow<u64> for &Integer {
    type Output = Integer;

    fn pow(self, rhs: u64) -> Integer {
        Integer::pow(self, rhs)
    }
}

impl Pow<i64> for &Integer {
    type Output = Result<Integer, Error>;

    fn pow(self, rhs: i64) -> Result<Integer, Error> {
        self.checked_pow(rhs)
    }
}

impl PowAssign<u64> for Integer {
    fn pow_assign(&mut self, rhs: u64) {
        let r = Integer::pow(self, rhs);
        self.replace_with(r);
    }
}

impl AssignPow<&Integer, u64> for Integer {
    fn assign_pow(&mut self, lhs: &Integer, rhs: u64) {
        let r = Integer::pow(lhs, rhs);
        self.replace_with(r);
    }
}

impl Assign for Rational {
    fn assign(&mut self, other: Rational) {
        self.replace_with(other);
    }
}

impl NegAssign for Rational {
    fn neg_assign(&mut self) {
        let r = self.negated();
        self.replace_with(r);
    }
}

impl AssignNeg<&Rational> for Rational {
    fn assign_neg(&mut self, arg: &Rational) {
        let r = arg.negated();
        self.replace_with(r);
    }
}

impl Inv for &Rational {
    type Output = Result<Rational, Error>;

    fn inv(self) -> Result<Rational, Error> {
        self.inverse()
    }
}

impl AddFrom<&Rational> for Rational {
    fn add_from(&mut self, lhs: &Rational) {
        let r = lhs.add(self);
        self.replace_with(r);
    }
}

impl AssignAdd<&Rational, &Rational> for Rational {
    fn assign_add(&mut self, lhs: &Rational, rhs: &Rational) {
        let r = lhs.add(rhs);
        self.replace_with(r);
    }
}

impl SubFrom<&Rational> for Rational {
    fn sub_from(&mut self, lhs: &Rational) {
        let r = lhs.sub(self);
        self.replace_with(r);
    }
}

impl AssignSub<&Rational, &Rational> for Rational {
    fn assign_sub(&mut self, lhs: &Rational, rhs: &Rational) {
        let r = lhs.sub(rhs);
        self.replace_with(r);
    }
}

impl MulFrom<&Rational> for Rational {
    fn mul_from(&mut self, lhs: &Rational) {
        let r = lhs.mul(self);
        self.replace_with(r);
    }
}

impl AssignMul<&Rational, &Rational> for Rational {
    fn assign_mul(&mut self, lhs: &Rational, rhs: &Rational) {
        let r = lhs.mul(rhs);
        self.replace_with(r);
    }
}

} // verus!

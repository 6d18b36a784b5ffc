//! The integer types a range can hold.

use vstd::prelude::*;

verus! {

/// An integer as a sign and a magnitude: wide enough for every value of
/// every machine integer type. Zero may carry either sign.
#[derive(Debug)]
pub struct Wide {
    /// Whether the integer lies below zero, if it is not zero.
    pub negative: bool,
    /// How far the integer lies from zero.
    pub magnitude: u128,
}

impl Clone for Wide {
    fn clone(&self) -> (copy: Self)
        ensures
            copy == *self,
    {
        *self
    }
}

impl Copy for Wide {

}

impl View for Wide {
    type V = int;

    open spec fn view(&self) -> int {
        if self.negative {
            -(self.magnitude as int)
        } else {
            self.magnitude as int
        }
    }
}

impl Wide {
    /// Whether the integer is below zero.
    pub fn is_negative(&self) -> (b: bool)
        ensures
            b == (self@ < 0),
    {
        self.negative && self.magnitude > 0
    }

    /// Whether the integer is above zero.
    pub fn is_positive(&self) -> (b: bool)
        ensures
            b == (self@ > 0),
    {
        !self.negative && self.magnitude > 0
    }

    /// Whether the integer is 1.
    pub fn is_one(&self) -> (b: bool)
        ensures
            b == (self@ == 1),
    {
        !self.negative && self.magnitude == 1
    }

    /// Whether the integer is at most `other`.
    pub fn le(&self, other: &Wide) -> (b: bool)
        ensures
            b == (self@ <= other@),
    {
        if self.is_negative() {
            !other.is_negative() || self.magnitude >= other.magnitude
        } else {
            !other.is_negative() && self.magnitude <= other.magnitude
        }
    }

    /// The sum of the two integers, unless its magnitude is beyond `u128`.
    pub fn sum(&self, other: &Wide) -> (r: Option<Wide>)
        ensures
            r matches Some(w) ==> w@ == self@ + other@,
            r is None ==> self@ + other@ > u128::MAX || self@ + other@ < -(u128::MAX as int),
    {
        if self.negative == other.negative {
            match self.magnitude.checked_add(other.magnitude) {
                Some(magnitude) => Some(Wide { negative: self.negative, magnitude }),
                None => None,
            }
        } else if self.magnitude >= other.magnitude {
            Some(Wide { negative: self.negative, magnitude: self.magnitude - other.magnitude })
        } else {
            Some(Wide { negative: other.negative, magnitude: other.magnitude - self.magnitude })
        }
    }
}

/// A machine integer type.
///
/// The contracts of this crate speak of a value through `as_int`. The
/// executable code compares, adds, reads and writes values as `Wide`
/// integers, in which no value of any machine integer type is out of reach.
pub trait Numeric: Copy {
    /// The smallest value of the type.
    spec fn lower() -> int;

    /// The largest value of the type.
    spec fn upper() -> int;

    /// The mathematical integer that `self` stands for.
    spec fn as_int(self) -> int;

    /// The type holds 0 and 1, and no magnitude beyond `u128`.
    proof fn lemma_limits()
        ensures
            -(u128::MAX as int) <= Self::lower() <= 0,
            1 <= Self::upper() <= u128::MAX,
    ;

    /// Every value lies between `lower()` and `upper()`.
    proof fn lemma_bounded(self)
        ensures
            Self::lower() <= self.as_int() <= Self::upper(),
    ;

    /// Two values that stand for the same integer are the same value.
    proof fn lemma_injective(self, other: Self)
        requires
            self.as_int() == other.as_int(),
        ensures
            self == other,
    ;

    /// The value as a wide integer.
    fn to_wide(self) -> (w: Wide)
        ensures
            w@ == self.as_int(),
    ;

    /// The value of the type that stands for `w`, if there is one.
    fn from_wide(w: Wide) -> (r: Option<Self>)
        ensures
            r is Some <==> Self::lower() <= w@ <= Self::upper(),
            r matches Some(v) ==> v.as_int() == w@,
    ;
}

/// What stands for an `Option` of a value.
pub open spec fn option_as_int<T: Numeric>(v: Option<T>) -> Option<int> {
    match v {
        Some(x) => Some(x.as_int()),
        None => None,
    }
}

/// The value 1 of the type `T`.
pub fn one<T: Numeric>() -> (v: T)
    ensures
        v.as_int() == 1,
{
    proof {
        T::lemma_limits();
    }
    T::from_wide(Wide { negative: false, magnitude: 1 }).unwrap()
}

impl Numeric for i8 {
    open spec fn lower() -> int {
        i8::MIN as int
    }

    open spec fn upper() -> int {
        i8::MAX as int
    }

    open spec fn as_int(self) -> int {
        self as int
    }

    proof fn lemma_limits() {
    }

    proof fn lemma_bounded(self) {
    }

    proof fn lemma_injective(self, other: Self) {
    }

    fn to_wide(self) -> (w: Wide) {
        if self < 0 {
            Wide { negative: true, magnitude: (-(self + 1)) as u128 + 1 }
        } else {
            Wide { negative: false, magnitude: self as u128 }
        }
    }

    fn from_wide(w: Wide) -> (r: Option<Self>) {
        if w.magnitude == 0 {
            Some(0)
        } else if w.negative {
            if w.magnitude - 1 <= i8::MAX as u128 {
                Some(-((w.magnitude - 1) as i8) - 1)
            } else {
                None
            }
        } else if w.magnitude <= i8::MAX as u128 {
            Some(w.magnitude as i8)
        } else {
            None
        }
    }
}

impl Numeric for i16 {
    open spec fn lower() -> int {
        i16::MIN as int
    }

    open spec fn upper() -> int {
        i16::MAX as int
    }

    open spec fn as_int(self) -> int {
        self as int
    }

    proof fn lemma_limits() {
    }

    proof fn lemma_bounded(self) {
    }

    proof fn lemma_injective(self, other: Self) {
    }

    fn to_wide(self) -> (w: Wide) {
        if self < 0 {
            Wide { negative: true, magnitude: (-(self + 1)) as u128 + 1 }
        } else {
            Wide { negative: false, magnitude: self as u128 }
        }
    }

    fn from_wide(w: Wide) -> (r: Option<Self>) {
        if w.magnitude == 0 {
            Some(0)
        } else if w.negative {
            if w.magnitude - 1 <= i16::MAX as u128 {
                Some(-((w.magnitude - 1) as i16) - 1)
            } else {
                None
            }
        } else if w.magnitude <= i16::MAX as u128 {
            Some(w.magnitude as i16)
        } else {
            None
        }
    }
}

impl Numeric for i32 {
    open spec fn lower() -> int {
        i32::MIN as int
    }

    open spec fn upper() -> int {
        i32::MAX as int
    }

    open spec fn as_int(self) -> int {
        self as int
    }

    proof fn lemma_limits() {
    }

    proof fn lemma_bounded(self) {
    }

    proof fn lemma_injective(self, other: Self) {
    }

    fn to_wide(self) -> (w: Wide) {
        if self < 0 {
            Wide { negative: true, magnitude: (-(self + 1)) as u128 + 1 }
        } else {
            Wide { negative: false, magnitude: self as u128 }
        }
    }

    fn from_wide(w: Wide) -> (r: Option<Self>) {
        if w.magnitude == 0 {
            Some(0)
        } else if w.negative {
            if w.magnitude - 1 <= i32::MAX as u128 {
                Some(-((w.magnitude - 1) as i32) - 1)
            } else {
                None
            }
        } else if w.magnitude <= i32::MAX as u128 {
            Some(w.magnitude as i32)
        } else {
            None
        }
    }
}

impl Numeric for i64 {
    open spec fn lower() -> int {
        i64::MIN as int
    }

    open spec fn upper() -> int {
        i64::MAX as int
    }

    open spec fn as_int(self) -> int {
        self as int
    }

    proof fn lemma_limits() {
    }

    proof fn lemma_bounded(self) {
    }

    proof fn lemma_injective(self, other: Self) {
    }

    fn to_wide(self) -> (w: Wide) {
        if self < 0 {
            Wide { negative: true, magnitude: (-(self + 1)) as u128 + 1 }
        } else {
            Wide { negative: false, magnitude: self as u128 }
        }
    }

    fn from_wide(w: Wide) -> (r: Option<Self>) {
        if w.magnitude == 0 {
            Some(0)
        } else if w.negative {
            if w.magnitude - 1 <= i64::MAX as u128 {
                Some(-((w.magnitude - 1) as i64) - 1)
            } else {
                None
            }
        } else if w.magnitude <= i64::MAX as u128 {
            Some(w.magnitude as i64)
        } else {
            None
        }
    }
}

impl Numeric for i128 {
    open spec fn lower() -> int {
        i128::MIN as int
    }

    open spec fn upper() -> int {
        i128::MAX as int
    }

    open spec fn as_int(self) -> int {
        self as int
    }

    proof fn lemma_limits() {
    }

    proof fn lemma_bounded(self) {
    }

    proof fn lemma_injective(self, other: Self) {
    }

    fn to_wide(self) -> (w: Wide) {
        if self < 0 {
            Wide { negative: true, magnitude: (-(self + 1)) as u128 + 1 }
        } else {
            Wide { negative: false, magnitude: self as u128 }
        }
    }

    fn from_wide(w: Wide) -> (r: Option<Self>) {
        if w.magnitude == 0 {
            Some(0)
        } else if w.negative {
            if w.magnitude - 1 <= i128::MAX as u128 {
                Some(-((w.magnitude - 1) as i128) - 1)
            } else {
                None
            }
        } else if w.magnitude <= i128::MAX as u128 {
            Some(w.magnitude as i128)
        } else {
            None
        }
    }
}

impl Numeric for isize {
    open spec fn lower() -> int {
        isize::MIN as int
    }

    open spec fn upper() -> int {
        isize::MAX as int
    }

    open spec fn as_int(self) -> int {
        self as int
    }

    proof fn lemma_limits() {
    }

    proof fn lemma_bounded(self) {
    }

    proof fn lemma_injective(self, other: Self) {
    }

    fn to_wide(self) -> (w: Wide) {
        if self < 0 {
            Wide { negative: true, magnitude: (-(self + 1)) as u128 + 1 }
        } else {
            Wide { negative: false, magnitude: self as u128 }
        }
    }

    fn from_wide(w: Wide) -> (r: Option<Self>) {
        if w.magnitude == 0 {
            Some(0)
        } else if w.negative {
            if w.magnitude - 1 <= isize::MAX as u128 {
                Some(-((w.magnitude - 1) as isize) - 1)
            } else {
                None
            }
        } else if w.magnitude <= isize::MAX as u128 {
            Some(w.magnitude as isize)
        } else {
            None
        }
    }
}

impl Numeric for u8 {
    open spec fn lower() -> int {
        0
    }

    open spec fn upper() -> int {
        u8::MAX as int
    }

    open spec fn as_int(self) -> int {
        self as int
    }

    proof fn lemma_limits() {
    }

    proof fn lemma_bounded(self) {
    }

    proof fn lemma_injective(self, other: Self) {
    }

    fn to_wide(self) -> (w: Wide) {
        Wide { negative: false, magnitude: self as u128 }
    }

    fn from_wide(w: Wide) -> (r: Option<Self>) {
        if w.magnitude == 0 {
            Some(0)
        } else if !w.negative && w.magnitude <= u8::MAX as u128 {
            Some(w.magnitude as u8)
        } else {
            None
        }
    }
}

impl Numeric for u16 {
    open spec fn lower() -> int {
        0
    }

    open spec fn upper() -> int {
        u16::MAX as int
    }

    open spec fn as_int(self) -> int {
        self as int
    }

    proof fn lemma_limits() {
    }

    proof fn lemma_bounded(self) {
    }

    proof fn lemma_injective(self, other: Self) {
    }

    fn to_wide(self) -> (w: Wide) {
        Wide { negative: false, magnitude: self as u128 }
    }

    fn from_wide(w: Wide) -> (r: Option<Self>) {
        if w.magnitude == 0 {
            Some(0)
        } else if !w.negative && w.magnitude <= u16::MAX as u128 {
            Some(w.magnitude as u16)
        } else {
            None
        }
    }
}

impl Numeric for u32 {
    open spec fn lower() -> int {
        0
    }

    open spec fn upper() -> int {
        u32::MAX as int
    }

    open spec fn as_int(self) -> int {
        self as int
    }

    proof fn lemma_limits() {
    }

    proof fn lemma_bounded(self) {
    }

    proof fn lemma_injective(self, other: Self) {
    }

    fn to_wide(self) -> (w: Wide) {
        Wide { negative: false, magnitude: self as u128 }
    }

    fn from_wide(w: Wide) -> (r: Option<Self>) {
        if w.magnitude == 0 {
            Some(0)
        } else if !w.negative && w.magnitude <= u32::MAX as u128 {
            Some(w.magnitude as u32)
        } else {
            None
        }
    }
}

impl Numeric for u64 {
    open spec fn lower() -> int {
        0
    }

    open spec fn upper() -> int {
        u64::MAX as int
    }

    open spec fn as_int(self) -> int {
        self as int
    }

    proof fn lemma_limits() {
    }

    proof fn lemma_bounded(self) {
    }

    proof fn lemma_injective(self, other: Self) {
    }

    fn to_wide(self) -> (w: Wide) {
        Wide { negative: false, magnitude: self as u128 }
    }

    fn from_wide(w: Wide) -> (r: Option<Self>) {
        if w.magnitude == 0 {
            Some(0)
        } else if !w.negative && w.magnitude <= u64::MAX as u128 {
            Some(w.magnitude as u64)
        } else {
            None
        }
    }
}

impl Numeric for u128 {
    open spec fn lower() -> int {
        0
    }

    open spec fn upper() -> int {
        u128::MAX as int
    }

    open spec fn as_int(self) -> int {
        self as int
    }

    proof fn lemma_limits() {
    }

    proof fn lemma_bounded(self) {
    }

    proof fn lemma_injective(self, other: Self) {
    }

    fn to_wide(self) -> (w: Wide) {
        Wide { negative: false, magnitude: self as u128 }
    }

    fn from_wide(w: Wide) -> (r: Option<Self>) {
        if w.magnitude == 0 {
            Some(0)
        } else if !w.negative && w.magnitude <= u128::MAX as u128 {
            Some(w.magnitude as u128)
        } else {
            None
        }
    }
}

impl Numeric for usize {
    open spec fn lower() -> int {
        0
    }

    open spec fn upper() -> int {
        usize::MAX as int
    }

    open spec fn as_int(self) -> int {
        self as int
    }

    proof fn lemma_limits() {
    }

    proof fn lemma_bounded(self) {
    }

    proof fn lemma_injective(self, other: Self) {
    }

    fn to_wide(self) -> (w: Wide) {
        Wide { negative: false, magnitude: self as u128 }
    }

    fn from_wide(w: Wide) -> (r: Option<Self>) {
        if w.magnitude == 0 {
            Some(0)
        } else if !w.negative && w.magnitude <= usize::MAX as u128 {
            Some(w.magnitude as usize)
        } else {
            None
        }
    }
}

} // verus!

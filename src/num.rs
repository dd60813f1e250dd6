//! Numbers as arrays of decimal digits, least significant first, with or
//! without a sign.
use vstd::prelude::*;

verus! {

/// The sign of a number.
#[derive(Debug, Clone, Copy, PartialEq, Eq, Structural)]
pub enum Sign {
    /// Zero or more.
    Pos,
    /// Less than zero.
    Neg,
}

impl Default for Sign {
    fn default() -> (r: Self)
        ensures
            r == Sign::Pos,
    {
        Sign::Pos
    }
}

/// The marker of numbers that carry a sign.
#[derive(Debug, Clone, Copy, PartialEq, Eq, Structural)]
pub struct Signed(pub Sign);

impl Default for Signed {
    fn default() -> (r: Self)
        ensures
            r == Signed(Sign::Pos),
    {
        Signed(Sign::Pos)
    }
}

/// The marker of numbers without a sign.
#[derive(Debug, Clone, Copy, PartialEq, Eq, Structural, Default)]
pub struct Unsigned;

/// A number as its decimal digits, least significant first; zero has no digits.
#[derive(Debug, Clone)]
pub struct NumArr<S> {
    /// The digits, least significant first.
    pub arr: Vec<u8>,
    /// The sign, or the marker of unsigned numbers.
    pub sign: S,
}

/// The decimal digits of `n`, least significant first; none for zero.
pub open spec fn digits_of(n: nat) -> Seq<u8>
    decreases n,
{
    if n == 0 {
        seq![]
    } else {
        seq![(n % 10) as u8] + digits_of(n / 10)
    }
}

/// The decimal digits of `n`, least significant first.
pub fn digits(n: u128) -> (r: Vec<u8>)
    ensures
        r@ == digits_of(n as nat),
{
    let mut r: Vec<u8> = Vec::new();
    let mut m = n;
    while m > 0
        invariant
            r@ + digits_of(m as nat) == digits_of(n as nat),
        decreases m,
    {
        let ghost before = r@;
        r.push((m % 10) as u8);
        assert(digits_of(m as nat) == seq![(m % 10) as u8] + digits_of((m / 10) as nat));
        assert(r@ + digits_of((m / 10) as nat) =~= before + digits_of(m as nat));
        m = m / 10;
    }
    assert(r@ + digits_of(0) =~= r@);
    r
}

impl NumArr<Unsigned> {
    /// A number with the digits of `v`.
    pub open spec fn spec_from_int(v: int) -> Self {
        choose|r: Self| r.arr@ == digits_of(v as nat)
    }

    /// Zero.
    pub fn new() -> (r: Self)
        ensures
            r.arr@.len() == 0,
    {
        NumArr { arr: Vec::new(), sign: Unsigned }
    }

    /// The digits of `n`.
    pub fn from_unsigned(n: u128) -> (r: Self)
        ensures
            r.arr@ == digits_of(n as nat),
    {
        NumArr { arr: digits(n), sign: Unsigned }
    }

    /// Zero.
    pub fn zero() -> (r: Self)
        ensures
            r.arr@.len() == 0,
    {
        NumArr::<Unsigned>::new()
    }

    /// One.
    pub fn one() -> (r: Self)
        ensures
            r.arr@ == seq![1u8],
    {
        NumArr { arr: vec![1u8], sign: Unsigned }
    }
}

impl NumArr<Signed> {
    /// A number with the digits and sign of `v`.
    pub open spec fn spec_from_int(v: int) -> Self {
        choose|r: Self|
            r.arr@ == digits_of((if v < 0 { -v } else { v }) as nat) && r.sign == Signed(
                if v < 0 { Sign::Neg } else { Sign::Pos },
            )
    }

    /// Zero.
    pub fn new() -> (r: Self)
        ensures
            r.arr@.len() == 0,
            r.sign == Signed(Sign::Pos),
    {
        NumArr { arr: Vec::new(), sign: Signed(Sign::Pos) }
    }

    /// The digits and sign of `n`.
    pub fn from_signed(n: i128) -> (r: Self)
        ensures
            r.arr@ == digits_of((if n < 0 { -(n as int) } else { n as int }) as nat),
            r.sign == Signed(if n < 0 { Sign::Neg } else { Sign::Pos }),
    {
        if n < 0 {
            let m: u128 = ((-(n + 1)) as u128) + 1;
            NumArr { arr: digits(m), sign: Signed(Sign::Neg) }
        } else {
            NumArr { arr: digits(n as u128), sign: Signed(Sign::Pos) }
        }
    }

    /// The digits of `n`, with a positive sign.
    pub fn from_unsigned(n: u128) -> (r: Self)
        ensures
            r.arr@ == digits_of(n as nat),
            r.sign == Signed(Sign::Pos),
    {
        NumArr { arr: digits(n), sign: Signed(Sign::Pos) }
    }

    /// Zero.
    pub fn zero() -> (r: Self)
        ensures
            r.arr@.len() == 0,
            r.sign == Signed(Sign::Pos),
    {
        NumArr::<Signed>::new()
    }

    /// One.
    pub fn one() -> (r: Self)
        ensures
            r.arr@ == seq![1u8],
            r.sign == Signed(Sign::Pos),
    {
        NumArr { arr: vec![1u8], sign: Signed(Sign::Pos) }
    }

    /// Makes this number zero.
    pub fn set_zero(&mut self)
        ensures
            final(self).arr@.len() == 0,
            final(self).sign == Signed(Sign::Pos),
    {
        self.arr.clear();
        self.sign = Signed(Sign::Pos);
    }

    /// Makes this number one.
    pub fn set_one(&mut self)
        ensures
            final(self).arr@ == seq![1u8],
            final(self).sign == Signed(Sign::Pos),
    {
        self.arr.clear();
        self.arr.push(1);
        self.sign = Signed(Sign::Pos);
        assert(self.arr@ =~= seq![1u8]);
    }
}

impl<S> NumArr<S> {
    /// Whether this number is zero.
    pub fn is_zero(&self) -> (r: bool)
        ensures
            r == (self.arr@.len() == 0),
    {
        self.arr.len() == 0
    }

    /// Whether this number's digits are those of one.
    pub fn is_one(&self) -> (r: bool)
        ensures
            r == (self.arr@ == seq![1u8]),
    {
        let r = self.arr.len() == 1 && self.arr[0] == 1;
        proof {
            if self.arr@.len() == 1 && self.arr@[0] == 1 {
                assert(self.arr@ =~= seq![1u8]);
            }
        }
        r
    }

    /// Whether this number has exactly the digits `other`.
    fn same_digits(&self, other: &Vec<u8>) -> (r: bool)
        ensures
            r == (self.arr@ == other@),
    {
        if self.arr.len() != other.len() {
            return false;
        }
        let mut i: usize = 0;
        while i < other.len()
            invariant
                self.arr@.len() == other@.len(),
                i <= other@.len(),
                forall|j: int| 0 <= j < i ==> self.arr@[j] == other@[j],
            decreases other@.len() - i,
        {
            if self.arr[i] != other[i] {
                return false;
            }
            i = i + 1;
        }
        assert(self.arr@ =~= other@);
        true
    }
}

impl NumArr<Unsigned> {
    /// Makes this number zero.
    pub fn set_zero(&mut self)
        ensures
            final(self).arr@.len() == 0,
    {
        self.arr.clear();
    }

    /// Makes this number one.
    pub fn set_one(&mut self)
        ensures
            final(self).arr@ == seq![1u8],
    {
        self.arr.clear();
        self.arr.push(1);
        assert(self.arr@ =~= seq![1u8]);
    }
}

impl Default for NumArr<Unsigned> {
    fn default() -> (r: Self)
        ensures
            r.arr@.len() == 0,
    {
        NumArr::<Unsigned>::new()
    }
}

impl Default for NumArr<Signed> {
    fn default() -> (r: Self)
        ensures
            r.arr@.len() == 0,
            r.sign == Signed(Sign::Pos),
    {
        NumArr::<Signed>::new()
    }
}

impl<S> core::ops::Index<usize> for NumArr<S> {
    type Output = u8;

    fn index(&self, index: usize) -> (r: &u8) {
        &self.arr[index]
    }
}

impl<S> vstd::std_specs::core::IndexSpecImpl<usize> for NumArr<S> {
    open spec fn index_req(&self, index: &usize) -> bool {
        *index < self.arr@.len()
    }
}

impl<S> core::ops::IndexMut<usize> for NumArr<S> {
    /// The digit at `index`, to change in place; a position past the last
    /// digit is first reached by appending zero digits, which keep the value.
    fn index_mut(&mut self, index: usize) -> (r: &mut u8) {
        while self.arr.len() <= index
            decreases index + 1 - self.arr@.len(),
        {
            self.arr.push(0);
        }
        &mut self.arr[index]
    }
}

impl PartialEq for NumArr<Signed> {
    fn eq(&self, other: &Self) -> (r: bool) {
        (self.sign == other.sign && self.same_digits(&other.arr)) || (self.is_zero()
            && other.is_zero())
    }
}

impl vstd::std_specs::cmp::PartialEqSpecImpl for NumArr<Signed> {
    open spec fn obeys_eq_spec() -> bool {
        true
    }

    open spec fn eq_spec(&self, other: &Self) -> bool {
        (self.sign == other.sign && self.arr@ == other.arr@) || (self.arr@.len() == 0
            && other.arr@.len() == 0)
    }
}

impl Eq for NumArr<Signed> {
}

impl PartialEq for NumArr<Unsigned> {
    fn eq(&self, other: &Self) -> (r: bool) {
        self.same_digits(&other.arr)
    }
}

impl vstd::std_specs::cmp::PartialEqSpecImpl for NumArr<Unsigned> {
    open spec fn obeys_eq_spec() -> bool {
        true
    }

    open spec fn eq_spec(&self, other: &Self) -> bool {
        self.arr@ == other.arr@
    }
}

impl Eq for NumArr<Unsigned> {
}

impl From<i8> for NumArr<Signed> {
    fn from(n: i8) -> (r: Self) {
        NumArr::<Signed>::from_signed(n as i128)
    }
}

impl vstd::std_specs::convert::FromSpecImpl<i8> for NumArr<Signed> {
    open spec fn obeys_from_spec() -> bool {
        false
    }

    open spec fn from_spec(v: i8) -> Self {
        NumArr::<Signed>::spec_from_int(v as int)
    }
}

impl From<i16> for NumArr<Signed> {
    fn from(n: i16) -> (r: Self) {
        NumArr::<Signed>::from_signed(n as i128)
    }
}

impl vstd::std_specs::convert::FromSpecImpl<i16> for NumArr<Signed> {
    open spec fn obeys_from_spec() -> bool {
        false
    }

    open spec fn from_spec(v: i16) -> Self {
        NumArr::<Signed>::spec_from_int(v as int)
    }
}

impl From<i32> for NumArr<Signed> {
    fn from(n: i32) -> (r: Self) {
        NumArr::<Signed>::from_signed(n as i128)
    }
}

impl vstd::std_specs::convert::FromSpecImpl<i32> for NumArr<Signed> {
    open spec fn obeys_from_spec() -> bool {
        false
    }

    open spec fn from_spec(v: i32) -> Self {
        NumArr::<Signed>::spec_from_int(v as int)
    }
}

impl From<i64> for NumArr<Signed> {
    fn from(n: i64) -> (r: Self) {
        NumArr::<Signed>::from_signed(n as i128)
    }
}

impl vstd::std_specs::convert::FromSpecImpl<i64> for NumArr<Signed> {
    open spec fn obeys_from_spec() -> bool {
        false
    }

    open spec fn from_spec(v: i64) -> Self {
        NumArr::<Signed>::spec_from_int(v as int)
    }
}

impl From<i128> for NumArr<Signed> {
    fn from(n: i128) -> (r: Self) {
        NumArr::<Signed>::from_signed(n as i128)
    }
}

impl vstd::std_specs::convert::FromSpecImpl<i128> for NumArr<Signed> {
    open spec fn obeys_from_spec() -> bool {
        false
    }

    open spec fn from_spec(v: i128) -> Self {
        NumArr::<Signed>::spec_from_int(v as int)
    }
}

impl From<isize> for NumArr<Signed> {
    fn from(n: isize) -> (r: Self) {
        NumArr::<Signed>::from_signed(n as i128)
    }
}

impl vstd::std_specs::convert::FromSpecImpl<isize> for NumArr<Signed> {
    open spec fn obeys_from_spec() -> bool {
        false
    }

    open spec fn from_spec(v: isize) -> Self {
        NumArr::<Signed>::spec_from_int(v as int)
    }
}

impl From<u8> for NumArr<Signed> {
    fn from(n: u8) -> (r: Self) {
        NumArr::<Signed>::from_unsigned(n as u128)
    }
}

impl vstd::std_specs::convert::FromSpecImpl<u8> for NumArr<Signed> {
    open spec fn obeys_from_spec() -> bool {
        false
    }

    open spec fn from_spec(v: u8) -> Self {
        NumArr::<Signed>::spec_from_int(v as int)
    }
}

impl From<u16> for NumArr<Signed> {
    fn from(n: u16) -> (r: Self) {
        NumArr::<Signed>::from_unsigned(n as u128)
    }
}

impl vstd::std_specs::convert::FromSpecImpl<u16> for NumArr<Signed> {
    open spec fn obeys_from_spec() -> bool {
        false
    }

    open spec fn from_spec(v: u16) -> Self {
        NumArr::<Signed>::spec_from_int(v as int)
    }
}

impl From<u32> for NumArr<Signed> {
    fn from(n: u32) -> (r: Self) {
        NumArr::<Signed>::from_unsigned(n as u128)
    }
}

impl vstd::std_specs::convert::FromSpecImpl<u32> for NumArr<Signed> {
    open spec fn obeys_from_spec() -> bool {
        false
    }

    open spec fn from_spec(v: u32) -> Self {
        NumArr::<Signed>::spec_from_int(v as int)
    }
}

impl From<u64> for NumArr<Signed> {
    fn from(n: u64) -> (r: Self) {
        NumArr::<Signed>::from_unsigned(n as u128)
    }
}

impl vstd::std_specs::convert::FromSpecImpl<u64> for NumArr<Signed> {
    open spec fn obeys_from_spec() -> bool {
        false
    }

    open spec fn from_spec(v: u64) -> Self {
        NumArr::<Signed>::spec_from_int(v as int)
    }
}

impl From<u128> for NumArr<Signed> {
    fn from(n: u128) -> (r: Self) {
        NumArr::<Signed>::from_unsigned(n as u128)
    }
}

impl vstd::std_specs::convert::FromSpecImpl<u128> for NumArr<Signed> {
    open spec fn obeys_from_spec() -> bool {
        false
    }

    open spec fn from_spec(v: u128) -> Self {
        NumArr::<Signed>::spec_from_int(v as int)
    }
}

impl From<usize> for NumArr<Signed> {
    fn from(n: usize) -> (r: Self) {
        NumArr::<Signed>::from_unsigned(n as u128)
    }
}

impl vstd::std_specs::convert::FromSpecImpl<usize> for NumArr<Signed> {
    open spec fn obeys_from_spec() -> bool {
        false
    }

    open spec fn from_spec(v: usize) -> Self {
        NumArr::<Signed>::spec_from_int(v as int)
    }
}

impl From<u8> for NumArr<Unsigned> {
    fn from(n: u8) -> (r: Self) {
        NumArr::<Unsigned>::from_unsigned(n as u128)
    }
}

impl vstd::std_specs::convert::FromSpecImpl<u8> for NumArr<Unsigned> {
    open spec fn obeys_from_spec() -> bool {
        false
    }

    open spec fn from_spec(v: u8) -> Self {
        NumArr::<Unsigned>::spec_from_int(v as int)
    }
}

impl From<u16> for NumArr<Unsigned> {
    fn from(n: u16) -> (r: Self) {
        NumArr::<Unsigned>::from_unsigned(n as u128)
    }
}

impl vstd::std_specs::convert::FromSpecImpl<u16> for NumArr<Unsigned> {
    open spec fn obeys_from_spec() -> bool {
        false
    }

    open spec fn from_spec(v: u16) -> Self {
        NumArr::<Unsigned>::spec_from_int(v as int)
    }
}

impl From<u32> for NumArr<Unsigned> {
    fn from(n: u32) -> (r: Self) {
        NumArr::<Unsigned>::from_unsigned(n as u128)
    }
}

impl vstd::std_specs::convert::FromSpecImpl<u32> for NumArr<Unsigned> {
    open spec fn obeys_from_spec() -> bool {
        false
    }

    open spec fn from_spec(v: u32) -> Self {
        NumArr::<Unsigned>::spec_from_int(v as int)
    }
}

impl From<u64> for NumArr<Unsigned> {
    fn from(n: u64) -> (r: Self) {
        NumArr::<Unsigned>::from_unsigned(n as u128)
    }
}

impl vstd::std_specs::convert::FromSpecImpl<u64> for NumArr<Unsigned> {
    open spec fn obeys_from_spec() -> bool {
        false
    }

    open spec fn from_spec(v: u64) -> Self {
        NumArr::<Unsigned>::spec_from_int(v as int)
    }
}

impl From<u128> for NumArr<Unsigned> {
    fn from(n: u128) -> (r: Self) {
        NumArr::<Unsigned>::from_unsigned(n as u128)
    }
}

impl vstd::std_specs::convert::FromSpecImpl<u128> for NumArr<Unsigned> {
    open spec fn obeys_from_spec() -> bool {
        false
    }

    open spec fn from_spec(v: u128) -> Self {
        NumArr::<Unsigned>::spec_from_int(v as int)
    }
}

impl From<usize> for NumArr<Unsigned> {
    fn from(n: usize) -> (r: Self) {
        NumArr::<Unsigned>::from_unsigned(n as u128)
    }
}

impl vstd::std_specs::convert::FromSpecImpl<usize> for NumArr<Unsigned> {
    open spec fn obeys_from_spec() -> bool {
        false
    }

    open spec fn from_spec(v: usize) -> Self {
        NumArr::<Unsigned>::spec_from_int(v as int)
    }
}

/// The opposite sign.
pub open spec fn flip(s: Sign) -> Sign {
    match s {
        Sign::Pos => Sign::Neg,
        Sign::Neg => Sign::Pos,
    }
}

impl core::ops::Neg for Sign {
    type Output = Sign;

    fn neg(self) -> (r: Sign) {
        match self {
            Sign::Pos => Sign::Neg,
            Sign::Neg => Sign::Pos,
        }
    }
}

impl vstd::std_specs::ops::NegSpecImpl for Sign {
    open spec fn obeys_neg_spec() -> bool {
        true
    }

    open spec fn neg_req(self) -> bool {
        true
    }

    open spec fn neg_spec(self) -> Sign {
        flip(self)
    }
}

impl core::ops::Neg for Signed {
    type Output = Signed;

    fn neg(self) -> (r: Signed) {
        Signed(core::ops::Neg::neg(self.0))
    }
}

impl vstd::std_specs::ops::NegSpecImpl for Signed {
    open spec fn obeys_neg_spec() -> bool {
        true
    }

    open spec fn neg_req(self) -> bool {
        true
    }

    open spec fn neg_spec(self) -> Signed {
        Signed(flip(self.0))
    }
}

impl core::ops::Neg for NumArr<Signed> {
    type Output = NumArr<Signed>;

    fn neg(self) -> (r: NumArr<Signed>) {
        NumArr { arr: self.arr, sign: core::ops::Neg::neg(self.sign) }
    }
}

impl vstd::std_specs::ops::NegSpecImpl for NumArr<Signed> {
    open spec fn obeys_neg_spec() -> bool {
        true
    }

    open spec fn neg_req(self) -> bool {
        true
    }

    open spec fn neg_spec(self) -> NumArr<Signed> {
        NumArr { arr: self.arr, sign: Signed(flip(self.sign.0)) }
    }
}

} // verus!

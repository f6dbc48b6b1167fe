//! Types that can stand as fields of a bit field, and the run-time storage
//! they use: a field is kept as raw bits inside the byte array of its
//! struct, and read and written through `Specifier::get` and
//! `Specifier::set`.
use crate::bits::{bits_value, get_bits, is_written, law_read_after_write, low_mask, set_bits, bit_at};
use vstd::arithmetic::power2::pow2;
use vstd::prelude::*;

verus! {

/// A type usable as a field of a bit field.
///
/// A field is stored as `bits()` raw bits; the raw bits travel as a `u64`
/// and are shown to users as `InterfaceType`.
pub trait Specifier {
    /// The number of bits a field of this type occupies.
    spec fn bit_count() -> nat;

    /// The value a field shows for the raw bits `raw`.
    spec fn interface_of(raw: u64) -> Self::InterfaceType;

    /// The raw bits stored for the value `v`.
    spec fn raw_of(v: Self::InterfaceType) -> u64;

    /// The type of the values a field of this type holds.
    type InterfaceType;

    /// The number of bits a field of this type occupies.
    const BITS: usize;

    /// The number of bits a field of this type occupies.
    fn bits() -> (b: usize)
        ensures
            b == Self::bit_count(),
            b == Self::BITS,
            b <= 64,
    ;

    /// The value a field shows for the raw bits `v`, whatever they are.
    fn to_interface_type(v: u64) -> (r: Self::InterfaceType)
        ensures
            r == Self::interface_of(v),
    ;

    /// The raw bits stored for the value `v`.
    fn to_int_type(v: Self::InterfaceType) -> (r: u64)
        ensures
            r == Self::raw_of(v),
    ;

    /// A value whose raw bits fit the field is shown again from them.
    proof fn lemma_value_from_raw(v: Self::InterfaceType)
        requires
            (Self::raw_of(v) as nat) < pow2(Self::bit_count()),
        ensures
            Self::interface_of(Self::raw_of(v)) == v,
    ;

    /// Reads the field stored at bit position `offset` of `data`.
    fn get(data: &[u8], offset: usize) -> (r: Self::InterfaceType)
        requires
            offset + Self::bit_count() <= 8 * data@.len(),
            Self::bit_count() <= 64,
        ensures
            r == Self::interface_of(bits_value(data@, offset as int, Self::bit_count()) as u64),
    {
        let width = Self::bits();
        let v = get_bits(data, offset, width);
        proof {
            crate::bits::lemma_bits_value_bound(data@, offset as int, width as nat);
        }
        Self::to_interface_type(v)
    }

    /// Writes `v` into the field at bit position `offset` of `data`, or-ing
    /// its bits into those already there.
    fn set(data: &mut [u8], offset: usize, v: Self::InterfaceType)
        requires
            offset + Self::bit_count() <= 8 * old(data)@.len(),
            Self::bit_count() <= 64,
        ensures
            is_written(old(data)@, final(data)@, offset as int, Self::bit_count(), Self::raw_of(v)),
    {
        let width = Self::bits();
        let raw = Self::to_int_type(v);
        set_bits(data, offset, width, raw);
    }
}

/// The unsigned integer type of `N` bits.
pub trait IntTypeHelperTrait<const N: usize> {
    type Ty;
}

impl IntTypeHelperTrait<8> for () {
    type Ty = u8;
}

impl IntTypeHelperTrait<16> for () {
    type Ty = u16;
}

impl IntTypeHelperTrait<32> for () {
    type Ty = u32;
}

impl IntTypeHelperTrait<64> for () {
    type Ty = u64;
}

/// The width of the smallest unsigned integer type (of 8, 16, 32 or 64 bits,
/// or any larger power of two) that holds `n` bits.
pub open spec fn is_int_width_for(n: nat, r: nat) -> bool {
    &&& exists|e: nat| pow2(e) == r
    &&& n <= r
    &&& 8 <= r
    &&& r == 8 || r / 2 < n
}

/// The width of the smallest unsigned integer type of at least 8 bits, and a
/// power of two, that holds `n` bits: 8 below 5, else the next power of two.
pub fn next_multiple_of_8(n: usize) -> (r: usize)
    requires
        n <= usize::MAX / 2 + 1,
    ensures
        is_int_width_for(n as nat, r as nat),
        r % 8 == 0,
{
    let r = if n < 5 {
        8
    } else {
        next_power_of_two(n)
    };
    proof {
        if n < 5 {
            vstd::arithmetic::power2::lemma2_to64();
            assert(pow2(3) == 8);
        }
        let e = choose|e: nat| pow2(e) == r;
        vstd::arithmetic::power2::lemma2_to64();
        if e < 3 {
            assert(e == 0 || e == 1 || e == 2);
        } else if e > 3 {
            vstd::arithmetic::power2::lemma_pow2_strictly_increases(3, e);
        }
        lemma_pow2_at_least_8_mod_8(e);
    }
    r
}

proof fn lemma_pow2_at_least_8_mod_8(e: nat)
    requires
        pow2(e) >= 8,
    ensures
        pow2(e) % 8 == 0,
    decreases e,
{
    vstd::arithmetic::power2::lemma2_to64();
    if e > 3 {
        vstd::arithmetic::power2::lemma_pow2_unfold(e);
        if pow2((e - 1) as nat) >= 8 {
            lemma_pow2_at_least_8_mod_8((e - 1) as nat);
        } else {
            vstd::arithmetic::power2::lemma_pow2_strictly_increases(3, (e - 1) as nat);
        }
    } else if e < 3 {
        vstd::arithmetic::power2::lemma_pow2_strictly_increases(e, 3);
    }
}

/// The smallest power of two that is at least `n` (1 for 0).
fn next_power_of_two(n: usize) -> (r: usize)
    requires
        n <= usize::MAX / 2 + 1,
    ensures
        exists|e: nat| pow2(e) == r,
        n <= r,
        r == 1 || r / 2 < n,
{
    let mut p: usize = 1;
    let ghost mut e: nat = 0;
    proof {
        vstd::arithmetic::power2::lemma2_to64();
    }
    while p < n
        invariant
            n <= usize::MAX / 2 + 1,
            pow2(e) == p,
            p == 1 || p / 2 < n,
            1 <= p,
        decreases usize::MAX - p,
    {
        proof {
            vstd::arithmetic::power2::lemma_pow2_unfold(e + 1);
        }
        p = p * 2;
        proof {
            e = e + 1;
        }
    }
    p
}

} // verus!

verus! {

/// A one-bit field holding a `bool`.
impl Specifier for bool {
    open spec fn bit_count() -> nat {
        1
    }

    open spec fn interface_of(raw: u64) -> bool {
        raw != 0
    }

    open spec fn raw_of(v: bool) -> u64 {
        if v {
            1
        } else {
            0
        }
    }

    type InterfaceType = bool;

    const BITS: usize = 1;

    fn bits() -> (b: usize) {
        Self::BITS
    }

    fn to_interface_type(v: u64) -> (r: bool) {
        v != 0
    }

    fn to_int_type(v: bool) -> (r: u64) {
        if v {
            1
        } else {
            0
        }
    }

    proof fn lemma_value_from_raw(v: Self::InterfaceType) {
    }
}

/// A field of 1 bit.
pub struct B1;

impl Specifier for B1 {
    open spec fn bit_count() -> nat {
        1
    }

    open spec fn interface_of(raw: u64) -> <() as IntTypeHelperTrait<8>>::Ty {
        raw as u8
    }

    open spec fn raw_of(v: <() as IntTypeHelperTrait<8>>::Ty) -> u64 {
        v as u64
    }

    type InterfaceType = <() as IntTypeHelperTrait<8>>::Ty;

    const BITS: usize = 1;

    fn bits() -> (b: usize) {
        Self::BITS
    }

    fn to_interface_type(v: u64) -> (r: <() as IntTypeHelperTrait<8>>::Ty) {
        v as u8
    }

    fn to_int_type(v: <() as IntTypeHelperTrait<8>>::Ty) -> (r: u64) {
        v as u64
    }

    proof fn lemma_value_from_raw(v: Self::InterfaceType) {
    }
}

/// A field of 2 bits.
pub struct B2;

impl Specifier for B2 {
    open spec fn bit_count() -> nat {
        2
    }

    open spec fn interface_of(raw: u64) -> <() as IntTypeHelperTrait<8>>::Ty {
        raw as u8
    }

    open spec fn raw_of(v: <() as IntTypeHelperTrait<8>>::Ty) -> u64 {
        v as u64
    }

    type InterfaceType = <() as IntTypeHelperTrait<8>>::Ty;

    const BITS: usize = 2;

    fn bits() -> (b: usize) {
        Self::BITS
    }

    fn to_interface_type(v: u64) -> (r: <() as IntTypeHelperTrait<8>>::Ty) {
        v as u8
    }

    fn to_int_type(v: <() as IntTypeHelperTrait<8>>::Ty) -> (r: u64) {
        v as u64
    }

    proof fn lemma_value_from_raw(v: Self::InterfaceType) {
    }
}

/// A field of 3 bits.
pub struct B3;

impl Specifier for B3 {
    open spec fn bit_count() -> nat {
        3
    }

    open spec fn interface_of(raw: u64) -> <() as IntTypeHelperTrait<8>>::Ty {
        raw as u8
    }

    open spec fn raw_of(v: <() as IntTypeHelperTrait<8>>::Ty) -> u64 {
        v as u64
    }

    type InterfaceType = <() as IntTypeHelperTrait<8>>::Ty;

    const BITS: usize = 3;

    fn bits() -> (b: usize) {
        Self::BITS
    }

    fn to_interface_type(v: u64) -> (r: <() as IntTypeHelperTrait<8>>::Ty) {
        v as u8
    }

    fn to_int_type(v: <() as IntTypeHelperTrait<8>>::Ty) -> (r: u64) {
        v as u64
    }

    proof fn lemma_value_from_raw(v: Self::InterfaceType) {
    }
}

/// A field of 4 bits.
pub struct B4;

impl Specifier for B4 {
    open spec fn bit_count() -> nat {
        4
    }

    open spec fn interface_of(raw: u64) -> <() as IntTypeHelperTrait<8>>::Ty {
        raw as u8
    }

    open spec fn raw_of(v: <() as IntTypeHelperTrait<8>>::Ty) -> u64 {
        v as u64
    }

    type InterfaceType = <() as IntTypeHelperTrait<8>>::Ty;

    const BITS: usize = 4;

    fn bits() -> (b: usize) {
        Self::BITS
    }

    fn to_interface_type(v: u64) -> (r: <() as IntTypeHelperTrait<8>>::Ty) {
        v as u8
    }

    fn to_int_type(v: <() as IntTypeHelperTrait<8>>::Ty) -> (r: u64) {
        v as u64
    }

    proof fn lemma_value_from_raw(v: Self::InterfaceType) {
    }
}

/// A field of 5 bits.
pub struct B5;

impl Specifier for B5 {
    open spec fn bit_count() -> nat {
        5
    }

    open spec fn interface_of(raw: u64) -> <() as IntTypeHelperTrait<8>>::Ty {
        raw as u8
    }

    open spec fn raw_of(v: <() as IntTypeHelperTrait<8>>::Ty) -> u64 {
        v as u64
    }

    type InterfaceType = <() as IntTypeHelperTrait<8>>::Ty;

    const BITS: usize = 5;

    fn bits() -> (b: usize) {
        Self::BITS
    }

    fn to_interface_type(v: u64) -> (r: <() as IntTypeHelperTrait<8>>::Ty) {
        v as u8
    }

    fn to_int_type(v: <() as IntTypeHelperTrait<8>>::Ty) -> (r: u64) {
        v as u64
    }

    proof fn lemma_value_from_raw(v: Self::InterfaceType) {
    }
}

/// A field of 6 bits.
pub struct B6;

impl Specifier for B6 {
    open spec fn bit_count() -> nat {
        6
    }

    open spec fn interface_of(raw: u64) -> <() as IntTypeHelperTrait<8>>::Ty {
        raw as u8
    }

    open spec fn raw_of(v: <() as IntTypeHelperTrait<8>>::Ty) -> u64 {
        v as u64
    }

    type InterfaceType = <() as IntTypeHelperTrait<8>>::Ty;

    const BITS: usize = 6;

    fn bits() -> (b: usize) {
        Self::BITS
    }

    fn to_interface_type(v: u64) -> (r: <() as IntTypeHelperTrait<8>>::Ty) {
        v as u8
    }

    fn to_int_type(v: <() as IntTypeHelperTrait<8>>::Ty) -> (r: u64) {
        v as u64
    }

    proof fn lemma_value_from_raw(v: Self::InterfaceType) {
    }
}

/// A field of 7 bits.
pub struct B7;

impl Specifier for B7 {
    open spec fn bit_count() -> nat {
        7
    }

    open spec fn interface_of(raw: u64) -> <() as IntTypeHelperTrait<8>>::Ty {
        raw as u8
    }

    open spec fn raw_of(v: <() as IntTypeHelperTrait<8>>::Ty) -> u64 {
        v as u64
    }

    type InterfaceType = <() as IntTypeHelperTrait<8>>::Ty;

    const BITS: usize = 7;

    fn bits() -> (b: usize) {
        Self::BITS
    }

    fn to_interface_type(v: u64) -> (r: <() as IntTypeHelperTrait<8>>::Ty) {
        v as u8
    }

    fn to_int_type(v: <() as IntTypeHelperTrait<8>>::Ty) -> (r: u64) {
        v as u64
    }

    proof fn lemma_value_from_raw(v: Self::InterfaceType) {
    }
}

/// A field of 8 bits.
pub struct B8;

impl Specifier for B8 {
    open spec fn bit_count() -> nat {
        8
    }

    open spec fn interface_of(raw: u64) -> <() as IntTypeHelperTrait<8>>::Ty {
        raw as u8
    }

    open spec fn raw_of(v: <() as IntTypeHelperTrait<8>>::Ty) -> u64 {
        v as u64
    }

    type InterfaceType = <() as IntTypeHelperTrait<8>>::Ty;

    const BITS: usize = 8;

    fn bits() -> (b: usize) {
        Self::BITS
    }

    fn to_interface_type(v: u64) -> (r: <() as IntTypeHelperTrait<8>>::Ty) {
        v as u8
    }

    fn to_int_type(v: <() as IntTypeHelperTrait<8>>::Ty) -> (r: u64) {
        v as u64
    }

    proof fn lemma_value_from_raw(v: Self::InterfaceType) {
    }
}

/// A field of 9 bits.
pub struct B9;

impl Specifier for B9 {
    open spec fn bit_count() -> nat {
        9
    }

    open spec fn interface_of(raw: u64) -> <() as IntTypeHelperTrait<16>>::Ty {
        raw as u16
    }

    open spec fn raw_of(v: <() as IntTypeHelperTrait<16>>::Ty) -> u64 {
        v as u64
    }

    type InterfaceType = <() as IntTypeHelperTrait<16>>::Ty;

    const BITS: usize = 9;

    fn bits() -> (b: usize) {
        Self::BITS
    }

    fn to_interface_type(v: u64) -> (r: <() as IntTypeHelperTrait<16>>::Ty) {
        v as u16
    }

    fn to_int_type(v: <() as IntTypeHelperTrait<16>>::Ty) -> (r: u64) {
        v as u64
    }

    proof fn lemma_value_from_raw(v: Self::InterfaceType) {
    }
}

/// A field of 10 bits.
pub struct B10;

impl Specifier for B10 {
    open spec fn bit_count() -> nat {
        10
    }

    open spec fn interface_of(raw: u64) -> <() as IntTypeHelperTrait<16>>::Ty {
        raw as u16
    }

    open spec fn raw_of(v: <() as IntTypeHelperTrait<16>>::Ty) -> u64 {
        v as u64
    }

    type InterfaceType = <() as IntTypeHelperTrait<16>>::Ty;

    const BITS: usize = 10;

    fn bits() -> (b: usize) {
        Self::BITS
    }

    fn to_interface_type(v: u64) -> (r: <() as IntTypeHelperTrait<16>>::Ty) {
        v as u16
    }

    fn to_int_type(v: <() as IntTypeHelperTrait<16>>::Ty) -> (r: u64) {
        v as u64
    }

    proof fn lemma_value_from_raw(v: Self::InterfaceType) {
    }
}

/// A field of 11 bits.
pub struct B11;

impl Specifier for B11 {
    open spec fn bit_count() -> nat {
        11
    }

    open spec fn interface_of(raw: u64) -> <() as IntTypeHelperTrait<16>>::Ty {
        raw as u16
    }

    open spec fn raw_of(v: <() as IntTypeHelperTrait<16>>::Ty) -> u64 {
        v as u64
    }

    type InterfaceType = <() as IntTypeHelperTrait<16>>::Ty;

    const BITS: usize = 11;

    fn bits() -> (b: usize) {
        Self::BITS
    }

    fn to_interface_type(v: u64) -> (r: <() as IntTypeHelperTrait<16>>::Ty) {
        v as u16
    }

    fn to_int_type(v: <() as IntTypeHelperTrait<16>>::Ty) -> (r: u64) {
        v as u64
    }

    proof fn lemma_value_from_raw(v: Self::InterfaceType) {
    }
}

/// A field of 12 bits.
pub struct B12;

impl Specifier for B12 {
    open spec fn bit_count() -> nat {
        12
    }

    open spec fn interface_of(raw: u64) -> <() as IntTypeHelperTrait<16>>::Ty {
        raw as u16
    }

    open spec fn raw_of(v: <() as IntTypeHelperTrait<16>>::Ty) -> u64 {
        v as u64
    }

    type InterfaceType = <() as IntTypeHelperTrait<16>>::Ty;

    const BITS: usize = 12;

    fn bits() -> (b: usize) {
        Self::BITS
    }

    fn to_interface_type(v: u64) -> (r: <() as IntTypeHelperTrait<16>>::Ty) {
        v as u16
    }

    fn to_int_type(v: <() as IntTypeHelperTrait<16>>::Ty) -> (r: u64) {
        v as u64
    }

    proof fn lemma_value_from_raw(v: Self::InterfaceType) {
    }
}

/// A field of 13 bits.
pub struct B13;

impl Specifier for B13 {
    open spec fn bit_count() -> nat {
        13
    }

    open spec fn interface_of(raw: u64) -> <() as IntTypeHelperTrait<16>>::Ty {
        raw as u16
    }

    open spec fn raw_of(v: <() as IntTypeHelperTrait<16>>::Ty) -> u64 {
        v as u64
    }

    type InterfaceType = <() as IntTypeHelperTrait<16>>::Ty;

    const BITS: usize = 13;

    fn bits() -> (b: usize) {
        Self::BITS
    }

    fn to_interface_type(v: u64) -> (r: <() as IntTypeHelperTrait<16>>::Ty) {
        v as u16
    }

    fn to_int_type(v: <() as IntTypeHelperTrait<16>>::Ty) -> (r: u64) {
        v as u64
    }

    proof fn lemma_value_from_raw(v: Self::InterfaceType) {
    }
}

/// A field of 14 bits.
pub struct B14;

impl Specifier for B14 {
    open spec fn bit_count() -> nat {
        14
    }

    open spec fn interface_of(raw: u64) -> <() as IntTypeHelperTrait<16>>::Ty {
        raw as u16
    }

    open spec fn raw_of(v: <() as IntTypeHelperTrait<16>>::Ty) -> u64 {
        v as u64
    }

    type InterfaceType = <() as IntTypeHelperTrait<16>>::Ty;

    const BITS: usize = 14;

    fn bits() -> (b: usize) {
        Self::BITS
    }

    fn to_interface_type(v: u64) -> (r: <() as IntTypeHelperTrait<16>>::Ty) {
        v as u16
    }

    fn to_int_type(v: <() as IntTypeHelperTrait<16>>::Ty) -> (r: u64) {
        v as u64
    }

    proof fn lemma_value_from_raw(v: Self::InterfaceType) {
    }
}

/// A field of 15 bits.
pub struct B15;

impl Specifier for B15 {
    open spec fn bit_count() -> nat {
        15
    }

    open spec fn interface_of(raw: u64) -> <() as IntTypeHelperTrait<16>>::Ty {
        raw as u16
    }

    open spec fn raw_of(v: <() as IntTypeHelperTrait<16>>::Ty) -> u64 {
        v as u64
    }

    type InterfaceType = <() as IntTypeHelperTrait<16>>::Ty;

    const BITS: usize = 15;

    fn bits() -> (b: usize) {
        Self::BITS
    }

    fn to_interface_type(v: u64) -> (r: <() as IntTypeHelperTrait<16>>::Ty) {
        v as u16
    }

    fn to_int_type(v: <() as IntTypeHelperTrait<16>>::Ty) -> (r: u64) {
        v as u64
    }

    proof fn lemma_value_from_raw(v: Self::InterfaceType) {
    }
}

/// A field of 16 bits.
pub struct B16;

impl Specifier for B16 {
    open spec fn bit_count() -> nat {
        16
    }

    open spec fn interface_of(raw: u64) -> <() as IntTypeHelperTrait<16>>::Ty {
        raw as u16
    }

    open spec fn raw_of(v: <() as IntTypeHelperTrait<16>>::Ty) -> u64 {
        v as u64
    }

    type InterfaceType = <() as IntTypeHelperTrait<16>>::Ty;

    const BITS: usize = 16;

    fn bits() -> (b: usize) {
        Self::BITS
    }

    fn to_interface_type(v: u64) -> (r: <() as IntTypeHelperTrait<16>>::Ty) {
        v as u16
    }

    fn to_int_type(v: <() as IntTypeHelperTrait<16>>::Ty) -> (r: u64) {
        v as u64
    }

    proof fn lemma_value_from_raw(v: Self::InterfaceType) {
    }
}

/// A field of 17 bits.
pub struct B17;

impl Specifier for B17 {
    open spec fn bit_count() -> nat {
        17
    }

    open spec fn interface_of(raw: u64) -> <() as IntTypeHelperTrait<32>>::Ty {
        raw as u32
    }

    open spec fn raw_of(v: <() as IntTypeHelperTrait<32>>::Ty) -> u64 {
        v as u64
    }

    type InterfaceType = <() as IntTypeHelperTrait<32>>::Ty;

    const BITS: usize = 17;

    fn bits() -> (b: usize) {
        Self::BITS
    }

    fn to_interface_type(v: u64) -> (r: <() as IntTypeHelperTrait<32>>::Ty) {
        v as u32
    }

    fn to_int_type(v: <() as IntTypeHelperTrait<32>>::Ty) -> (r: u64) {
        v as u64
    }

    proof fn lemma_value_from_raw(v: Self::InterfaceType) {
    }
}

/// A field of 18 bits.
pub struct B18;

impl Specifier for B18 {
    open spec fn bit_count() -> nat {
        18
    }

    open spec fn interface_of(raw: u64) -> <() as IntTypeHelperTrait<32>>::Ty {
        raw as u32
    }

    open spec fn raw_of(v: <() as IntTypeHelperTrait<32>>::Ty) -> u64 {
        v as u64
    }

    type InterfaceType = <() as IntTypeHelperTrait<32>>::Ty;

    const BITS: usize = 18;

    fn bits() -> (b: usize) {
        Self::BITS
    }

    fn to_interface_type(v: u64) -> (r: <() as IntTypeHelperTrait<32>>::Ty) {
        v as u32
    }

    fn to_int_type(v: <() as IntTypeHelperTrait<32>>::Ty) -> (r: u64) {
        v as u64
    }

    proof fn lemma_value_from_raw(v: Self::InterfaceType) {
    }
}

/// A field of 19 bits.
pub struct B19;

impl Specifier for B19 {
    open spec fn bit_count() -> nat {
        19
    }

    open spec fn interface_of(raw: u64) -> <() as IntTypeHelperTrait<32>>::Ty {
        raw as u32
    }

    open spec fn raw_of(v: <() as IntTypeHelperTrait<32>>::Ty) -> u64 {
        v as u64
    }

    type InterfaceType = <() as IntTypeHelperTrait<32>>::Ty;

    const BITS: usize = 19;

    fn bits() -> (b: usize) {
        Self::BITS
    }

    fn to_interface_type(v: u64) -> (r: <() as IntTypeHelperTrait<32>>::Ty) {
        v as u32
    }

    fn to_int_type(v: <() as IntTypeHelperTrait<32>>::Ty) -> (r: u64) {
        v as u64
    }

    proof fn lemma_value_from_raw(v: Self::InterfaceType) {
    }
}

/// A field of 20 bits.
pub struct B20;

impl Specifier for B20 {
    open spec fn bit_count() -> nat {
        20
    }

    open spec fn interface_of(raw: u64) -> <() as IntTypeHelperTrait<32>>::Ty {
        raw as u32
    }

    open spec fn raw_of(v: <() as IntTypeHelperTrait<32>>::Ty) -> u64 {
        v as u64
    }

    type InterfaceType = <() as IntTypeHelperTrait<32>>::Ty;

    const BITS: usize = 20;

    fn bits() -> (b: usize) {
        Self::BITS
    }

    fn to_interface_type(v: u64) -> (r: <() as IntTypeHelperTrait<32>>::Ty) {
        v as u32
    }

    fn to_int_type(v: <() as IntTypeHelperTrait<32>>::Ty) -> (r: u64) {
        v as u64
    }

    proof fn lemma_value_from_raw(v: Self::InterfaceType) {
    }
}

/// A field of 21 bits.
pub struct B21;

impl Specifier for B21 {
    open spec fn bit_count() -> nat {
        21
    }

    open spec fn interface_of(raw: u64) -> <() as IntTypeHelperTrait<32>>::Ty {
        raw as u32
    }

    open spec fn raw_of(v: <() as IntTypeHelperTrait<32>>::Ty) -> u64 {
        v as u64
    }

    type InterfaceType = <() as IntTypeHelperTrait<32>>::Ty;

    const BITS: usize = 21;

    fn bits() -> (b: usize) {
        Self::BITS
    }

    fn to_interface_type(v: u64) -> (r: <() as IntTypeHelperTrait<32>>::Ty) {
        v as u32
    }

    fn to_int_type(v: <() as IntTypeHelperTrait<32>>::Ty) -> (r: u64) {
        v as u64
    }

    proof fn lemma_value_from_raw(v: Self::InterfaceType) {
    }
}

/// A field of 22 bits.
pub struct B22;

impl Specifier for B22 {
    open spec fn bit_count() -> nat {
        22
    }

    open spec fn interface_of(raw: u64) -> <() as IntTypeHelperTrait<32>>::Ty {
        raw as u32
    }

    open spec fn raw_of(v: <() as IntTypeHelperTrait<32>>::Ty) -> u64 {
        v as u64
    }

    type InterfaceType = <() as IntTypeHelperTrait<32>>::Ty;

    const BITS: usize = 22;

    fn bits() -> (b: usize) {
        Self::BITS
    }

    fn to_interface_type(v: u64) -> (r: <() as IntTypeHelperTrait<32>>::Ty) {
        v as u32
    }

    fn to_int_type(v: <() as IntTypeHelperTrait<32>>::Ty) -> (r: u64) {
        v as u64
    }

    proof fn lemma_value_from_raw(v: Self::InterfaceType) {
    }
}

/// A field of 23 bits.
pub struct B23;

impl Specifier for B23 {
    open spec fn bit_count() -> nat {
        23
    }

    open spec fn interface_of(raw: u64) -> <() as IntTypeHelperTrait<32>>::Ty {
        raw as u32
    }

    open spec fn raw_of(v: <() as IntTypeHelperTrait<32>>::Ty) -> u64 {
        v as u64
    }

    type InterfaceType = <() as IntTypeHelperTrait<32>>::Ty;

    const BITS: usize = 23;

    fn bits() -> (b: usize) {
        Self::BITS
    }

    fn to_interface_type(v: u64) -> (r: <() as IntTypeHelperTrait<32>>::Ty) {
        v as u32
    }

    fn to_int_type(v: <() as IntTypeHelperTrait<32>>::Ty) -> (r: u64) {
        v as u64
    }

    proof fn lemma_value_from_raw(v: Self::InterfaceType) {
    }
}

/// A field of 24 bits.
pub struct B24;

impl Specifier for B24 {
    open spec fn bit_count() -> nat {
        24
    }

    open spec fn interface_of(raw: u64) -> <() as IntTypeHelperTrait<32>>::Ty {
        raw as u32
    }

    open spec fn raw_of(v: <() as IntTypeHelperTrait<32>>::Ty) -> u64 {
        v as u64
    }

    type InterfaceType = <() as IntTypeHelperTrait<32>>::Ty;

    const BITS: usize = 24;

    fn bits() -> (b: usize) {
        Self::BITS
    }

    fn to_interface_type(v: u64) -> (r: <() as IntTypeHelperTrait<32>>::Ty) {
        v as u32
    }

    fn to_int_type(v: <() as IntTypeHelperTrait<32>>::Ty) -> (r: u64) {
        v as u64
    }

    proof fn lemma_value_from_raw(v: Self::InterfaceType) {
    }
}

/// A field of 25 bits.
pub struct B25;

impl Specifier for B25 {
    open spec fn bit_count() -> nat {
        25
    }

    open spec fn interface_of(raw: u64) -> <() as IntTypeHelperTrait<32>>::Ty {
        raw as u32
    }

    open spec fn raw_of(v: <() as IntTypeHelperTrait<32>>::Ty) -> u64 {
        v as u64
    }

    type InterfaceType = <() as IntTypeHelperTrait<32>>::Ty;

    const BITS: usize = 25;

    fn bits() -> (b: usize) {
        Self::BITS
    }

    fn to_interface_type(v: u64) -> (r: <() as IntTypeHelperTrait<32>>::Ty) {
        v as u32
    }

    fn to_int_type(v: <() as IntTypeHelperTrait<32>>::Ty) -> (r: u64) {
        v as u64
    }

    proof fn lemma_value_from_raw(v: Self::InterfaceType) {
    }
}

/// A field of 26 bits.
pub struct B26;

impl Specifier for B26 {
    open spec fn bit_count() -> nat {
        26
    }

    open spec fn interface_of(raw: u64) -> <() as IntTypeHelperTrait<32>>::Ty {
        raw as u32
    }

    open spec fn raw_of(v: <() as IntTypeHelperTrait<32>>::Ty) -> u64 {
        v as u64
    }

    type InterfaceType = <() as IntTypeHelperTrait<32>>::Ty;

    const BITS: usize = 26;

    fn bits() -> (b: usize) {
        Self::BITS
    }

    fn to_interface_type(v: u64) -> (r: <() as IntTypeHelperTrait<32>>::Ty) {
        v as u32
    }

    fn to_int_type(v: <() as IntTypeHelperTrait<32>>::Ty) -> (r: u64) {
        v as u64
    }

    proof fn lemma_value_from_raw(v: Self::InterfaceType) {
    }
}

/// A field of 27 bits.
pub struct B27;

impl Specifier for B27 {
    open spec fn bit_count() -> nat {
        27
    }

    open spec fn interface_of(raw: u64) -> <() as IntTypeHelperTrait<32>>::Ty {
        raw as u32
    }

    open spec fn raw_of(v: <() as IntTypeHelperTrait<32>>::Ty) -> u64 {
        v as u64
    }

    type InterfaceType = <() as IntTypeHelperTrait<32>>::Ty;

    const BITS: usize = 27;

    fn bits() -> (b: usize) {
        Self::BITS
    }

    fn to_interface_type(v: u64) -> (r: <() as IntTypeHelperTrait<32>>::Ty) {
        v as u32
    }

    fn to_int_type(v: <() as IntTypeHelperTrait<32>>::Ty) -> (r: u64) {
        v as u64
    }

    proof fn lemma_value_from_raw(v: Self::InterfaceType) {
    }
}

/// A field of 28 bits.
pub struct B28;

impl Specifier for B28 {
    open spec fn bit_count() -> nat {
        28
    }

    open spec fn interface_of(raw: u64) -> <() as IntTypeHelperTrait<32>>::Ty {
        raw as u32
    }

    open spec fn raw_of(v: <() as IntTypeHelperTrait<32>>::Ty) -> u64 {
        v as u64
    }

    type InterfaceType = <() as IntTypeHelperTrait<32>>::Ty;

    const BITS: usize = 28;

    fn bits() -> (b: usize) {
        Self::BITS
    }

    fn to_interface_type(v: u64) -> (r: <() as IntTypeHelperTrait<32>>::Ty) {
        v as u32
    }

    fn to_int_type(v: <() as IntTypeHelperTrait<32>>::Ty) -> (r: u64) {
        v as u64
    }

    proof fn lemma_value_from_raw(v: Self::InterfaceType) {
    }
}

/// A field of 29 bits.
pub struct B29;

impl Specifier for B29 {
    open spec fn bit_count() -> nat {
        29
    }

    open spec fn interface_of(raw: u64) -> <() as IntTypeHelperTrait<32>>::Ty {
        raw as u32
    }

    open spec fn raw_of(v: <() as IntTypeHelperTrait<32>>::Ty) -> u64 {
        v as u64
    }

    type InterfaceType = <() as IntTypeHelperTrait<32>>::Ty;

    const BITS: usize = 29;

    fn bits() -> (b: usize) {
        Self::BITS
    }

    fn to_interface_type(v: u64) -> (r: <() as IntTypeHelperTrait<32>>::Ty) {
        v as u32
    }

    fn to_int_type(v: <() as IntTypeHelperTrait<32>>::Ty) -> (r: u64) {
        v as u64
    }

    proof fn lemma_value_from_raw(v: Self::InterfaceType) {
    }
}

/// A field of 30 bits.
pub struct B30;

impl Specifier for B30 {
    open spec fn bit_count() -> nat {
        30
    }

    open spec fn interface_of(raw: u64) -> <() as IntTypeHelperTrait<32>>::Ty {
        raw as u32
    }

    open spec fn raw_of(v: <() as IntTypeHelperTrait<32>>::Ty) -> u64 {
        v as u64
    }

    type InterfaceType = <() as IntTypeHelperTrait<32>>::Ty;

    const BITS: usize = 30;

    fn bits() -> (b: usize) {
        Self::BITS
    }

    fn to_interface_type(v: u64) -> (r: <() as IntTypeHelperTrait<32>>::Ty) {
        v as u32
    }

    fn to_int_type(v: <() as IntTypeHelperTrait<32>>::Ty) -> (r: u64) {
        v as u64
    }

    proof fn lemma_value_from_raw(v: Self::InterfaceType) {
    }
}

/// A field of 31 bits.
pub struct B31;

impl Specifier for B31 {
    open spec fn bit_count() -> nat {
        31
    }

    open spec fn interface_of(raw: u64) -> <() as IntTypeHelperTrait<32>>::Ty {
        raw as u32
    }

    open spec fn raw_of(v: <() as IntTypeHelperTrait<32>>::Ty) -> u64 {
        v as u64
    }

    type InterfaceType = <() as IntTypeHelperTrait<32>>::Ty;

    const BITS: usize = 31;

    fn bits() -> (b: usize) {
        Self::BITS
    }

    fn to_interface_type(v: u64) -> (r: <() as IntTypeHelperTrait<32>>::Ty) {
        v as u32
    }

    fn to_int_type(v: <() as IntTypeHelperTrait<32>>::Ty) -> (r: u64) {
        v as u64
    }

    proof fn lemma_value_from_raw(v: Self::InterfaceType) {
    }
}

/// A field of 32 bits.
pub struct B32;

impl Specifier for B32 {
    open spec fn bit_count() -> nat {
        32
    }

    open spec fn interface_of(raw: u64) -> <() as IntTypeHelperTrait<32>>::Ty {
        raw as u32
    }

    open spec fn raw_of(v: <() as IntTypeHelperTrait<32>>::Ty) -> u64 {
        v as u64
    }

    type InterfaceType = <() as IntTypeHelperTrait<32>>::Ty;

    const BITS: usize = 32;

    fn bits() -> (b: usize) {
        Self::BITS
    }

    fn to_interface_type(v: u64) -> (r: <() as IntTypeHelperTrait<32>>::Ty) {
        v as u32
    }

    fn to_int_type(v: <() as IntTypeHelperTrait<32>>::Ty) -> (r: u64) {
        v as u64
    }

    proof fn lemma_value_from_raw(v: Self::InterfaceType) {
    }
}

/// A field of 33 bits.
pub struct B33;

impl Specifier for B33 {
    open spec fn bit_count() -> nat {
        33
    }

    open spec fn interface_of(raw: u64) -> <() as IntTypeHelperTrait<64>>::Ty {
        raw
    }

    open spec fn raw_of(v: <() as IntTypeHelperTrait<64>>::Ty) -> u64 {
        v
    }

    type InterfaceType = <() as IntTypeHelperTrait<64>>::Ty;

    const BITS: usize = 33;

    fn bits() -> (b: usize) {
        Self::BITS
    }

    fn to_interface_type(v: u64) -> (r: <() as IntTypeHelperTrait<64>>::Ty) {
        v
    }

    fn to_int_type(v: <() as IntTypeHelperTrait<64>>::Ty) -> (r: u64) {
        v
    }

    proof fn lemma_value_from_raw(v: Self::InterfaceType) {
    }
}

/// A field of 34 bits.
pub struct B34;

impl Specifier for B34 {
    open spec fn bit_count() -> nat {
        34
    }

    open spec fn interface_of(raw: u64) -> <() as IntTypeHelperTrait<64>>::Ty {
        raw
    }

    open spec fn raw_of(v: <() as IntTypeHelperTrait<64>>::Ty) -> u64 {
        v
    }

    type InterfaceType = <() as IntTypeHelperTrait<64>>::Ty;

    const BITS: usize = 34;

    fn bits() -> (b: usize) {
        Self::BITS
    }

    fn to_interface_type(v: u64) -> (r: <() as IntTypeHelperTrait<64>>::Ty) {
        v
    }

    fn to_int_type(v: <() as IntTypeHelperTrait<64>>::Ty) -> (r: u64) {
        v
    }

    proof fn lemma_value_from_raw(v: Self::InterfaceType) {
    }
}

/// A field of 35 bits.
pub struct B35;

impl Specifier for B35 {
    open spec fn bit_count() -> nat {
        35
    }

    open spec fn interface_of(raw: u64) -> <() as IntTypeHelperTrait<64>>::Ty {
        raw
    }

    open spec fn raw_of(v: <() as IntTypeHelperTrait<64>>::Ty) -> u64 {
        v
    }

    type InterfaceType = <() as IntTypeHelperTrait<64>>::Ty;

    const BITS: usize = 35;

    fn bits() -> (b: usize) {
        Self::BITS
    }

    fn to_interface_type(v: u64) -> (r: <() as IntTypeHelperTrait<64>>::Ty) {
        v
    }

    fn to_int_type(v: <() as IntTypeHelperTrait<64>>::Ty) -> (r: u64) {
        v
    }

    proof fn lemma_value_from_raw(v: Self::InterfaceType) {
    }
}

/// A field of 36 bits.
pub struct B36;

impl Specifier for B36 {
    open spec fn bit_count() -> nat {
        36
    }

    open spec fn interface_of(raw: u64) -> <() as IntTypeHelperTrait<64>>::Ty {
        raw
    }

    open spec fn raw_of(v: <() as IntTypeHelperTrait<64>>::Ty) -> u64 {
        v
    }

    type InterfaceType = <() as IntTypeHelperTrait<64>>::Ty;

    const BITS: usize = 36;

    fn bits() -> (b: usize) {
        Self::BITS
    }

    fn to_interface_type(v: u64) -> (r: <() as IntTypeHelperTrait<64>>::Ty) {
        v
    }

    fn to_int_type(v: <() as IntTypeHelperTrait<64>>::Ty) -> (r: u64) {
        v
    }

    proof fn lemma_value_from_raw(v: Self::InterfaceType) {
    }
}

/// A field of 37 bits.
pub struct B37;

impl Specifier for B37 {
    open spec fn bit_count() -> nat {
        37
    }

    open spec fn interface_of(raw: u64) -> <() as IntTypeHelperTrait<64>>::Ty {
        raw
    }

    open spec fn raw_of(v: <() as IntTypeHelperTrait<64>>::Ty) -> u64 {
        v
    }

    type InterfaceType = <() as IntTypeHelperTrait<64>>::Ty;

    const BITS: usize = 37;

    fn bits() -> (b: usize) {
        Self::BITS
    }

    fn to_interface_type(v: u64) -> (r: <() as IntTypeHelperTrait<64>>::Ty) {
        v
    }

    fn to_int_type(v: <() as IntTypeHelperTrait<64>>::Ty) -> (r: u64) {
        v
    }

    proof fn lemma_value_from_raw(v: Self::InterfaceType) {
    }
}

/// A field of 38 bits.
pub struct B38;

impl Specifier for B38 {
    open spec fn bit_count() -> nat {
        38
    }

    open spec fn interface_of(raw: u64) -> <() as IntTypeHelperTrait<64>>::Ty {
        raw
    }

    open spec fn raw_of(v: <() as IntTypeHelperTrait<64>>::Ty) -> u64 {
        v
    }

    type InterfaceType = <() as IntTypeHelperTrait<64>>::Ty;

    const BITS: usize = 38;

    fn bits() -> (b: usize) {
        Self::BITS
    }

    fn to_interface_type(v: u64) -> (r: <() as IntTypeHelperTrait<64>>::Ty) {
        v
    }

    fn to_int_type(v: <() as IntTypeHelperTrait<64>>::Ty) -> (r: u64) {
        v
    }

    proof fn lemma_value_from_raw(v: Self::InterfaceType) {
    }
}

/// A field of 39 bits.
pub struct B39;

impl Specifier for B39 {
    open spec fn bit_count() -> nat {
        39
    }

    open spec fn interface_of(raw: u64) -> <() as IntTypeHelperTrait<64>>::Ty {
        raw
    }

    open spec fn raw_of(v: <() as IntTypeHelperTrait<64>>::Ty) -> u64 {
        v
    }

    type InterfaceType = <() as IntTypeHelperTrait<64>>::Ty;

    const BITS: usize = 39;

    fn bits() -> (b: usize) {
        Self::BITS
    }

    fn to_interface_type(v: u64) -> (r: <() as IntTypeHelperTrait<64>>::Ty) {
        v
    }

    fn to_int_type(v: <() as IntTypeHelperTrait<64>>::Ty) -> (r: u64) {
        v
    }

    proof fn lemma_value_from_raw(v: Self::InterfaceType) {
    }
}

/// A field of 40 bits.
pub struct B40;

impl Specifier for B40 {
    open spec fn bit_count() -> nat {
        40
    }

    open spec fn interface_of(raw: u64) -> <() as IntTypeHelperTrait<64>>::Ty {
        raw
    }

    open spec fn raw_of(v: <() as IntTypeHelperTrait<64>>::Ty) -> u64 {
        v
    }

    type InterfaceType = <() as IntTypeHelperTrait<64>>::Ty;

    const BITS: usize = 40;

    fn bits() -> (b: usize) {
        Self::BITS
    }

    fn to_interface_type(v: u64) -> (r: <() as IntTypeHelperTrait<64>>::Ty) {
        v
    }

    fn to_int_type(v: <() as IntTypeHelperTrait<64>>::Ty) -> (r: u64) {
        v
    }

    proof fn lemma_value_from_raw(v: Self::InterfaceType) {
    }
}

/// A field of 41 bits.
pub struct B41;

impl Specifier for B41 {
    open spec fn bit_count() -> nat {
        41
    }

    open spec fn interface_of(raw: u64) -> <() as IntTypeHelperTrait<64>>::Ty {
        raw
    }

    open spec fn raw_of(v: <() as IntTypeHelperTrait<64>>::Ty) -> u64 {
        v
    }

    type InterfaceType = <() as IntTypeHelperTrait<64>>::Ty;

    const BITS: usize = 41;

    fn bits() -> (b: usize) {
        Self::BITS
    }

    fn to_interface_type(v: u64) -> (r: <() as IntTypeHelperTrait<64>>::Ty) {
        v
    }

    fn to_int_type(v: <() as IntTypeHelperTrait<64>>::Ty) -> (r: u64) {
        v
    }

    proof fn lemma_value_from_raw(v: Self::InterfaceType) {
    }
}

/// A field of 42 bits.
pub struct B42;

impl Specifier for B42 {
    open spec fn bit_count() -> nat {
        42
    }

    open spec fn interface_of(raw: u64) -> <() as IntTypeHelperTrait<64>>::Ty {
        raw
    }

    open spec fn raw_of(v: <() as IntTypeHelperTrait<64>>::Ty) -> u64 {
        v
    }

    type InterfaceType = <() as IntTypeHelperTrait<64>>::Ty;

    const BITS: usize = 42;

    fn bits() -> (b: usize) {
        Self::BITS
    }

    fn to_interface_type(v: u64) -> (r: <() as IntTypeHelperTrait<64>>::Ty) {
        v
    }

    fn to_int_type(v: <() as IntTypeHelperTrait<64>>::Ty) -> (r: u64) {
        v
    }

    proof fn lemma_value_from_raw(v: Self::InterfaceType) {
    }
}

/// A field of 43 bits.
pub struct B43;

impl Specifier for B43 {
    open spec fn bit_count() -> nat {
        43
    }

    open spec fn interface_of(raw: u64) -> <() as IntTypeHelperTrait<64>>::Ty {
        raw
    }

    open spec fn raw_of(v: <() as IntTypeHelperTrait<64>>::Ty) -> u64 {
        v
    }

    type InterfaceType = <() as IntTypeHelperTrait<64>>::Ty;

    const BITS: usize = 43;

    fn bits() -> (b: usize) {
        Self::BITS
    }

    fn to_interface_type(v: u64) -> (r: <() as IntTypeHelperTrait<64>>::Ty) {
        v
    }

    fn to_int_type(v: <() as IntTypeHelperTrait<64>>::Ty) -> (r: u64) {
        v
    }

    proof fn lemma_value_from_raw(v: Self::InterfaceType) {
    }
}

/// A field of 44 bits.
pub struct B44;

impl Specifier for B44 {
    open spec fn bit_count() -> nat {
        44
    }

    open spec fn interface_of(raw: u64) -> <() as IntTypeHelperTrait<64>>::Ty {
        raw
    }

    open spec fn raw_of(v: <() as IntTypeHelperTrait<64>>::Ty) -> u64 {
        v
    }

    type InterfaceType = <() as IntTypeHelperTrait<64>>::Ty;

    const BITS: usize = 44;

    fn bits() -> (b: usize) {
        Self::BITS
    }

    fn to_interface_type(v: u64) -> (r: <() as IntTypeHelperTrait<64>>::Ty) {
        v
    }

    fn to_int_type(v: <() as IntTypeHelperTrait<64>>::Ty) -> (r: u64) {
        v
    }

    proof fn lemma_value_from_raw(v: Self::InterfaceType) {
    }
}

/// A field of 45 bits.
pub struct B45;

impl Specifier for B45 {
    open spec fn bit_count() -> nat {
        45
    }

    open spec fn interface_of(raw: u64) -> <() as IntTypeHelperTrait<64>>::Ty {
        raw
    }

    open spec fn raw_of(v: <() as IntTypeHelperTrait<64>>::Ty) -> u64 {
        v
    }

    type InterfaceType = <() as IntTypeHelperTrait<64>>::Ty;

    const BITS: usize = 45;

    fn bits() -> (b: usize) {
        Self::BITS
    }

    fn to_interface_type(v: u64) -> (r: <() as IntTypeHelperTrait<64>>::Ty) {
        v
    }

    fn to_int_type(v: <() as IntTypeHelperTrait<64>>::Ty) -> (r: u64) {
        v
    }

    proof fn lemma_value_from_raw(v: Self::InterfaceType) {
    }
}

/// A field of 46 bits.
pub struct B46;

impl Specifier for B46 {
    open spec fn bit_count() -> nat {
        46
    }

    open spec fn interface_of(raw: u64) -> <() as IntTypeHelperTrait<64>>::Ty {
        raw
    }

    open spec fn raw_of(v: <() as IntTypeHelperTrait<64>>::Ty) -> u64 {
        v
    }

    type InterfaceType = <() as IntTypeHelperTrait<64>>::Ty;

    const BITS: usize = 46;

    fn bits() -> (b: usize) {
        Self::BITS
    }

    fn to_interface_type(v: u64) -> (r: <() as IntTypeHelperTrait<64>>::Ty) {
        v
    }

    fn to_int_type(v: <() as IntTypeHelperTrait<64>>::Ty) -> (r: u64) {
        v
    }

    proof fn lemma_value_from_raw(v: Self::InterfaceType) {
    }
}

/// A field of 47 bits.
pub struct B47;

impl Specifier for B47 {
    open spec fn bit_count() -> nat {
        47
    }

    open spec fn interface_of(raw: u64) -> <() as IntTypeHelperTrait<64>>::Ty {
        raw
    }

    open spec fn raw_of(v: <() as IntTypeHelperTrait<64>>::Ty) -> u64 {
        v
    }

    type InterfaceType = <() as IntTypeHelperTrait<64>>::Ty;

    const BITS: usize = 47;

    fn bits() -> (b: usize) {
        Self::BITS
    }

    fn to_interface_type(v: u64) -> (r: <() as IntTypeHelperTrait<64>>::Ty) {
        v
    }

    fn to_int_type(v: <() as IntTypeHelperTrait<64>>::Ty) -> (r: u64) {
        v
    }

    proof fn lemma_value_from_raw(v: Self::InterfaceType) {
    }
}

/// A field of 48 bits.
pub struct B48;

impl Specifier for B48 {
    open spec fn bit_count() -> nat {
        48
    }

    open spec fn interface_of(raw: u64) -> <() as IntTypeHelperTrait<64>>::Ty {
        raw
    }

    open spec fn raw_of(v: <() as IntTypeHelperTrait<64>>::Ty) -> u64 {
        v
    }

    type InterfaceType = <() as IntTypeHelperTrait<64>>::Ty;

    const BITS: usize = 48;

    fn bits() -> (b: usize) {
        Self::BITS
    }

    fn to_interface_type(v: u64) -> (r: <() as IntTypeHelperTrait<64>>::Ty) {
        v
    }

    fn to_int_type(v: <() as IntTypeHelperTrait<64>>::Ty) -> (r: u64) {
        v
    }

    proof fn lemma_value_from_raw(v: Self::InterfaceType) {
    }
}

/// A field of 49 bits.
pub struct B49;

impl Specifier for B49 {
    open spec fn bit_count() -> nat {
        49
    }

    open spec fn interface_of(raw: u64) -> <() as IntTypeHelperTrait<64>>::Ty {
        raw
    }

    open spec fn raw_of(v: <() as IntTypeHelperTrait<64>>::Ty) -> u64 {
        v
    }

    type InterfaceType = <() as IntTypeHelperTrait<64>>::Ty;

    const BITS: usize = 49;

    fn bits() -> (b: usize) {
        Self::BITS
    }

    fn to_interface_type(v: u64) -> (r: <() as IntTypeHelperTrait<64>>::Ty) {
        v
    }

    fn to_int_type(v: <() as IntTypeHelperTrait<64>>::Ty) -> (r: u64) {
        v
    }

    proof fn lemma_value_from_raw(v: Self::InterfaceType) {
    }
}

/// A field of 50 bits.
pub struct B50;

impl Specifier for B50 {
    open spec fn bit_count() -> nat {
        50
    }

    open spec fn interface_of(raw: u64) -> <() as IntTypeHelperTrait<64>>::Ty {
        raw
    }

    open spec fn raw_of(v: <() as IntTypeHelperTrait<64>>::Ty) -> u64 {
        v
    }

    type InterfaceType = <() as IntTypeHelperTrait<64>>::Ty;

    const BITS: usize = 50;

    fn bits() -> (b: usize) {
        Self::BITS
    }

    fn to_interface_type(v: u64) -> (r: <() as IntTypeHelperTrait<64>>::Ty) {
        v
    }

    fn to_int_type(v: <() as IntTypeHelperTrait<64>>::Ty) -> (r: u64) {
        v
    }

    proof fn lemma_value_from_raw(v: Self::InterfaceType) {
    }
}

/// A field of 51 bits.
pub struct B51;

impl Specifier for B51 {
    open spec fn bit_count() -> nat {
        51
    }

    open spec fn interface_of(raw: u64) -> <() as IntTypeHelperTrait<64>>::Ty {
        raw
    }

    open spec fn raw_of(v: <() as IntTypeHelperTrait<64>>::Ty) -> u64 {
        v
    }

    type InterfaceType = <() as IntTypeHelperTrait<64>>::Ty;

    const BITS: usize = 51;

    fn bits() -> (b: usize) {
        Self::BITS
    }

    fn to_interface_type(v: u64) -> (r: <() as IntTypeHelperTrait<64>>::Ty) {
        v
    }

    fn to_int_type(v: <() as IntTypeHelperTrait<64>>::Ty) -> (r: u64) {
        v
    }

    proof fn lemma_value_from_raw(v: Self::InterfaceType) {
    }
}

/// A field of 52 bits.
pub struct B52;

impl Specifier for B52 {
    open spec fn bit_count() -> nat {
        52
    }

    open spec fn interface_of(raw: u64) -> <() as IntTypeHelperTrait<64>>::Ty {
        raw
    }

    open spec fn raw_of(v: <() as IntTypeHelperTrait<64>>::Ty) -> u64 {
        v
    }

    type InterfaceType = <() as IntTypeHelperTrait<64>>::Ty;

    const BITS: usize = 52;

    fn bits() -> (b: usize) {
        Self::BITS
    }

    fn to_interface_type(v: u64) -> (r: <() as IntTypeHelperTrait<64>>::Ty) {
        v
    }

    fn to_int_type(v: <() as IntTypeHelperTrait<64>>::Ty) -> (r: u64) {
        v
    }

    proof fn lemma_value_from_raw(v: Self::InterfaceType) {
    }
}

/// A field of 53 bits.
pub struct B53;

impl Specifier for B53 {
    open spec fn bit_count() -> nat {
        53
    }

    open spec fn interface_of(raw: u64) -> <() as IntTypeHelperTrait<64>>::Ty {
        raw
    }

    open spec fn raw_of(v: <() as IntTypeHelperTrait<64>>::Ty) -> u64 {
        v
    }

    type InterfaceType = <() as IntTypeHelperTrait<64>>::Ty;

    const BITS: usize = 53;

    fn bits() -> (b: usize) {
        Self::BITS
    }

    fn to_interface_type(v: u64) -> (r: <() as IntTypeHelperTrait<64>>::Ty) {
        v
    }

    fn to_int_type(v: <() as IntTypeHelperTrait<64>>::Ty) -> (r: u64) {
        v
    }

    proof fn lemma_value_from_raw(v: Self::InterfaceType) {
    }
}

/// A field of 54 bits.
pub struct B54;

impl Specifier for B54 {
    open spec fn bit_count() -> nat {
        54
    }

    open spec fn interface_of(raw: u64) -> <() as IntTypeHelperTrait<64>>::Ty {
        raw
    }

    open spec fn raw_of(v: <() as IntTypeHelperTrait<64>>::Ty) -> u64 {
        v
    }

    type InterfaceType = <() as IntTypeHelperTrait<64>>::Ty;

    const BITS: usize = 54;

    fn bits() -> (b: usize) {
        Self::BITS
    }

    fn to_interface_type(v: u64) -> (r: <() as IntTypeHelperTrait<64>>::Ty) {
        v
    }

    fn to_int_type(v: <() as IntTypeHelperTrait<64>>::Ty) -> (r: u64) {
        v
    }

    proof fn lemma_value_from_raw(v: Self::InterfaceType) {
    }
}

/// A field of 55 bits.
pub struct B55;

impl Specifier for B55 {
    open spec fn bit_count() -> nat {
        55
    }

    open spec fn interface_of(raw: u64) -> <() as IntTypeHelperTrait<64>>::Ty {
        raw
    }

    open spec fn raw_of(v: <() as IntTypeHelperTrait<64>>::Ty) -> u64 {
        v
    }

    type InterfaceType = <() as IntTypeHelperTrait<64>>::Ty;

    const BITS: usize = 55;

    fn bits() -> (b: usize) {
        Self::BITS
    }

    fn to_interface_type(v: u64) -> (r: <() as IntTypeHelperTrait<64>>::Ty) {
        v
    }

    fn to_int_type(v: <() as IntTypeHelperTrait<64>>::Ty) -> (r: u64) {
        v
    }

    proof fn lemma_value_from_raw(v: Self::InterfaceType) {
    }
}

/// A field of 56 bits.
pub struct B56;

impl Specifier for B56 {
    open spec fn bit_count() -> nat {
        56
    }

    open spec fn interface_of(raw: u64) -> <() as IntTypeHelperTrait<64>>::Ty {
        raw
    }

    open spec fn raw_of(v: <() as IntTypeHelperTrait<64>>::Ty) -> u64 {
        v
    }

    type InterfaceType = <() as IntTypeHelperTrait<64>>::Ty;

    const BITS: usize = 56;

    fn bits() -> (b: usize) {
        Self::BITS
    }

    fn to_interface_type(v: u64) -> (r: <() as IntTypeHelperTrait<64>>::Ty) {
        v
    }

    fn to_int_type(v: <() as IntTypeHelperTrait<64>>::Ty) -> (r: u64) {
        v
    }

    proof fn lemma_value_from_raw(v: Self::InterfaceType) {
    }
}

/// A field of 57 bits.
pub struct B57;

impl Specifier for B57 {
    open spec fn bit_count() -> nat {
        57
    }

    open spec fn interface_of(raw: u64) -> <() as IntTypeHelperTrait<64>>::Ty {
        raw
    }

    open spec fn raw_of(v: <() as IntTypeHelperTrait<64>>::Ty) -> u64 {
        v
    }

    type InterfaceType = <() as IntTypeHelperTrait<64>>::Ty;

    const BITS: usize = 57;

    fn bits() -> (b: usize) {
        Self::BITS
    }

    fn to_interface_type(v: u64) -> (r: <() as IntTypeHelperTrait<64>>::Ty) {
        v
    }

    fn to_int_type(v: <() as IntTypeHelperTrait<64>>::Ty) -> (r: u64) {
        v
    }

    proof fn lemma_value_from_raw(v: Self::InterfaceType) {
    }
}

/// A field of 58 bits.
pub struct B58;

impl Specifier for B58 {
    open spec fn bit_count() -> nat {
        58
    }

    open spec fn interface_of(raw: u64) -> <() as IntTypeHelperTrait<64>>::Ty {
        raw
    }

    open spec fn raw_of(v: <() as IntTypeHelperTrait<64>>::Ty) -> u64 {
        v
    }

    type InterfaceType = <() as IntTypeHelperTrait<64>>::Ty;

    const BITS: usize = 58;

    fn bits() -> (b: usize) {
        Self::BITS
    }

    fn to_interface_type(v: u64) -> (r: <() as IntTypeHelperTrait<64>>::Ty) {
        v
    }

    fn to_int_type(v: <() as IntTypeHelperTrait<64>>::Ty) -> (r: u64) {
        v
    }

    proof fn lemma_value_from_raw(v: Self::InterfaceType) {
    }
}

/// A field of 59 bits.
pub struct B59;

impl Specifier for B59 {
    open spec fn bit_count() -> nat {
        59
    }

    open spec fn interface_of(raw: u64) -> <() as IntTypeHelperTrait<64>>::Ty {
        raw
    }

    open spec fn raw_of(v: <() as IntTypeHelperTrait<64>>::Ty) -> u64 {
        v
    }

    type InterfaceType = <() as IntTypeHelperTrait<64>>::Ty;

    const BITS: usize = 59;

    fn bits() -> (b: usize) {
        Self::BITS
    }

    fn to_interface_type(v: u64) -> (r: <() as IntTypeHelperTrait<64>>::Ty) {
        v
    }

    fn to_int_type(v: <() as IntTypeHelperTrait<64>>::Ty) -> (r: u64) {
        v
    }

    proof fn lemma_value_from_raw(v: Self::InterfaceType) {
    }
}

/// A field of 60 bits.
pub struct B60;

impl Specifier for B60 {
    open spec fn bit_count() -> nat {
        60
    }

    open spec fn interface_of(raw: u64) -> <() as IntTypeHelperTrait<64>>::Ty {
        raw
    }

    open spec fn raw_of(v: <() as IntTypeHelperTrait<64>>::Ty) -> u64 {
        v
    }

    type InterfaceType = <() as IntTypeHelperTrait<64>>::Ty;

    const BITS: usize = 60;

    fn bits() -> (b: usize) {
        Self::BITS
    }

    fn to_interface_type(v: u64) -> (r: <() as IntTypeHelperTrait<64>>::Ty) {
        v
    }

    fn to_int_type(v: <() as IntTypeHelperTrait<64>>::Ty) -> (r: u64) {
        v
    }

    proof fn lemma_value_from_raw(v: Self::InterfaceType) {
    }
}

/// A field of 61 bits.
pub struct B61;

impl Specifier for B61 {
    open spec fn bit_count() -> nat {
        61
    }

    open spec fn interface_of(raw: u64) -> <() as IntTypeHelperTrait<64>>::Ty {
        raw
    }

    open spec fn raw_of(v: <() as IntTypeHelperTrait<64>>::Ty) -> u64 {
        v
    }

    type InterfaceType = <() as IntTypeHelperTrait<64>>::Ty;

    const BITS: usize = 61;

    fn bits() -> (b: usize) {
        Self::BITS
    }

    fn to_interface_type(v: u64) -> (r: <() as IntTypeHelperTrait<64>>::Ty) {
        v
    }

    fn to_int_type(v: <() as IntTypeHelperTrait<64>>::Ty) -> (r: u64) {
        v
    }

    proof fn lemma_value_from_raw(v: Self::InterfaceType) {
    }
}

/// A field of 62 bits.
pub struct B62;

impl Specifier for B62 {
    open spec fn bit_count() -> nat {
        62
    }

    open spec fn interface_of(raw: u64) -> <() as IntTypeHelperTrait<64>>::Ty {
        raw
    }

    open spec fn raw_of(v: <() as IntTypeHelperTrait<64>>::Ty) -> u64 {
        v
    }

    type InterfaceType = <() as IntTypeHelperTrait<64>>::Ty;

    const BITS: usize = 62;

    fn bits() -> (b: usize) {
        Self::BITS
    }

    fn to_interface_type(v: u64) -> (r: <() as IntTypeHelperTrait<64>>::Ty) {
        v
    }

    fn to_int_type(v: <() as IntTypeHelperTrait<64>>::Ty) -> (r: u64) {
        v
    }

    proof fn lemma_value_from_raw(v: Self::InterfaceType) {
    }
}

/// A field of 63 bits.
pub struct B63;

impl Specifier for B63 {
    open spec fn bit_count() -> nat {
        63
    }

    open spec fn interface_of(raw: u64) -> <() as IntTypeHelperTrait<64>>::Ty {
        raw
    }

    open spec fn raw_of(v: <() as IntTypeHelperTrait<64>>::Ty) -> u64 {
        v
    }

    type InterfaceType = <() as IntTypeHelperTrait<64>>::Ty;

    const BITS: usize = 63;

    fn bits() -> (b: usize) {
        Self::BITS
    }

    fn to_interface_type(v: u64) -> (r: <() as IntTypeHelperTrait<64>>::Ty) {
        v
    }

    fn to_int_type(v: <() as IntTypeHelperTrait<64>>::Ty) -> (r: u64) {
        v
    }

    proof fn lemma_value_from_raw(v: Self::InterfaceType) {
    }
}

/// A field of 64 bits.
pub struct B64;

impl Specifier for B64 {
    open spec fn bit_count() -> nat {
        64
    }

    open spec fn interface_of(raw: u64) -> <() as IntTypeHelperTrait<64>>::Ty {
        raw
    }

    open spec fn raw_of(v: <() as IntTypeHelperTrait<64>>::Ty) -> u64 {
        v
    }

    type InterfaceType = <() as IntTypeHelperTrait<64>>::Ty;

    const BITS: usize = 64;

    fn bits() -> (b: usize) {
        Self::BITS
    }

    fn to_interface_type(v: u64) -> (r: <() as IntTypeHelperTrait<64>>::Ty) {
        v
    }

    fn to_int_type(v: <() as IntTypeHelperTrait<64>>::Ty) -> (r: u64) {
        v
    }

    proof fn lemma_value_from_raw(v: Self::InterfaceType) {
    }
}

} // verus!

verus! {

/// A value written into a cleared field reads back as the value its type
/// shows for the low `bit_count()` bits of the value's raw bits.
pub proof fn law_field_read_after_write<S: Specifier>(
    old: Seq<u8>,
    new: Seq<u8>,
    offset: int,
    v: S::InterfaceType,
)
    requires
        S::bit_count() <= 64,
        0 <= offset,
        offset + S::bit_count() <= 8 * old.len(),
        forall|i: int| 0 <= i < S::bit_count() ==> #[trigger] bit_at(old, offset + i) == 0,
        is_written(old, new, offset, S::bit_count(), S::raw_of(v)),
    ensures
        S::interface_of(bits_value(new, offset, S::bit_count()) as u64) == S::interface_of(
            S::raw_of(v) & low_mask(S::bit_count()),
        ),
{
    law_read_after_write(old, new, offset, S::bit_count(), S::raw_of(v));
}

/// A value that fits its field reads back as itself: after writing `v`
/// into a cleared field of type `S`, whose raw bits fit the field's width,
/// the field shows `v`.
pub proof fn law_specifier_read_after_write<S: Specifier>(
    old: Seq<u8>,
    new: Seq<u8>,
    offset: int,
    v: S::InterfaceType,
)
    requires
        S::bit_count() <= 64,
        0 <= offset,
        offset + S::bit_count() <= 8 * old.len(),
        forall|i: int| 0 <= i < S::bit_count() ==> #[trigger] bit_at(old, offset + i) == 0,
        (S::raw_of(v) as nat) < pow2(S::bit_count()),
        is_written(old, new, offset, S::bit_count(), S::raw_of(v)),
    ensures
        S::interface_of(bits_value(new, offset, S::bit_count()) as u64) == v,
{
    law_read_after_write(old, new, offset, S::bit_count(), S::raw_of(v));
    crate::bits::lemma_low_mask_keeps_small(S::raw_of(v), S::bit_count());
    S::lemma_value_from_raw(v);
}

} // verus!

verus! {

/// A `B1`..`B64` field shows its raw bits as the unsigned number they
/// write, and stores a value as its own bits: raw bits that fit the field
/// show as their number, and the raw bits stored for a value are the value
/// (so an all-zero field reads 0, and a field written with `v` holds the
/// bits of `v`). A `bool` field shows whether its bit is set, and stores 1
/// for `true` and 0 for `false`.
pub proof fn law_bit_types_show_their_bits(raw: u64, v8: u8, v16: u16, v32: u32, v64: u64, b: bool)
    ensures
        <bool as Specifier>::interface_of(raw) == (raw != 0),
        <bool as Specifier>::raw_of(b) == (if b { 1u64 } else { 0u64 }),
        raw < 0x2 ==> B1::interface_of(raw) as u64 == raw,
        B1::raw_of(v8) == v8 as u64,
        raw < 0x4 ==> B2::interface_of(raw) as u64 == raw,
        B2::raw_of(v8) == v8 as u64,
        raw < 0x8 ==> B3::interface_of(raw) as u64 == raw,
        B3::raw_of(v8) == v8 as u64,
        raw < 0x10 ==> B4::interface_of(raw) as u64 == raw,
        B4::raw_of(v8) == v8 as u64,
        raw < 0x20 ==> B5::interface_of(raw) as u64 == raw,
        B5::raw_of(v8) == v8 as u64,
        raw < 0x40 ==> B6::interface_of(raw) as u64 == raw,
        B6::raw_of(v8) == v8 as u64,
        raw < 0x80 ==> B7::interface_of(raw) as u64 == raw,
        B7::raw_of(v8) == v8 as u64,
        raw < 0x100 ==> B8::interface_of(raw) as u64 == raw,
        B8::raw_of(v8) == v8 as u64,
        raw < 0x200 ==> B9::interface_of(raw) as u64 == raw,
        B9::raw_of(v16) == v16 as u64,
        raw < 0x400 ==> B10::interface_of(raw) as u64 == raw,
        B10::raw_of(v16) == v16 as u64,
        raw < 0x800 ==> B11::interface_of(raw) as u64 == raw,
        B11::raw_of(v16) == v16 as u64,
        raw < 0x1000 ==> B12::interface_of(raw) as u64 == raw,
        B12::raw_of(v16) == v16 as u64,
        raw < 0x2000 ==> B13::interface_of(raw) as u64 == raw,
        B13::raw_of(v16) == v16 as u64,
        raw < 0x4000 ==> B14::interface_of(raw) as u64 == raw,
        B14::raw_of(v16) == v16 as u64,
        raw < 0x8000 ==> B15::interface_of(raw) as u64 == raw,
        B15::raw_of(v16) == v16 as u64,
        raw < 0x10000 ==> B16::interface_of(raw) as u64 == raw,
        B16::raw_of(v16) == v16 as u64,
        raw < 0x20000 ==> B17::interface_of(raw) as u64 == raw,
        B17::raw_of(v32) == v32 as u64,
        raw < 0x40000 ==> B18::interface_of(raw) as u64 == raw,
        B18::raw_of(v32) == v32 as u64,
        raw < 0x80000 ==> B19::interface_of(raw) as u64 == raw,
        B19::raw_of(v32) == v32 as u64,
        raw < 0x100000 ==> B20::interface_of(raw) as u64 == raw,
        B20::raw_of(v32) == v32 as u64,
        raw < 0x200000 ==> B21::interface_of(raw) as u64 == raw,
        B21::raw_of(v32) == v32 as u64,
        raw < 0x400000 ==> B22::interface_of(raw) as u64 == raw,
        B22::raw_of(v32) == v32 as u64,
        raw < 0x800000 ==> B23::interface_of(raw) as u64 == raw,
        B23::raw_of(v32) == v32 as u64,
        raw < 0x1000000 ==> B24::interface_of(raw) as u64 == raw,
        B24::raw_of(v32) == v32 as u64,
        raw < 0x2000000 ==> B25::interface_of(raw) as u64 == raw,
        B25::raw_of(v32) == v32 as u64,
        raw < 0x4000000 ==> B26::interface_of(raw) as u64 == raw,
        B26::raw_of(v32) == v32 as u64,
        raw < 0x8000000 ==> B27::interface_of(raw) as u64 == raw,
        B27::raw_of(v32) == v32 as u64,
        raw < 0x10000000 ==> B28::interface_of(raw) as u64 == raw,
        B28::raw_of(v32) == v32 as u64,
        raw < 0x20000000 ==> B29::interface_of(raw) as u64 == raw,
        B29::raw_of(v32) == v32 as u64,
        raw < 0x40000000 ==> B30::interface_of(raw) as u64 == raw,
        B30::raw_of(v32) == v32 as u64,
        raw < 0x80000000 ==> B31::interface_of(raw) as u64 == raw,
        B31::raw_of(v32) == v32 as u64,
        raw < 0x100000000 ==> B32::interface_of(raw) as u64 == raw,
        B32::raw_of(v32) == v32 as u64,
        raw < 0x200000000 ==> B33::interface_of(raw) as u64 == raw,
        B33::raw_of(v64) == v64 as u64,
        raw < 0x400000000 ==> B34::interface_of(raw) as u64 == raw,
        B34::raw_of(v64) == v64 as u64,
        raw < 0x800000000 ==> B35::interface_of(raw) as u64 == raw,
        B35::raw_of(v64) == v64 as u64,
        raw < 0x1000000000 ==> B36::interface_of(raw) as u64 == raw,
        B36::raw_of(v64) == v64 as u64,
        raw < 0x2000000000 ==> B37::interface_of(raw) as u64 == raw,
        B37::raw_of(v64) == v64 as u64,
        raw < 0x4000000000 ==> B38::interface_of(raw) as u64 == raw,
        B38::raw_of(v64) == v64 as u64,
        raw < 0x8000000000 ==> B39::interface_of(raw) as u64 == raw,
        B39::raw_of(v64) == v64 as u64,
        raw < 0x10000000000 ==> B40::interface_of(raw) as u64 == raw,
        B40::raw_of(v64) == v64 as u64,
        raw < 0x20000000000 ==> B41::interface_of(raw) as u64 == raw,
        B41::raw_of(v64) == v64 as u64,
        raw < 0x40000000000 ==> B42::interface_of(raw) as u64 == raw,
        B42::raw_of(v64) == v64 as u64,
        raw < 0x80000000000 ==> B43::interface_of(raw) as u64 == raw,
        B43::raw_of(v64) == v64 as u64,
        raw < 0x100000000000 ==> B44::interface_of(raw) as u64 == raw,
        B44::raw_of(v64) == v64 as u64,
        raw < 0x200000000000 ==> B45::interface_of(raw) as u64 == raw,
        B45::raw_of(v64) == v64 as u64,
        raw < 0x400000000000 ==> B46::interface_of(raw) as u64 == raw,
        B46::raw_of(v64) == v64 as u64,
        raw < 0x800000000000 ==> B47::interface_of(raw) as u64 == raw,
        B47::raw_of(v64) == v64 as u64,
        raw < 0x1000000000000 ==> B48::interface_of(raw) as u64 == raw,
        B48::raw_of(v64) == v64 as u64,
        raw < 0x2000000000000 ==> B49::interface_of(raw) as u64 == raw,
        B49::raw_of(v64) == v64 as u64,
        raw < 0x4000000000000 ==> B50::interface_of(raw) as u64 == raw,
        B50::raw_of(v64) == v64 as u64,
        raw < 0x8000000000000 ==> B51::interface_of(raw) as u64 == raw,
        B51::raw_of(v64) == v64 as u64,
        raw < 0x10000000000000 ==> B52::interface_of(raw) as u64 == raw,
        B52::raw_of(v64) == v64 as u64,
        raw < 0x20000000000000 ==> B53::interface_of(raw) as u64 == raw,
        B53::raw_of(v64) == v64 as u64,
        raw < 0x40000000000000 ==> B54::interface_of(raw) as u64 == raw,
        B54::raw_of(v64) == v64 as u64,
        raw < 0x80000000000000 ==> B55::interface_of(raw) as u64 == raw,
        B55::raw_of(v64) == v64 as u64,
        raw < 0x100000000000000 ==> B56::interface_of(raw) as u64 == raw,
        B56::raw_of(v64) == v64 as u64,
        raw < 0x200000000000000 ==> B57::interface_of(raw) as u64 == raw,
        B57::raw_of(v64) == v64 as u64,
        raw < 0x400000000000000 ==> B58::interface_of(raw) as u64 == raw,
        B58::raw_of(v64) == v64 as u64,
        raw < 0x800000000000000 ==> B59::interface_of(raw) as u64 == raw,
        B59::raw_of(v64) == v64 as u64,
        raw < 0x1000000000000000 ==> B60::interface_of(raw) as u64 == raw,
        B60::raw_of(v64) == v64 as u64,
        raw < 0x2000000000000000 ==> B61::interface_of(raw) as u64 == raw,
        B61::raw_of(v64) == v64 as u64,
        raw < 0x4000000000000000 ==> B62::interface_of(raw) as u64 == raw,
        B62::raw_of(v64) == v64 as u64,
        raw < 0x8000000000000000 ==> B63::interface_of(raw) as u64 == raw,
        B63::raw_of(v64) == v64 as u64,
        B64::interface_of(raw) == raw,
        B64::raw_of(v64) == v64 as u64,
{
}

} // verus!

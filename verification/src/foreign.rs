//! Values as foreign code holds them, and their native counterparts.
//!
//! A scalar is its own counterpart.  A wide string is held as 16-bit units,
//! the last of them zero, with the number of units before the zero and the
//! number of units in all.

use vstd::prelude::*;

verus! {

/// A value with nothing in it.
pub trait ZeroInit: Sized {
    /// Whether `self` is the value with nothing in it.
    spec fn is_zero(&self) -> bool;

    /// The value with nothing in it.
    fn zero_init() -> (r: Self)
        ensures
            r.is_zero(),
    ;
}

/// A foreign value that has a native counterpart.
pub trait FFIToRust {
    /// The native type.
    type Target;

    /// Whether `target` is the native counterpart of `self`.
    spec fn converts_to(&self, target: &Self::Target) -> bool;

    /// The native counterpart of `self`.
    fn to_rust(&self) -> (r: Self::Target)
        ensures
            self.converts_to(&r),
    ;
}

/// A foreign value that can be made from a native one.
pub trait FFIFromRust: Sized {
    /// The native type.
    type From;

    /// Whether `self` is the foreign counterpart of `from`.
    spec fn made_from(&self, from: &Self::From) -> bool;

    /// What a native value must satisfy to be converted.
    spec fn representable(from: &Self::From) -> bool;

    /// The foreign counterpart of `from`.
    fn from_rust(from: &Self::From) -> (r: Self)
        requires
            Self::representable(from),
        ensures
            r.made_from(from),
    ;
}

/// A foreign message.
pub trait RawMessageT: FFIToRust {

}

/// A foreign message made from a native one.
pub trait RawMessageRefT: FFIFromRust {

}

impl ZeroInit for String {
    open spec fn is_zero(&self) -> bool {
        self@.len() == 0
    }

    fn zero_init() -> (r: String) {
        String::new()
    }
}

impl<T> ZeroInit for Vec<T> {
    open spec fn is_zero(&self) -> bool {
        self@.len() == 0
    }

    fn zero_init() -> (r: Vec<T>) {
        Vec::new()
    }
}

impl ZeroInit for i8 {
    open spec fn is_zero(&self) -> bool {
        *self == 0
    }

    fn zero_init() -> (r: i8) {
        0
    }
}

impl FFIToRust for i8 {
    type Target = i8;

    open spec fn converts_to(&self, target: &i8) -> bool {
        *target == *self
    }

    fn to_rust(&self) -> (r: i8) {
        *self
    }
}

impl ZeroInit for i16 {
    open spec fn is_zero(&self) -> bool {
        *self == 0
    }

    fn zero_init() -> (r: i16) {
        0
    }
}

impl FFIToRust for i16 {
    type Target = i16;

    open spec fn converts_to(&self, target: &i16) -> bool {
        *target == *self
    }

    fn to_rust(&self) -> (r: i16) {
        *self
    }
}

impl ZeroInit for i32 {
    open spec fn is_zero(&self) -> bool {
        *self == 0
    }

    fn zero_init() -> (r: i32) {
        0
    }
}

impl FFIToRust for i32 {
    type Target = i32;

    open spec fn converts_to(&self, target: &i32) -> bool {
        *target == *self
    }

    fn to_rust(&self) -> (r: i32) {
        *self
    }
}

impl ZeroInit for i64 {
    open spec fn is_zero(&self) -> bool {
        *self == 0
    }

    fn zero_init() -> (r: i64) {
        0
    }
}

impl FFIToRust for i64 {
    type Target = i64;

    open spec fn converts_to(&self, target: &i64) -> bool {
        *target == *self
    }

    fn to_rust(&self) -> (r: i64) {
        *self
    }
}

impl ZeroInit for u8 {
    open spec fn is_zero(&self) -> bool {
        *self == 0
    }

    fn zero_init() -> (r: u8) {
        0
    }
}

impl FFIToRust for u8 {
    type Target = u8;

    open spec fn converts_to(&self, target: &u8) -> bool {
        *target == *self
    }

    fn to_rust(&self) -> (r: u8) {
        *self
    }
}

impl ZeroInit for u16 {
    open spec fn is_zero(&self) -> bool {
        *self == 0
    }

    fn zero_init() -> (r: u16) {
        0
    }
}

impl FFIToRust for u16 {
    type Target = u16;

    open spec fn converts_to(&self, target: &u16) -> bool {
        *target == *self
    }

    fn to_rust(&self) -> (r: u16) {
        *self
    }
}

impl ZeroInit for u32 {
    open spec fn is_zero(&self) -> bool {
        *self == 0
    }

    fn zero_init() -> (r: u32) {
        0
    }
}

impl FFIToRust for u32 {
    type Target = u32;

    open spec fn converts_to(&self, target: &u32) -> bool {
        *target == *self
    }

    fn to_rust(&self) -> (r: u32) {
        *self
    }
}

impl ZeroInit for u64 {
    open spec fn is_zero(&self) -> bool {
        *self == 0
    }

    fn zero_init() -> (r: u64) {
        0
    }
}

impl FFIToRust for u64 {
    type Target = u64;

    open spec fn converts_to(&self, target: &u64) -> bool {
        *target == *self
    }

    fn to_rust(&self) -> (r: u64) {
        *self
    }
}

impl ZeroInit for bool {
    open spec fn is_zero(&self) -> bool {
        !*self
    }

    fn zero_init() -> (r: bool) {
        false
    }
}

impl FFIToRust for bool {
    type Target = bool;

    open spec fn converts_to(&self, target: &bool) -> bool {
        *target == *self
    }

    fn to_rust(&self) -> (r: bool) {
        *self
    }
}

/// Whether `units` hold a string of `size` units: nothing at all, or a zero
/// behind the first `size` of them.
pub open spec fn closes_at(units: Seq<u16>, size: nat) -> bool {
    if units.len() == 0 {
        size == 0
    } else {
        size < units.len() && units[size as int] == 0
    }
}

/// Tests `closes_at`.
fn is_closed_at(units: &Vec<u16>, size: usize) -> (b: bool)
    ensures
        b == closes_at(units@, size as nat),
{
    if units.len() == 0 {
        size == 0
    } else {
        size < units.len() && units[size] == 0
    }
}

/// The first `size` of `units`.
fn leading_units(units: &Vec<u16>, size: usize) -> (r: Vec<u16>)
    requires
        size <= units@.len(),
    ensures
        r@ == units@.take(size as int),
{
    let mut r: Vec<u16> = Vec::new();
    let mut i: usize = 0;
    while i < size
        invariant
            i <= size <= units@.len(),
            r@ == units@.take(i as int),
        decreases size - i,
    {
        r.push(units[i]);
        assert(units@.take(i + 1) =~= units@.take(i as int).push(units@[i as int]));
        i += 1;
    }
    r
}

/// A wide string that foreign code handed over.  Either it holds nothing,
/// or a zero follows the units of the string, and further units may follow
/// the zero.
#[derive(Debug)]
pub struct FFIWString {
    data: Vec<u16>,
    size: usize,
    capacity: usize,
}

impl View for FFIWString {
    type V = Seq<u16>;

    /// The units before the closing zero.
    closed spec fn view(&self) -> Seq<u16> {
        self.data@.take(self.size as int)
    }
}

impl FFIWString {
    #[verifier::type_invariant]
    closed spec fn wf(&self) -> bool {
        self.data@.len() == self.capacity && closes_at(self.data@, self.size as nat)
    }

    /// All the units that are held, the closing zero among them.
    pub closed spec fn units(&self) -> Seq<u16> {
        self.data@
    }

    /// The string of `size` units that `data` holds, if it holds one.
    pub fn from_units(data: Vec<u16>, size: usize) -> (r: Option<FFIWString>)
        ensures
            r is Some <==> closes_at(data@, size as nat),
            r matches Some(s) ==> s@ == data@.take(size as int) && s.units() == data@,
    {
        if is_closed_at(&data, size) {
            let capacity = data.len();
            Some(FFIWString { data, size, capacity })
        } else {
            None
        }
    }

    /// The number of units, the closing zero not counted.
    pub fn len(&self) -> (n: usize)
        ensures
            n == self@.len(),
    {
        proof {
            use_type_invariant(self);
        }
        self.size
    }

    /// Whether the string has no unit.
    pub fn is_empty(&self) -> (b: bool)
        ensures
            b == (self@.len() == 0),
    {
        self.len() == 0
    }

    /// The number of units that are held in all.
    pub fn capacity(&self) -> (n: usize)
        ensures
            n == self.units().len(),
    {
        proof {
            use_type_invariant(self);
        }
        self.capacity
    }
}

impl ZeroInit for FFIWString {
    open spec fn is_zero(&self) -> bool {
        self@.len() == 0 && self.units().len() == 0
    }

    fn zero_init() -> (r: FFIWString) {
        FFIWString { data: Vec::new(), size: 0, capacity: 0 }
    }
}

impl FFIToRust for FFIWString {
    type Target = Vec<u16>;

    open spec fn converts_to(&self, target: &Vec<u16>) -> bool {
        target@ == self@
    }

    fn to_rust(&self) -> (r: Vec<u16>) {
        proof {
            use_type_invariant(self);
        }
        leading_units(&self.data, self.size)
    }
}

/// A wide string that was made here and is handed to foreign code.  Either
/// it holds nothing, or the units of the string and one zero behind them.
#[derive(Debug)]
pub struct OwnedFFIWString {
    data: Vec<u16>,
    size: usize,
    capacity: usize,
}

impl View for OwnedFFIWString {
    type V = Seq<u16>;

    /// The units before the closing zero.
    closed spec fn view(&self) -> Seq<u16> {
        self.data@.take(self.size as int)
    }
}

impl OwnedFFIWString {
    #[verifier::type_invariant]
    closed spec fn wf(&self) -> bool {
        &&& self.data@.len() == self.capacity
        &&& closes_at(self.data@, self.size as nat)
        &&& self.capacity > 0 ==> self.size + 1 == self.capacity
    }

    /// All the units that are held, the closing zero among them.
    pub closed spec fn units(&self) -> Seq<u16> {
        self.data@
    }

    /// The number of units, the closing zero not counted.
    pub fn len(&self) -> (n: usize)
        ensures
            n == self@.len(),
    {
        proof {
            use_type_invariant(self);
        }
        self.size
    }

    /// Whether the string has no unit.
    pub fn is_empty(&self) -> (b: bool)
        ensures
            b == (self@.len() == 0),
    {
        self.len() == 0
    }

    /// The number of units that are held in all.
    pub fn capacity(&self) -> (n: usize)
        ensures
            n == self.units().len(),
    {
        proof {
            use_type_invariant(self);
        }
        self.capacity
    }

    /// Gives up the units that are held, the closing zero among them.
    pub fn into_units(self) -> (units: Vec<u16>)
        ensures
            units@ == self.units(),
    {
        self.data
    }
}

impl ZeroInit for OwnedFFIWString {
    open spec fn is_zero(&self) -> bool {
        self@.len() == 0 && self.units().len() == 0
    }

    fn zero_init() -> (r: OwnedFFIWString) {
        OwnedFFIWString { data: Vec::new(), size: 0, capacity: 0 }
    }
}

impl FFIFromRust for OwnedFFIWString {
    type From = Vec<u16>;

    /// The units of `from` and one zero behind them.
    open spec fn made_from(&self, from: &Vec<u16>) -> bool {
        self@ == from@ && self.units() == from@.push(0)
    }

    /// There is room for the closing zero.
    open spec fn representable(from: &Vec<u16>) -> bool {
        from@.len() < usize::MAX
    }

    fn from_rust(from: &Vec<u16>) -> (r: OwnedFFIWString) {
        let mut data = from.clone();
        data.push(0);
        let capacity = data.len();
        assert(data@.take(from@.len() as int) =~= from@);
        OwnedFFIWString { data, size: capacity - 1, capacity }
    }
}

} // verus!

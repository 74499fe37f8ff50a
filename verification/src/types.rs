//! The type model: what a field or a constant can be declared as.
//!
//! Types that hold a name own a `String`; contracts speak of them through
//! their views, in which a name is a `Seq<char>`.

use crate::error::ParseError;
use crate::names::{is_field_name, is_message_name};
use crate::text::{str_equal, to_chars};
use vstd::prelude::*;

verus! {

/// A scalar kind.  `Char` and `Byte` are 8-bit unsigned like `U8`, under
/// tags of their own.
#[derive(Clone, Copy, Debug, PartialEq, Eq, Structural)]
pub enum BasicType {
    I8,
    I16,
    I32,
    I64,
    U8,
    U16,
    U32,
    U64,
    F32,
    F64,
    Bool,
    Char,
    Byte,
}

impl BasicType {
    /// Whether values of this kind are integers with a fixed range.
    pub open spec fn is_integer(self) -> bool {
        !(self is F32 || self is F64 || self is Bool)
    }

    /// The least value of an integer kind.
    pub open spec fn min_value(self) -> int
        recommends
            self.is_integer(),
    {
        match self {
            BasicType::I8 => -0x80,
            BasicType::I16 => -0x8000,
            BasicType::I32 => -0x8000_0000,
            BasicType::I64 => -0x8000_0000_0000_0000,
            _ => 0,
        }
    }

    /// The greatest value of an integer kind.
    pub open spec fn max_value(self) -> int
        recommends
            self.is_integer(),
    {
        match self {
            BasicType::I8 => 0x7f,
            BasicType::I16 => 0x7fff,
            BasicType::I32 => 0x7fff_ffff,
            BasicType::I64 => 0x7fff_ffff_ffff_ffff,
            BasicType::U8 | BasicType::Char | BasicType::Byte => 0xff,
            BasicType::U16 => 0xffff,
            BasicType::U32 => 0xffff_ffff,
            BasicType::U64 => 0xffff_ffff_ffff_ffff,
            _ => 0,
        }
    }

    /// Whether a literal of value `v` may be given to this kind: inside the
    /// range of an integer kind, and always for the kinds that are not
    /// integers.
    pub open spec fn admits(self, v: int) -> bool {
        self.is_integer() ==> self.min_value() <= v <= self.max_value()
    }

    /// The keyword that declares this kind.
    pub open spec fn keyword(self) -> Seq<char> {
        match self {
            BasicType::I8 => "int8"@,
            BasicType::I16 => "int16"@,
            BasicType::I32 => "int32"@,
            BasicType::I64 => "int64"@,
            BasicType::U8 => "uint8"@,
            BasicType::U16 => "uint16"@,
            BasicType::U32 => "uint32"@,
            BasicType::U64 => "uint64"@,
            BasicType::F32 => "float32"@,
            BasicType::F64 => "float64"@,
            BasicType::Bool => "bool"@,
            BasicType::Char => "char"@,
            BasicType::Byte => "byte"@,
        }
    }

    /// The kind that `word` declares, if it is a keyword.
    pub open spec fn of_keyword(word: Seq<char>) -> Option<BasicType> {
        if exists|t: BasicType| #[trigger] t.keyword() == word {
            Some(choose|t: BasicType| #[trigger] t.keyword() == word)
        } else {
            None
        }
    }

    /// The keyword that declares this kind.
    pub fn keyword_str(self) -> (word: &'static str)
        ensures
            word@ == self.keyword(),
    {
        match self {
            BasicType::I8 => "int8",
            BasicType::I16 => "int16",
            BasicType::I32 => "int32",
            BasicType::I64 => "int64",
            BasicType::U8 => "uint8",
            BasicType::U16 => "uint16",
            BasicType::U32 => "uint32",
            BasicType::U64 => "uint64",
            BasicType::F32 => "float32",
            BasicType::F64 => "float64",
            BasicType::Bool => "bool",
            BasicType::Char => "char",
            BasicType::Byte => "byte",
        }
    }

    /// Checks that `v` fits this kind.
    pub fn check_integer_range(self, v: i128) -> (r: Result<(), ParseError>)
        ensures
            self.admits(v as int) ==> r == Ok::<(), ParseError>(()),
            !self.admits(v as int) ==> r == Err::<(), ParseError>(
                (ParseError::Range { value: v, target: self }),
            ),
    {
        let fits = match self {
            BasicType::U8 | BasicType::Char | BasicType::Byte => 0 <= v && v <= 0xff,
            BasicType::U16 => 0 <= v && v <= 0xffff,
            BasicType::U32 => 0 <= v && v <= 0xffff_ffff,
            BasicType::U64 => 0 <= v && v <= 0xffff_ffff_ffff_ffff,
            BasicType::I8 => -0x80 <= v && v <= 0x7f,
            BasicType::I16 => -0x8000 <= v && v <= 0x7fff,
            BasicType::I32 => -0x8000_0000 <= v && v <= 0x7fff_ffff,
            BasicType::I64 => -0x8000_0000_0000_0000 <= v && v <= 0x7fff_ffff_ffff_ffff,
            BasicType::F32 | BasicType::F64 | BasicType::Bool => true,
        };
        if fits {
            Ok(())
        } else {
            Err(ParseError::Range { value: v, target: self })
        }
    }

    /// The kind declared by the keyword `s`; `None` where `s` is no keyword.
    pub fn from_str(s: &str) -> (r: Option<BasicType>)
        ensures
            r == BasicType::of_keyword(s@),
    {
        proof {
            lemma_keywords_differ();
        }
        let word = to_chars(s);
        let r = if str_equal(&word, "uint8") {
            Some(BasicType::U8)
        } else if str_equal(&word, "uint16") {
            Some(BasicType::U16)
        } else if str_equal(&word, "uint32") {
            Some(BasicType::U32)
        } else if str_equal(&word, "uint64") {
            Some(BasicType::U64)
        } else if str_equal(&word, "int8") {
            Some(BasicType::I8)
        } else if str_equal(&word, "int16") {
            Some(BasicType::I16)
        } else if str_equal(&word, "int32") {
            Some(BasicType::I32)
        } else if str_equal(&word, "int64") {
            Some(BasicType::I64)
        } else if str_equal(&word, "float32") {
            Some(BasicType::F32)
        } else if str_equal(&word, "float64") {
            Some(BasicType::F64)
        } else if str_equal(&word, "bool") {
            Some(BasicType::Bool)
        } else if str_equal(&word, "char") {
            Some(BasicType::Char)
        } else if str_equal(&word, "byte") {
            Some(BasicType::Byte)
        } else {
            None
        };
        proof {
            match r {
                Some(t) => {
                    assert(t.keyword() == s@);
                },
                None => {
                    assert forall|t: BasicType| #[trigger] t.keyword() != s@ by {}
                },
            }
        }
        r
    }
}

/// No two kinds share a keyword.
pub proof fn lemma_keywords_differ()
    ensures
        forall|a: BasicType, b: BasicType| #[trigger]
            a.keyword() == #[trigger] b.keyword() ==> a == b,
{
    reveal_strlit("int8");
    reveal_strlit("int16");
    reveal_strlit("int32");
    reveal_strlit("int64");
    reveal_strlit("uint8");
    reveal_strlit("uint16");
    reveal_strlit("uint32");
    reveal_strlit("uint64");
    reveal_strlit("float32");
    reveal_strlit("float64");
    reveal_strlit("bool");
    reveal_strlit("char");
    reveal_strlit("byte");
    assert forall|a: BasicType, b: BasicType| #[trigger]
        a.keyword() == #[trigger] b.keyword() implies a == b by {
        let x = a.keyword();
        let y = b.keyword();
        if a != b {
            assert(x.len() != y.len() || x[0] != y[0] || x[3] != y[3] || x[4] != y[4] || x[5]
                != y[5]);
        }
    }
}

/// Every keyword is made of ASCII characters.
pub proof fn lemma_keywords_are_ascii(kind: BasicType)
    ensures
        vstd::utf8::is_ascii_chars(kind.keyword()),
{
    reveal_strlit("int8");
    reveal_strlit("int16");
    reveal_strlit("int32");
    reveal_strlit("int64");
    reveal_strlit("uint8");
    reveal_strlit("uint16");
    reveal_strlit("uint32");
    reveal_strlit("uint64");
    reveal_strlit("float32");
    reveal_strlit("float64");
    reveal_strlit("bool");
    reveal_strlit("char");
    reveal_strlit("byte");
}

/// Every integer kind accepts the two ends of its range and rejects their
/// outer neighbours.
pub proof fn lemma_range_is_exact(t: BasicType)
    requires
        t.is_integer(),
    ensures
        t.admits(t.min_value()),
        t.admits(t.max_value()),
        !t.admits(t.min_value() - 1),
        !t.admits(t.max_value() + 1),
        t.min_value() <= 0 <= t.max_value(),
{
}

/// A type known by its name alone, which no package qualifies yet.
#[derive(Debug, Clone, PartialEq, Eq)]
pub struct NamedType(pub String);

impl View for NamedType {
    type V = Seq<char>;

    open spec fn view(&self) -> Seq<char> {
        self.0@
    }
}

impl NamedType {
    /// The name, as it is written.
    pub fn to_string(&self) -> (r: String)
        ensures
            r@ == self@,
    {
        self.0.clone()
    }
}

/// A type known by its name and the package that owns it.
#[derive(Debug, Clone, PartialEq, Eq)]
pub struct NamespacedType {
    /// The package, such as `std_msgs`.
    pub package_name: String,
    /// The name of the message, such as `Bool`.
    pub name: String,
}

/// What a `NamespacedType` stands for.
pub struct NamespacedTypeView {
    pub package_name: Seq<char>,
    pub name: Seq<char>,
}

impl NamespacedTypeView {
    /// The package has the name of a package, the message that of a
    /// message.
    pub open spec fn wf(self) -> bool {
        is_field_name(self.package_name) && is_message_name(self.name)
    }
}

impl View for NamespacedType {
    type V = NamespacedTypeView;

    open spec fn view(&self) -> NamespacedTypeView {
        NamespacedTypeView { package_name: self.package_name@, name: self.name@ }
    }
}

impl NamespacedType {
    /// The qualified name: the package, `/msg/` and the name.
    pub fn to_string(&self) -> (r: String)
        ensures
            r@ == self.package_name@ + "/msg/"@ + self.name@,
    {
        let mut r = self.package_name.clone();
        r.append("/msg/");
        r.append(self.name.as_str());
        r
    }
}

/// A string type without a bound.
#[derive(Debug, Clone, Copy, PartialEq, Eq, Structural)]
pub enum GenericUnboundedString {
    String,
    WString,
}

/// A string type: narrow or wide, with or without a bound on its length.
#[derive(Debug, Clone, Copy, PartialEq, Eq, Structural)]
pub enum GenericString {
    String,
    WString,
    BoundedString(usize),
    BoundedWString(usize),
}

impl GenericString {
    /// A bound is positive.
    pub open spec fn wf(self) -> bool {
        match self {
            GenericString::BoundedString(n) => n > 0,
            GenericString::BoundedWString(n) => n > 0,
            _ => true,
        }
    }

    /// The unbounded string type that `t` is.
    pub open spec fn of_unbounded(t: GenericUnboundedString) -> GenericString {
        match t {
            GenericUnboundedString::String => GenericString::String,
            GenericUnboundedString::WString => GenericString::WString,
        }
    }
}

impl From<GenericUnboundedString> for GenericString {
    fn from(t: GenericUnboundedString) -> (r: GenericString) {
        match t {
            GenericUnboundedString::String => GenericString::String,
            GenericUnboundedString::WString => GenericString::WString,
        }
    }
}

impl vstd::std_specs::convert::FromSpecImpl<GenericUnboundedString> for GenericString {
    open spec fn obeys_from_spec() -> bool {
        true
    }

    open spec fn from_spec(t: GenericUnboundedString) -> GenericString {
        GenericString::of_unbounded(t)
    }
}

/// A type that an array or a sequence can hold.
#[derive(Debug, Clone, PartialEq, Eq)]
pub enum NestableType {
    BasicType(BasicType),
    NamedType(NamedType),
    NamespacedType(NamespacedType),
    GenericString(GenericString),
}

/// What a `NestableType` stands for.
pub enum NestableTypeView {
    BasicType(BasicType),
    NamedType(Seq<char>),
    NamespacedType(NamespacedTypeView),
    GenericString(GenericString),
}

impl NestableTypeView {
    /// A name is the name of a message, and the bound of a bounded string
    /// is positive.
    pub open spec fn wf(self) -> bool {
        match self {
            NestableTypeView::BasicType(_) => true,
            NestableTypeView::NamedType(name) => is_message_name(name),
            NestableTypeView::NamespacedType(t) => t.wf(),
            NestableTypeView::GenericString(t) => t.wf(),
        }
    }
}

impl View for NestableType {
    type V = NestableTypeView;

    open spec fn view(&self) -> NestableTypeView {
        match self {
            NestableType::BasicType(t) => NestableTypeView::BasicType(*t),
            NestableType::NamedType(t) => NestableTypeView::NamedType(t@),
            NestableType::NamespacedType(t) => NestableTypeView::NamespacedType(t@),
            NestableType::GenericString(t) => NestableTypeView::GenericString(*t),
        }
    }
}

/// A fixed number of elements of one type.
#[derive(Debug, Clone, PartialEq, Eq)]
pub struct Array {
    /// The type of the elements.
    pub value_type: NestableType,
    /// How many there are.
    pub size: usize,
}

/// Any number of elements of one type.
#[derive(Debug, Clone, PartialEq, Eq)]
pub struct Sequence {
    /// The type of the elements.
    pub value_type: NestableType,
}

/// A limited number of elements of one type.
#[derive(Debug, Clone, PartialEq, Eq)]
pub struct BoundedSequence {
    /// The type of the elements.
    pub value_type: NestableType,
    /// How many there can be.
    pub max_size: usize,
}

/// A type that a field can have.
#[derive(Debug, Clone, PartialEq, Eq)]
pub enum MemberType {
    BasicType(BasicType),
    NamedType(NamedType),
    NamespacedType(NamespacedType),
    GenericString(GenericString),
    Array(Array),
    Sequence(Sequence),
    BoundedSequence(BoundedSequence),
}

/// A type that a field can have, under its other name.
pub type FieldType = MemberType;

/// What a `MemberType` stands for: a nestable type, or a collection of
/// elements of a nestable type.
pub enum MemberTypeView {
    Nestable(NestableTypeView),
    Array { value_type: NestableTypeView, size: usize },
    Sequence { value_type: NestableTypeView },
    BoundedSequence { value_type: NestableTypeView, max_size: usize },
}

impl MemberTypeView {
    /// The type of the elements is well formed, and sizes and bounds are
    /// positive.
    pub open spec fn wf(self) -> bool {
        match self {
            MemberTypeView::Nestable(t) => t.wf(),
            MemberTypeView::Array { value_type, size } => value_type.wf() && size > 0,
            MemberTypeView::Sequence { value_type } => value_type.wf(),
            MemberTypeView::BoundedSequence { value_type, max_size } => value_type.wf()
                && max_size > 0,
        }
    }
}

impl View for MemberType {
    type V = MemberTypeView;

    open spec fn view(&self) -> MemberTypeView {
        match self {
            MemberType::BasicType(t) => MemberTypeView::Nestable(NestableTypeView::BasicType(*t)),
            MemberType::NamedType(t) => MemberTypeView::Nestable(NestableTypeView::NamedType(t@)),
            MemberType::NamespacedType(t) => MemberTypeView::Nestable(
                NestableTypeView::NamespacedType(t@),
            ),
            MemberType::GenericString(t) => MemberTypeView::Nestable(
                NestableTypeView::GenericString(*t),
            ),
            MemberType::Array(t) => MemberTypeView::Array {
                value_type: t.value_type@,
                size: t.size,
            },
            MemberType::Sequence(t) => MemberTypeView::Sequence { value_type: t.value_type@ },
            MemberType::BoundedSequence(t) => MemberTypeView::BoundedSequence {
                value_type: t.value_type@,
                max_size: t.max_size,
            },
        }
    }
}

impl MemberType {
    /// The member type that the nestable type `t` is.
    pub open spec fn of_nestable(t: NestableType) -> MemberType {
        match t {
            NestableType::BasicType(t) => MemberType::BasicType(t),
            NestableType::NamedType(t) => MemberType::NamedType(t),
            NestableType::NamespacedType(t) => MemberType::NamespacedType(t),
            NestableType::GenericString(t) => MemberType::GenericString(t),
        }
    }

    /// The constant type that this type is, where it is a scalar kind or an
    /// unbounded string.  No other member type is the type of a constant.
    pub fn to_constant_type(&self) -> (r: Option<ConstantType>)
        ensures
            r == constant_type_of(self@),
    {
        match self {
            MemberType::BasicType(t) => Some(ConstantType::BasicType(*t)),
            MemberType::GenericString(GenericString::String) => Some(
                ConstantType::GenericUnboundedString(GenericUnboundedString::String),
            ),
            MemberType::GenericString(GenericString::WString) => Some(
                ConstantType::GenericUnboundedString(GenericUnboundedString::WString),
            ),
            _ => None,
        }
    }
}

/// Widening a nestable type keeps what it stands for.
pub proof fn lemma_of_nestable_view(t: NestableType)
    ensures
        MemberType::of_nestable(t)@ == MemberTypeView::Nestable(t@),
{
}

impl From<NestableType> for MemberType {
    fn from(t: NestableType) -> (r: MemberType) {
        match t {
            NestableType::BasicType(t) => MemberType::BasicType(t),
            NestableType::NamedType(t) => MemberType::NamedType(t),
            NestableType::NamespacedType(t) => MemberType::NamespacedType(t),
            NestableType::GenericString(t) => MemberType::GenericString(t),
        }
    }
}

impl vstd::std_specs::convert::FromSpecImpl<NestableType> for MemberType {
    open spec fn obeys_from_spec() -> bool {
        true
    }

    open spec fn from_spec(t: NestableType) -> MemberType {
        MemberType::of_nestable(t)
    }
}

/// A type that a constant, or an element of a constant array, can have.
#[derive(Debug, Clone, Copy, PartialEq, Eq, Structural)]
pub enum PrimitiveType {
    BasicType(BasicType),
    GenericUnboundedString(GenericUnboundedString),
}

/// A fixed number of elements of one primitive type.
#[derive(Debug, Clone, Copy, PartialEq, Eq, Structural)]
pub struct PrimitiveArray {
    /// The type of the elements.
    pub value_type: PrimitiveType,
    /// How many there are.
    pub size: usize,
}

/// A type that a constant can have.
#[derive(Debug, Clone, Copy, PartialEq, Eq, Structural)]
pub enum ConstantType {
    BasicType(BasicType),
    GenericUnboundedString(GenericUnboundedString),
    PrimitiveArray(PrimitiveArray),
}

impl ConstantType {
    /// The size of an array is positive.
    pub open spec fn wf(self) -> bool {
        self matches ConstantType::PrimitiveArray(t) ==> t.size > 0
    }

    /// The constant type that the primitive type `t` is.
    pub open spec fn of_primitive(t: PrimitiveType) -> ConstantType {
        match t {
            PrimitiveType::BasicType(t) => ConstantType::BasicType(t),
            PrimitiveType::GenericUnboundedString(t) => ConstantType::GenericUnboundedString(t),
        }
    }
}

impl From<PrimitiveType> for ConstantType {
    fn from(t: PrimitiveType) -> (r: ConstantType) {
        match t {
            PrimitiveType::BasicType(t) => ConstantType::BasicType(t),
            PrimitiveType::GenericUnboundedString(t) => ConstantType::GenericUnboundedString(t),
        }
    }
}

impl vstd::std_specs::convert::FromSpecImpl<PrimitiveType> for ConstantType {
    open spec fn obeys_from_spec() -> bool {
        true
    }

    open spec fn from_spec(t: PrimitiveType) -> ConstantType {
        ConstantType::of_primitive(t)
    }
}

/// The constant type that a member type is: a scalar kind stays what it is,
/// an unbounded string too, and nothing else is the type of a constant.
pub open spec fn constant_type_of(t: MemberTypeView) -> Option<ConstantType> {
    match t {
        MemberTypeView::Nestable(NestableTypeView::BasicType(b)) => Some(
            ConstantType::BasicType(b),
        ),
        MemberTypeView::Nestable(NestableTypeView::GenericString(GenericString::String)) => Some(
            ConstantType::GenericUnboundedString(GenericUnboundedString::String),
        ),
        MemberTypeView::Nestable(NestableTypeView::GenericString(GenericString::WString)) => Some(
            ConstantType::GenericUnboundedString(GenericUnboundedString::WString),
        ),
        _ => None,
    }
}

impl From<BasicType> for NestableType {
    fn from(t: BasicType) -> (r: NestableType) {
        NestableType::BasicType(t)
    }
}

impl vstd::std_specs::convert::FromSpecImpl<BasicType> for NestableType {
    open spec fn obeys_from_spec() -> bool {
        true
    }

    open spec fn from_spec(t: BasicType) -> NestableType {
        NestableType::BasicType(t)
    }
}

impl From<NamedType> for NestableType {
    fn from(t: NamedType) -> (r: NestableType) {
        NestableType::NamedType(t)
    }
}

impl vstd::std_specs::convert::FromSpecImpl<NamedType> for NestableType {
    open spec fn obeys_from_spec() -> bool {
        true
    }

    open spec fn from_spec(t: NamedType) -> NestableType {
        NestableType::NamedType(t)
    }
}

impl From<NamespacedType> for NestableType {
    fn from(t: NamespacedType) -> (r: NestableType) {
        NestableType::NamespacedType(t)
    }
}

impl vstd::std_specs::convert::FromSpecImpl<NamespacedType> for NestableType {
    open spec fn obeys_from_spec() -> bool {
        true
    }

    open spec fn from_spec(t: NamespacedType) -> NestableType {
        NestableType::NamespacedType(t)
    }
}

impl From<GenericString> for NestableType {
    fn from(t: GenericString) -> (r: NestableType) {
        NestableType::GenericString(t)
    }
}

impl vstd::std_specs::convert::FromSpecImpl<GenericString> for NestableType {
    open spec fn obeys_from_spec() -> bool {
        true
    }

    open spec fn from_spec(t: GenericString) -> NestableType {
        NestableType::GenericString(t)
    }
}

impl From<BasicType> for MemberType {
    fn from(t: BasicType) -> (r: MemberType) {
        MemberType::BasicType(t)
    }
}

impl vstd::std_specs::convert::FromSpecImpl<BasicType> for MemberType {
    open spec fn obeys_from_spec() -> bool {
        true
    }

    open spec fn from_spec(t: BasicType) -> MemberType {
        MemberType::BasicType(t)
    }
}

impl From<NamedType> for MemberType {
    fn from(t: NamedType) -> (r: MemberType) {
        MemberType::NamedType(t)
    }
}

impl vstd::std_specs::convert::FromSpecImpl<NamedType> for MemberType {
    open spec fn obeys_from_spec() -> bool {
        true
    }

    open spec fn from_spec(t: NamedType) -> MemberType {
        MemberType::NamedType(t)
    }
}

impl From<NamespacedType> for MemberType {
    fn from(t: NamespacedType) -> (r: MemberType) {
        MemberType::NamespacedType(t)
    }
}

impl vstd::std_specs::convert::FromSpecImpl<NamespacedType> for MemberType {
    open spec fn obeys_from_spec() -> bool {
        true
    }

    open spec fn from_spec(t: NamespacedType) -> MemberType {
        MemberType::NamespacedType(t)
    }
}

impl From<GenericString> for MemberType {
    fn from(t: GenericString) -> (r: MemberType) {
        MemberType::GenericString(t)
    }
}

impl vstd::std_specs::convert::FromSpecImpl<GenericString> for MemberType {
    open spec fn obeys_from_spec() -> bool {
        true
    }

    open spec fn from_spec(t: GenericString) -> MemberType {
        MemberType::GenericString(t)
    }
}

impl From<Array> for MemberType {
    fn from(t: Array) -> (r: MemberType) {
        MemberType::Array(t)
    }
}

impl vstd::std_specs::convert::FromSpecImpl<Array> for MemberType {
    open spec fn obeys_from_spec() -> bool {
        true
    }

    open spec fn from_spec(t: Array) -> MemberType {
        MemberType::Array(t)
    }
}

impl From<Sequence> for MemberType {
    fn from(t: Sequence) -> (r: MemberType) {
        MemberType::Sequence(t)
    }
}

impl vstd::std_specs::convert::FromSpecImpl<Sequence> for MemberType {
    open spec fn obeys_from_spec() -> bool {
        true
    }

    open spec fn from_spec(t: Sequence) -> MemberType {
        MemberType::Sequence(t)
    }
}

impl From<BoundedSequence> for MemberType {
    fn from(t: BoundedSequence) -> (r: MemberType) {
        MemberType::BoundedSequence(t)
    }
}

impl vstd::std_specs::convert::FromSpecImpl<BoundedSequence> for MemberType {
    open spec fn obeys_from_spec() -> bool {
        true
    }

    open spec fn from_spec(t: BoundedSequence) -> MemberType {
        MemberType::BoundedSequence(t)
    }
}

impl From<BasicType> for PrimitiveType {
    fn from(t: BasicType) -> (r: PrimitiveType) {
        PrimitiveType::BasicType(t)
    }
}

impl vstd::std_specs::convert::FromSpecImpl<BasicType> for PrimitiveType {
    open spec fn obeys_from_spec() -> bool {
        true
    }

    open spec fn from_spec(t: BasicType) -> PrimitiveType {
        PrimitiveType::BasicType(t)
    }
}

impl From<GenericUnboundedString> for PrimitiveType {
    fn from(t: GenericUnboundedString) -> (r: PrimitiveType) {
        PrimitiveType::GenericUnboundedString(t)
    }
}

impl vstd::std_specs::convert::FromSpecImpl<GenericUnboundedString> for PrimitiveType {
    open spec fn obeys_from_spec() -> bool {
        true
    }

    open spec fn from_spec(t: GenericUnboundedString) -> PrimitiveType {
        PrimitiveType::GenericUnboundedString(t)
    }
}

impl From<BasicType> for ConstantType {
    fn from(t: BasicType) -> (r: ConstantType) {
        ConstantType::BasicType(t)
    }
}

impl vstd::std_specs::convert::FromSpecImpl<BasicType> for ConstantType {
    open spec fn obeys_from_spec() -> bool {
        true
    }

    open spec fn from_spec(t: BasicType) -> ConstantType {
        ConstantType::BasicType(t)
    }
}

impl From<GenericUnboundedString> for ConstantType {
    fn from(t: GenericUnboundedString) -> (r: ConstantType) {
        ConstantType::GenericUnboundedString(t)
    }
}

impl vstd::std_specs::convert::FromSpecImpl<GenericUnboundedString> for ConstantType {
    open spec fn obeys_from_spec() -> bool {
        true
    }

    open spec fn from_spec(t: GenericUnboundedString) -> ConstantType {
        ConstantType::GenericUnboundedString(t)
    }
}

impl From<PrimitiveArray> for ConstantType {
    fn from(t: PrimitiveArray) -> (r: ConstantType) {
        ConstantType::PrimitiveArray(t)
    }
}

impl vstd::std_specs::convert::FromSpecImpl<PrimitiveArray> for ConstantType {
    open spec fn obeys_from_spec() -> bool {
        true
    }

    open spec fn from_spec(t: PrimitiveArray) -> ConstantType {
        ConstantType::PrimitiveArray(t)
    }
}

} // verus!

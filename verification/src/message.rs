//! What a parsed definition holds: fields, constants, and the messages,
//! services and actions made of them.

use crate::names::{is_constant_name, is_field_name};
use crate::parser::literal::is_value_of;
use crate::types::{ConstantType, MemberType, MemberTypeView, NestableTypeView};
use vstd::prelude::*;

verus! {

/// A field of a message.
#[derive(Debug, Clone, PartialEq, Eq)]
pub struct Field {
    /// The name of the field.
    pub name: String,
    /// Its type.
    pub ty: MemberType,
    /// The text of its default value, where it has one.
    pub default: Option<String>,
}

/// A field, under its other name.
pub type Member = Field;

/// What a `Field` stands for.
pub struct FieldView {
    pub name: Seq<char>,
    pub ty: MemberTypeView,
    pub default: Option<Seq<char>>,
}

impl FieldView {
    /// The name is a field name and the type is well formed.  Only a field
    /// of a scalar kind has a default, which is then the text of a literal
    /// of a value that the kind can hold.
    pub open spec fn wf(self) -> bool {
        &&& is_field_name(self.name)
        &&& self.ty.wf()
        &&& self.default matches Some(text) ==> {
            &&& self.ty matches MemberTypeView::Nestable(NestableTypeView::BasicType(kind))
            &&& is_value_of(kind, text)
        }
    }
}

impl View for Field {
    type V = FieldView;

    open spec fn view(&self) -> FieldView {
        FieldView {
            name: self.name@,
            ty: self.ty@,
            default: match self.default {
                Some(text) => Some(text@),
                None => None,
            },
        }
    }
}

/// A constant of a message.
#[derive(Debug, Clone, PartialEq, Eq)]
pub struct Constant {
    /// The name of the constant.
    pub name: String,
    /// Its type.
    pub ty: ConstantType,
    /// The text of its value.
    pub value: String,
}

/// What a `Constant` stands for.
pub struct ConstantView {
    pub name: Seq<char>,
    pub ty: ConstantType,
    pub value: Seq<char>,
}

impl ConstantView {
    /// The name is a constant name and the type is well formed.  The value
    /// of a constant of a scalar kind is the text of a literal of a value
    /// that the kind can hold.
    pub open spec fn wf(self) -> bool {
        &&& is_constant_name(self.name)
        &&& self.ty.wf()
        &&& self.ty matches ConstantType::BasicType(kind) ==> is_value_of(kind, self.value)
    }
}

impl View for Constant {
    type V = ConstantView;

    open spec fn view(&self) -> ConstantView {
        ConstantView { name: self.name@, ty: self.ty, value: self.value@ }
    }
}

/// A message: its fields and its constants, each in the order of the text.
#[derive(Debug, Clone, PartialEq, Eq)]
pub struct MsgSpec {
    /// The package that the message belongs to.
    pub package: String,
    /// The name of the message.
    pub name: String,
    /// The fields.
    pub fields: Vec<Field>,
    /// The constants.
    pub constants: Vec<Constant>,
}

/// A message, under its other name.
pub type Message = MsgSpec;

/// What a `MsgSpec` stands for.
pub struct MsgSpecView {
    pub package: Seq<char>,
    pub name: Seq<char>,
    pub fields: Seq<FieldView>,
    pub constants: Seq<ConstantView>,
}

impl MsgSpecView {
    /// Every field and every constant is well formed.
    pub open spec fn wf(self) -> bool {
        &&& forall|i: int| 0 <= i < self.fields.len() ==> (#[trigger] self.fields[i]).wf()
        &&& forall|i: int| 0 <= i < self.constants.len() ==> (#[trigger] self.constants[i]).wf()
    }
}

impl View for MsgSpec {
    type V = MsgSpecView;

    open spec fn view(&self) -> MsgSpecView {
        MsgSpecView {
            package: self.package@,
            name: self.name@,
            fields: self.fields@.map_values(|f: Field| f@),
            constants: self.constants@.map_values(|c: Constant| c@),
        }
    }
}

/// A service: the message that asks and the message that answers.
#[derive(Debug, Clone, PartialEq, Eq)]
pub struct SrvSpec {
    /// The package that the service belongs to.
    pub package: String,
    /// The name of the service.
    pub name: String,
    /// The request.
    pub request: MsgSpec,
    /// The response.
    pub response: MsgSpec,
}

/// A service, under its other name.
pub type Service = SrvSpec;

/// What a `SrvSpec` stands for.
pub struct SrvSpecView {
    pub package: Seq<char>,
    pub name: Seq<char>,
    pub request: MsgSpecView,
    pub response: MsgSpecView,
}

impl SrvSpecView {
    /// The two messages are well formed and belong to the package of the
    /// service.
    pub open spec fn wf(self) -> bool {
        &&& self.request.wf()
        &&& self.response.wf()
        &&& self.request.package == self.package
        &&& self.response.package == self.package
    }
}

impl View for SrvSpec {
    type V = SrvSpecView;

    open spec fn view(&self) -> SrvSpecView {
        SrvSpecView {
            package: self.package@,
            name: self.name@,
            request: self.request@,
            response: self.response@,
        }
    }
}

/// An action: the messages of its goal, its result and its feedback.
#[derive(Debug, Clone, PartialEq, Eq)]
pub struct ActionSpec {
    /// The package that the action belongs to.
    pub package: String,
    /// The name of the action.
    pub name: String,
    /// The goal.
    pub goal: MsgSpec,
    /// The result.
    pub result: MsgSpec,
    /// The feedback.
    pub feedback: MsgSpec,
}

/// An action, under its other name.
pub type Action = ActionSpec;

/// What an `ActionSpec` stands for.
pub struct ActionSpecView {
    pub package: Seq<char>,
    pub name: Seq<char>,
    pub goal: MsgSpecView,
    pub result: MsgSpecView,
    pub feedback: MsgSpecView,
}

impl ActionSpecView {
    /// The three messages are well formed and belong to the package of the
    /// action.
    pub open spec fn wf(self) -> bool {
        &&& self.goal.wf()
        &&& self.result.wf()
        &&& self.feedback.wf()
        &&& self.goal.package == self.package
        &&& self.result.package == self.package
        &&& self.feedback.package == self.package
    }
}

impl View for ActionSpec {
    type V = ActionSpecView;

    open spec fn view(&self) -> ActionSpecView {
        ActionSpecView {
            package: self.package@,
            name: self.name@,
            goal: self.goal@,
            result: self.result@,
            feedback: self.feedback@,
        }
    }
}

} // verus!

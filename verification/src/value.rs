//! The typed values the engine produces: one per leaf field, in schema order.

use vstd::prelude::*;

verus! {

/// A typed payload, tagged by the kind of the field it was extracted from.
pub enum FieldPayload {
    /// Free text, possibly empty.
    Text(String),
    /// A numeric value.
    Number(i64),
    /// A yes/no value.
    Boolean(bool),
    /// The text of the one chosen option.
    SingleChoice(String),
    /// The texts of the chosen options, in option declaration order.
    MultiChoice(Vec<String>),
}

/// The mathematical model of a payload.
pub enum PayloadModel {
    Text(Seq<char>),
    Number(int),
    Boolean(bool),
    SingleChoice(Seq<char>),
    MultiChoice(Seq<Seq<char>>),
}

impl View for FieldPayload {
    type V = PayloadModel;

    open spec fn view(&self) -> PayloadModel {
        match self {
            FieldPayload::Text(s) => PayloadModel::Text(s@),
            FieldPayload::Number(n) => PayloadModel::Number(*n as int),
            FieldPayload::Boolean(b) => PayloadModel::Boolean(*b),
            FieldPayload::SingleChoice(s) => PayloadModel::SingleChoice(s@),
            FieldPayload::MultiChoice(v) => PayloadModel::MultiChoice(
                v@.map_values(|s: String| s@),
            ),
        }
    }
}

/// One extracted value: the emitted key (qualified by the parent group's name
/// when the field sat inside a group) and the typed payload.
pub struct ExtractedValue {
    pub key: String,
    pub payload: FieldPayload,
}

/// The mathematical model of one extracted value.
pub struct ValueModel {
    pub key: Seq<char>,
    pub payload: PayloadModel,
}

impl View for ExtractedValue {
    type V = ValueModel;

    open spec fn view(&self) -> ValueModel {
        ValueModel { key: self.key@, payload: self.payload@ }
    }
}

/// The models of a run of extracted values, in order.
pub open spec fn values_model(vs: Seq<ExtractedValue>) -> Seq<ValueModel> {
    vs.map_values(|v: ExtractedValue| v@)
}

} // verus!

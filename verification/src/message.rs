//! What the decoder hands on: parameter definitions and parameter values.

use vstd::prelude::*;
use crate::timestamp::DateTime;

verus! {

/// The value of a parameter, as its type asks.
#[derive(Debug, PartialEq, Eq)]
pub enum EngValue {
    /// A float, kept as the float literal that the meter sent.
    Float(String),
    /// A signed integer.
    Integer(i64),
    /// A text.
    Text(String),
}

/// An [`EngValue`] with its texts as character sequences.
pub enum EngValueModel {
    /// A float, kept as the float literal that the meter sent.
    Float(Seq<char>),
    /// A signed integer.
    Integer(i64),
    /// A text.
    Text(Seq<char>),
}

impl View for EngValue {
    type V = EngValueModel;

    open spec fn view(&self) -> EngValueModel {
        match self {
            EngValue::Float(t) => EngValueModel::Float(t@),
            EngValue::Integer(v) => EngValueModel::Integer(*v),
            EngValue::Text(t) => EngValueModel::Text(t@),
        }
    }
}

/// One value of one parameter.
#[derive(Debug, PartialEq, Eq)]
pub struct ParameterValue {
    /// The id of the parameter.
    pub id: u32,
    /// The value in engineering units.
    pub eng_value: EngValue,
}

/// A [`ParameterValue`] with its texts as character sequences.
pub struct ParameterValueModel {
    /// The id of the parameter.
    pub id: u32,
    /// The value in engineering units.
    pub eng_value: EngValueModel,
}

impl View for ParameterValue {
    type V = ParameterValueModel;

    open spec fn view(&self) -> ParameterValueModel {
        ParameterValueModel { id: self.id, eng_value: self.eng_value@ }
    }
}

/// What a consumer has to know of a parameter before it gets values of it.
#[derive(Debug, PartialEq, Eq)]
pub struct ParameterDefinition {
    /// The name of the parameter.
    pub relative_name: String,
    /// What the parameter measures, in words.
    pub description: String,
    /// The unit of its values, if the meter sent one.
    pub unit: Option<String>,
    /// The name of its value type.
    pub ptype: String,
    /// Whether the parameter can be set. Meter readings cannot.
    pub writable: bool,
    /// The id under which its values come.
    pub id: u32,
}

/// A [`ParameterDefinition`] with its texts as character sequences.
pub struct ParameterDefinitionModel {
    /// The name of the parameter.
    pub relative_name: Seq<char>,
    /// What the parameter measures, in words.
    pub description: Seq<char>,
    /// The unit of its values, if the meter sent one.
    pub unit: Option<Seq<char>>,
    /// The name of its value type.
    pub ptype: Seq<char>,
    /// Whether the parameter can be set.
    pub writable: bool,
    /// The id under which its values come.
    pub id: u32,
}

/// The text that an optional string holds.
pub open spec fn optional_text(o: Option<String>) -> Option<Seq<char>> {
    match o {
        Some(s) => Some(s@),
        None => None,
    }
}

impl View for ParameterDefinition {
    type V = ParameterDefinitionModel;

    open spec fn view(&self) -> ParameterDefinitionModel {
        ParameterDefinitionModel {
            relative_name: self.relative_name@,
            description: self.description@,
            unit: optional_text(self.unit),
            ptype: self.ptype@,
            writable: self.writable,
            id: self.id,
        }
    }
}

/// The values that one telegram gave.
#[derive(Debug, PartialEq, Eq)]
pub struct ParameterData {
    /// The values, in the order of the telegram's lines.
    pub parameters: Vec<ParameterValue>,
    /// The group that the values belong to.
    pub group: String,
    /// The number of this batch: one more than that of the batch before.
    pub seq_num: u32,
    /// The time that the telegram itself states, if it states one. Without
    /// it the values count as generated when the telegram was received.
    pub generation_time: Option<DateTime>,
}

/// A [`ParameterData`] with its texts as character sequences.
pub struct ParameterDataModel {
    /// The values, in the order of the telegram's lines.
    pub parameters: Seq<ParameterValueModel>,
    /// The group that the values belong to.
    pub group: Seq<char>,
    /// The number of this batch.
    pub seq_num: u32,
    /// The time that the telegram itself states, if it states one.
    pub generation_time: Option<DateTime>,
}

/// The models of a sequence of values.
pub open spec fn value_models(v: Seq<ParameterValue>) -> Seq<ParameterValueModel> {
    Seq::new(v.len(), |k: int| v[k]@)
}

/// The models of a sequence of definitions.
pub open spec fn definition_models(v: Seq<ParameterDefinition>) -> Seq<ParameterDefinitionModel> {
    Seq::new(v.len(), |k: int| v[k]@)
}

impl View for ParameterData {
    type V = ParameterDataModel;

    open spec fn view(&self) -> ParameterDataModel {
        ParameterDataModel {
            parameters: value_models(self.parameters@),
            group: self.group@,
            seq_num: self.seq_num,
            generation_time: self.generation_time,
        }
    }
}

} // verus!

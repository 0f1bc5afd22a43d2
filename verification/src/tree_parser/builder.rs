//! The finding builder: assembles a raw match into a typed `Finding`,
//! normalizing empty payload lists away.

use crate::indexer::{opt_str_v, params_v, strs_v, Finding, Parameter};
use crate::syntax::{Behavior, EntityType};
use crate::Range;
use vstd::prelude::*;

verus! {

/// A `Finding` under construction: the four required parts fixed at
/// creation, the payload added step by step.
#[derive(Debug)]
pub struct FindingBuilder {
    pub key: String,
    pub entity: EntityType,
    pub behavior: Behavior,
    pub range: Range,
    pub parameters: Option<Vec<Parameter>>,
    pub return_type: Option<String>,
    pub fields: Option<Vec<Parameter>>,
    pub attributes: Option<Vec<String>>,
}

impl FindingBuilder {
    /// Starts a finding from its required parts; all payload is absent.
    pub fn new(key: String, entity: EntityType, behavior: Behavior, range: Range) -> (r: Self)
        ensures
            r.key@ == key@,
            r.entity == entity,
            r.behavior == behavior,
            r.range == range,
            r.parameters is None,
            r.return_type is None,
            r.fields is None,
            r.attributes is None,
    {
        FindingBuilder {
            key,
            entity,
            behavior,
            range,
            parameters: None,
            return_type: None,
            fields: None,
            attributes: None,
        }
    }

    /// Sets the parameter list as given, present or absent.
    pub fn with_parameters_opt(self, parameters: Option<Vec<Parameter>>) -> (r: Self)
        ensures
            r == (Self { parameters, ..self }),
    {
        Self { parameters, ..self }
    }

    /// Sets the return type as given, present or absent.
    pub fn with_return_type_opt(self, return_type: Option<String>) -> (r: Self)
        ensures
            r == (Self { return_type, ..self }),
    {
        Self { return_type, ..self }
    }

    /// Sets the field list; an empty list means no fields at all.
    pub fn with_fields(self, fields: Vec<Parameter>) -> (r: Self)
        ensures
            fields@.len() == 0 ==> r == (Self { fields: None, ..self }),
            fields@.len() > 0 ==> r == (Self { fields: Some(fields), ..self }),
    {
        if fields.len() == 0 {
            Self { fields: None, ..self }
        } else {
            Self { fields: Some(fields), ..self }
        }
    }

    /// Sets the attribute list; an empty list means no attributes at all.
    pub fn with_attributes(self, attributes: Vec<String>) -> (r: Self)
        ensures
            attributes@.len() == 0 ==> r == (Self { attributes: None, ..self }),
            attributes@.len() > 0 ==> r == (Self { attributes: Some(attributes), ..self }),
    {
        if attributes.len() == 0 {
            Self { attributes: None, ..self }
        } else {
            Self { attributes: Some(attributes), ..self }
        }
    }

    /// Finishes the finding.
    pub fn build(self) -> (r: Finding)
        ensures
            r.key@ == self.key@,
            r.entity == self.entity,
            r.behavior == self.behavior,
            r.range == self.range,
            params_v(r.parameters) == params_v(self.parameters),
            opt_str_v(r.return_type) == opt_str_v(self.return_type),
            params_v(r.fields) == params_v(self.fields),
            strs_v(r.attributes) == strs_v(self.attributes),
    {
        Finding {
            key: self.key,
            entity: self.entity,
            behavior: self.behavior,
            range: self.range,
            parameters: self.parameters,
            return_type: self.return_type,
            fields: self.fields,
            attributes: self.attributes,
        }
    }
}

} // verus!

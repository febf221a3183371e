//! Structured error types.

use crate::text::{dec_nat, push_str, usize_to_string};
use vstd::prelude::*;

verus! {

/// One descriptor-validation failure: where (a dotted location such as
/// `args[2].when.arg`) and what.
#[derive(Debug, Clone, PartialEq, Eq)]
pub struct DescriptorError {
    pub at: String,
    pub message: String,
}

/// One argument-validation failure, keyed by the argument's name.
#[derive(Debug, Clone, PartialEq)]
pub struct ValidationError {
    pub field: String,
    pub message: String,
}

/// The (location or field, message) pairs of a list of errors.
pub open spec fn descriptor_error_views(v: Seq<DescriptorError>) -> Seq<(Seq<char>, Seq<char>)> {
    Seq::new(v.len(), |i: int| (v[i].at@, v[i].message@))
}

/// The (field, message) pairs of a list of validation errors.
pub open spec fn validation_error_views(v: Seq<ValidationError>) -> Seq<(Seq<char>, Seq<char>)> {
    Seq::new(v.len(), |i: int| (v[i].field@, v[i].message@))
}

impl DescriptorError {
    /// `<at>: <message>`, the error's display text.
    pub fn to_message(&self) -> (m: String)
        ensures
            m@ == self.at@ + ": "@ + self.message@,
    {
        let mut m = String::new();
        push_str(&mut m, self.at.as_str());
        push_str(&mut m, ": ");
        push_str(&mut m, self.message.as_str());
        m
    }
}

impl ValidationError {
    /// `<field>: <message>`, the error's display text.
    pub fn to_message(&self) -> (m: String)
        ensures
            m@ == self.field@ + ": "@ + self.message@,
    {
        let mut m = String::new();
        push_str(&mut m, self.field.as_str());
        push_str(&mut m, ": ");
        push_str(&mut m, self.message.as_str());
        m
    }
}

/// Crate-level error. Execution failures are reported as outcomes, not this.
#[derive(Debug)]
pub enum CoreError {
    Descriptor(Vec<DescriptorError>),
    Validation(Vec<ValidationError>),
    Template(String),
    Io(String),
}

impl CoreError {
    /// The error's display text.
    pub fn message(&self) -> (m: String)
        ensures
            self matches CoreError::Descriptor(e) ==> m@ == "descriptor invalid ("@ + dec_nat(e@.len())
                + " problems)"@,
            self matches CoreError::Validation(e) ==> m@ == "argument validation failed ("@ + dec_nat(
                e@.len(),
            ) + " problems)"@,
            self matches CoreError::Template(t) ==> m@ == "template error: "@ + t@,
            self matches CoreError::Io(t) ==> m@ == t@,
    {
        let mut m = String::new();
        match self {
            CoreError::Descriptor(e) => {
                push_str(&mut m, "descriptor invalid (");
                let n = usize_to_string(e.len());
                push_str(&mut m, n.as_str());
                push_str(&mut m, " problems)");
            },
            CoreError::Validation(e) => {
                push_str(&mut m, "argument validation failed (");
                let n = usize_to_string(e.len());
                push_str(&mut m, n.as_str());
                push_str(&mut m, " problems)");
            },
            CoreError::Template(t) => {
                push_str(&mut m, "template error: ");
                push_str(&mut m, t.as_str());
            },
            CoreError::Io(t) => push_str(&mut m, t.as_str()),
        }
        m
    }
}

} // verus!

//! The ways in which inspecting a path table can fail.

use vstd::prelude::*;

verus! {

#[verifier::external_type_specification]
#[verifier::external_body]
pub struct ExJsonError(serde_json::Error);

/// A failure of loading, looking up or expanding a path.
#[derive(Debug)]
pub enum InspectError {
    /// The table is not a JSON object of strings.
    Parse(serde_json::Error),
    /// No path of this name is defined.
    UndefinedName(String),
    /// The path `raw` refers to the variable `var_name`, which is not set.
    Expansion { raw: String, var_name: String },
}

/// What an [`InspectError`] says, over plain values.
pub enum InspectErrorView {
    Parse,
    UndefinedName(Seq<char>),
    Expansion { raw: Seq<char>, var_name: Seq<char> },
}

impl View for InspectError {
    type V = InspectErrorView;

    open spec fn view(&self) -> InspectErrorView {
        match self {
            InspectError::Parse(_) => InspectErrorView::Parse,
            InspectError::UndefinedName(n) => InspectErrorView::UndefinedName(n@),
            InspectError::Expansion { raw, var_name } => InspectErrorView::Expansion {
                raw: raw@,
                var_name: var_name@,
            },
        }
    }
}

} // verus!

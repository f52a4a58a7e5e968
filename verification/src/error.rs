//! Error taxonomy for catalog scans and transform runs.
//!
//! Errors are isolated per picture: a failing entry is recorded here and
//! never aborts sibling work.

use vstd::prelude::*;

verus! {

/// One failure, tagged with the origin of the defect. The payload names the
/// offending picture or carries the collaborator's message.
#[derive(Debug, Clone, PartialEq)]
pub enum TransformationError {
    IO(String),
    Image(String),
    Resize(String),
    Rotate(String),
    Format(String),
    Metadata(String),
}

impl TransformationError {
    /// The label each variant is displayed under.
    pub open spec fn spec_label(&self) -> Seq<char> {
        match self {
            TransformationError::IO(_) => "IO Error: "@,
            TransformationError::Image(_) => "Image Error: "@,
            TransformationError::Resize(_) => "Resize Error: "@,
            TransformationError::Rotate(_) => "Rotate Error: "@,
            TransformationError::Format(_) => "Format Error: "@,
            TransformationError::Metadata(_) => "Metadata Error: "@,
        }
    }

    /// The display text: the variant's label followed by the payload.
    pub fn message(&self) -> (r: String)
        ensures
            r@ == self.spec_label() + self.spec_payload(),
    {
        let label: &str = match self {
            TransformationError::IO(_) => "IO Error: ",
            TransformationError::Image(_) => "Image Error: ",
            TransformationError::Resize(_) => "Resize Error: ",
            TransformationError::Rotate(_) => "Rotate Error: ",
            TransformationError::Format(_) => "Format Error: ",
            TransformationError::Metadata(_) => "Metadata Error: ",
        };
        label.to_owned().concat(self.payload().as_str())
    }

    /// The payload carried by any variant.
    pub open spec fn spec_payload(&self) -> Seq<char> {
        match self {
            TransformationError::IO(s) => s@,
            TransformationError::Image(s) => s@,
            TransformationError::Resize(s) => s@,
            TransformationError::Rotate(s) => s@,
            TransformationError::Format(s) => s@,
            TransformationError::Metadata(s) => s@,
        }
    }

    /// Borrow the payload of whichever variant this is.
    pub fn payload(&self) -> (r: &String)
        ensures
            r@ == self.spec_payload(),
    {
        match self {
            TransformationError::IO(s) => s,
            TransformationError::Image(s) => s,
            TransformationError::Resize(s) => s,
            TransformationError::Rotate(s) => s,
            TransformationError::Format(s) => s,
            TransformationError::Metadata(s) => s,
        }
    }
}

} // verus!

//! The errors that the engine and the energy utility report.

use vstd::prelude::*;
use crate::text::{decimal, push_decimal};

verus! {

/// Which of the two input arrays a length error speaks of.
#[derive(Clone, Copy, Debug, PartialEq, Eq, Structural)]
pub enum Component {
    Real,
    Imaginary,
}

/// Every failure is a problem with the caller's input, reported at once.
#[derive(Clone, Copy, Debug, PartialEq, Eq, Structural)]
pub enum FftError {
    /// The requested edge length is none of 8, 16 and 32.
    UnsupportedSize { size: usize },
    /// An input array does not hold exactly one value per sample of the volume.
    InvalidInputLength { expected: usize, actual: usize, component: Component },
    /// The two arrays handed to the energy utility differ in length.
    LengthMismatch,
}

impl Component {
    /// The word that names the array in a message.
    pub open spec fn word(self) -> Seq<char> {
        match self {
            Component::Real => "real"@,
            Component::Imaginary => "imag"@,
        }
    }
}

impl FftError {
    /// The text of the message that describes the error.
    pub open spec fn description(self) -> Seq<char> {
        match self {
            FftError::UnsupportedSize { size } => "unsupported size: "@ + decimal(size as nat)
                + ". Supported sizes: 8, 16, 32"@,
            FftError::InvalidInputLength { expected, actual, component } =>
                "Invalid input length: expected "@ + decimal(expected as nat) + ", got "@ + decimal(
                    actual as nat,
                ) + " ("@ + component.word() + ")"@,
            FftError::LengthMismatch => "length mismatch"@,
        }
    }

    /// Describes the error for a reader: what was expected and what was given.
    pub fn message(&self) -> (text: String)
        ensures
            text@ == self.description(),
    {
        let mut text = String::new();
        match self {
            FftError::UnsupportedSize { size } => {
                text.push_str("unsupported size: ");
                push_decimal(&mut text, *size);
                text.push_str(". Supported sizes: 8, 16, 32");
            },
            FftError::InvalidInputLength { expected, actual, component } => {
                text.push_str("Invalid input length: expected ");
                push_decimal(&mut text, *expected);
                text.push_str(", got ");
                push_decimal(&mut text, *actual);
                text.push_str(" (");
                match component {
                    Component::Real => text.push_str("real"),
                    Component::Imaginary => text.push_str("imag"),
                }
                text.push_str(")");
            },
            FftError::LengthMismatch => {
                text.push_str("length mismatch");
            },
        }
        assert(text@ =~= self.description());
        text
    }
}

} // verus!

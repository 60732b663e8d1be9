//! Error taxonomy shared by every encoder, with the text each error displays.

use vstd::prelude::*;
use vstd::string::StringExecFns;
use crate::text::{decimal, quoted, push_decimal, push_quoted};

pub mod validation;
pub mod recovery;

verus! {

/// Any failure an encoder, a validator or a recovery helper can report.
#[derive(Debug, Clone, PartialEq)]
pub enum UubedError {
    /// Q64 encoding or decoding failed.
    Q64Error(Q64ErrorKind),
    /// SimHash computation failed.
    SimHashError(SimHashErrorKind),
    /// Top-k selection failed.
    TopKError(TopKErrorKind),
    /// Z-order encoding failed.
    ZOrderError(ZOrderErrorKind),
    /// An input did not pass validation.
    ValidationError(ValidationErrorKind),
    /// Memory could not be allocated or a capacity was exceeded.
    MemoryError(String),
    /// An internal computation failed.
    ComputationError(String),
}

#[derive(Debug, Clone, PartialEq)]
pub enum Q64ErrorKind {
    /// The input has an odd number of characters.
    OddLength { length: usize },
    /// A character outside the 64-symbol set.
    InvalidCharacter { character: char, position: usize },
    /// A symbol of the set standing where another alphabet is expected.
    WrongPosition { character: char, position: usize, expected_alphabet: u8 },
    /// The output buffer cannot hold the encoding.
    BufferOverflow { required: usize, available: usize },
}

#[derive(Debug, Clone, PartialEq)]
pub enum SimHashErrorKind {
    /// The number of planes is zero or above the supported maximum.
    InvalidPlanes { planes: usize },
    /// The embedding has more dimensions than a matrix can be generated for.
    DimensionsTooLarge { dimensions: usize, max_supported: usize },
    /// The projection matrix could not be generated.
    MatrixGenerationFailed { planes: usize, dimensions: usize },
    /// The random number generator failed.
    RngFailure { source: String },
}

#[derive(Debug, Clone, PartialEq)]
pub enum TopKErrorKind {
    /// `k` is zero.
    InvalidK { k: usize },
    /// `k` is above the supported maximum.
    KTooLarge { k: usize, max_supported: usize },
    /// The embedding is too large for its indices to be represented.
    EmbeddingTooLarge { size: usize, max_supported: usize },
    /// A parallel worker failed.
    ParallelProcessingFailed { source: String },
}

#[derive(Debug, Clone, PartialEq)]
pub enum ZOrderErrorKind {
    /// The embedding's dimensions do not suit Z-order encoding.
    UnsuitableDimensions { dimensions: usize, reason: String },
    /// A value does not fit the bits reserved for it.
    BitOverflow { value: u64, max_bits: u32 },
}

#[derive(Debug, Clone, PartialEq)]
pub enum ValidationErrorKind {
    /// The input is empty where the operation needs data.
    EmptyInput { operation: String },
    /// The input is larger than the operation accepts.
    InputTooLarge { size: usize, max_size: usize, operation: String },
    /// The input holds values the operation cannot use.
    InvalidInputValues { details: String },
    /// The parameters contradict each other.
    IncompatibleParameters { details: String },
}

/// The result of any operation that can fail with a [`UubedError`].
pub type UubedResult<T> = Result<T, UubedError>;

impl Q64ErrorKind {
    /// The text this error displays.
    pub open spec fn message(self) -> Seq<char> {
        match self {
            Q64ErrorKind::OddLength { length } => "Input has odd length "@ + decimal(length as nat)
                + ", Q64 requires even length"@,
            Q64ErrorKind::InvalidCharacter { character, position } => "Invalid character "@
                + quoted(character) + " at position "@ + decimal(position as nat),
            Q64ErrorKind::WrongPosition { character, position, expected_alphabet } => "Character "@
                + quoted(character) + " at position "@ + decimal(position as nat)
                + " belongs to alphabet "@ + decimal(expected_alphabet as nat)
                + ", not expected alphabet"@,
            Q64ErrorKind::BufferOverflow { required, available } => "Buffer overflow: need "@
                + decimal(required as nat) + " bytes, only "@ + decimal(available as nat)
                + " available"@,
        }
    }

    /// Renders the error as text.
    pub fn to_string(&self) -> (text: String)
        ensures
            text@ == self.message(),
    {
        let mut s = String::new();
        match self {
            Q64ErrorKind::OddLength { length } => {
                s.append("Input has odd length ");
                push_decimal(&mut s, *length as u128);
                s.append(", Q64 requires even length");
            },
            Q64ErrorKind::InvalidCharacter { character, position } => {
                s.append("Invalid character ");
                push_quoted(&mut s, *character);
                s.append(" at position ");
                push_decimal(&mut s, *position as u128);
            },
            Q64ErrorKind::WrongPosition { character, position, expected_alphabet } => {
                s.append("Character ");
                push_quoted(&mut s, *character);
                s.append(" at position ");
                push_decimal(&mut s, *position as u128);
                s.append(" belongs to alphabet ");
                push_decimal(&mut s, *expected_alphabet as u128);
                s.append(", not expected alphabet");
            },
            Q64ErrorKind::BufferOverflow { required, available } => {
                s.append("Buffer overflow: need ");
                push_decimal(&mut s, *required as u128);
                s.append(" bytes, only ");
                push_decimal(&mut s, *available as u128);
                s.append(" available");
            },
        }
        s
    }
}


impl SimHashErrorKind {
    /// The text this error displays.
    pub open spec fn message(self) -> Seq<char> {
        match self {
            SimHashErrorKind::InvalidPlanes { planes } => "Invalid number of planes: "@ + decimal(
                planes as nat,
            ) + ", must be > 0"@,
            SimHashErrorKind::DimensionsTooLarge { dimensions, max_supported } => "Dimensions "@
                + decimal(dimensions as nat) + " exceed maximum supported "@ + decimal(
                max_supported as nat,
            ),
            SimHashErrorKind::MatrixGenerationFailed { planes, dimensions } =>
                "Failed to generate matrix for "@ + decimal(planes as nat) + " planes × "@
                    + decimal(dimensions as nat) + " dimensions"@,
            SimHashErrorKind::RngFailure { source } => "Random number generation failed: "@
                + source@,
        }
    }

    /// Renders the error as text.
    pub fn to_string(&self) -> (text: String)
        ensures
            text@ == self.message(),
    {
        let mut s = String::new();
        match self {
            SimHashErrorKind::InvalidPlanes { planes } => {
                s.append("Invalid number of planes: ");
                push_decimal(&mut s, *planes as u128);
                s.append(", must be > 0");
            },
            SimHashErrorKind::DimensionsTooLarge { dimensions, max_supported } => {
                s.append("Dimensions ");
                push_decimal(&mut s, *dimensions as u128);
                s.append(" exceed maximum supported ");
                push_decimal(&mut s, *max_supported as u128);
            },
            SimHashErrorKind::MatrixGenerationFailed { planes, dimensions } => {
                s.append("Failed to generate matrix for ");
                push_decimal(&mut s, *planes as u128);
                s.append(" planes × ");
                push_decimal(&mut s, *dimensions as u128);
                s.append(" dimensions");
            },
            SimHashErrorKind::RngFailure { source } => {
                s.append("Random number generation failed: ");
                s.append(source.as_str());
            },
        }
        s
    }
}

impl TopKErrorKind {
    /// The text this error displays.
    pub open spec fn message(self) -> Seq<char> {
        match self {
            TopKErrorKind::InvalidK { k } => "Invalid k value: "@ + decimal(k as nat)
                + ", must be > 0"@,
            TopKErrorKind::KTooLarge { k, max_supported } => "k value "@ + decimal(k as nat)
                + " exceeds maximum supported "@ + decimal(max_supported as nat),
            TopKErrorKind::EmbeddingTooLarge { size, max_supported } => "Embedding size "@
                + decimal(size as nat) + " exceeds maximum supported "@ + decimal(
                max_supported as nat,
            ),
            TopKErrorKind::ParallelProcessingFailed { source } => "Parallel processing failed: "@
                + source@,
        }
    }

    /// Renders the error as text.
    pub fn to_string(&self) -> (text: String)
        ensures
            text@ == self.message(),
    {
        let mut s = String::new();
        match self {
            TopKErrorKind::InvalidK { k } => {
                s.append("Invalid k value: ");
                push_decimal(&mut s, *k as u128);
                s.append(", must be > 0");
            },
            TopKErrorKind::KTooLarge { k, max_supported } => {
                s.append("k value ");
                push_decimal(&mut s, *k as u128);
                s.append(" exceeds maximum supported ");
                push_decimal(&mut s, *max_supported as u128);
            },
            TopKErrorKind::EmbeddingTooLarge { size, max_supported } => {
                s.append("Embedding size ");
                push_decimal(&mut s, *size as u128);
                s.append(" exceeds maximum supported ");
                push_decimal(&mut s, *max_supported as u128);
            },
            TopKErrorKind::ParallelProcessingFailed { source } => {
                s.append("Parallel processing failed: ");
                s.append(source.as_str());
            },
        }
        s
    }
}

impl ZOrderErrorKind {
    /// The text this error displays.
    pub open spec fn message(self) -> Seq<char> {
        match self {
            ZOrderErrorKind::UnsuitableDimensions { dimensions, reason } =>
                "Unsuitable dimensions "@ + decimal(dimensions as nat) + ": "@ + reason@,
            ZOrderErrorKind::BitOverflow { value, max_bits } => "Bit overflow: value "@ + decimal(
                value as nat,
            ) + " exceeds "@ + decimal(max_bits as nat) + " bits"@,
        }
    }

    /// Renders the error as text.
    pub fn to_string(&self) -> (text: String)
        ensures
            text@ == self.message(),
    {
        let mut s = String::new();
        match self {
            ZOrderErrorKind::UnsuitableDimensions { dimensions, reason } => {
                s.append("Unsuitable dimensions ");
                push_decimal(&mut s, *dimensions as u128);
                s.append(": ");
                s.append(reason.as_str());
            },
            ZOrderErrorKind::BitOverflow { value, max_bits } => {
                s.append("Bit overflow: value ");
                push_decimal(&mut s, *value as u128);
                s.append(" exceeds ");
                push_decimal(&mut s, *max_bits as u128);
                s.append(" bits");
            },
        }
        s
    }
}

impl ValidationErrorKind {
    /// The text this error displays.
    pub open spec fn message(self) -> Seq<char> {
        match self {
            ValidationErrorKind::EmptyInput { operation } =>
                "Empty input not allowed for operation: "@ + operation@,
            ValidationErrorKind::InputTooLarge { size, max_size, operation } => "Input size "@
                + decimal(size as nat) + " exceeds maximum "@ + decimal(max_size as nat)
                + " for operation: "@ + operation@,
            ValidationErrorKind::InvalidInputValues { details } => "Invalid input values: "@
                + details@,
            ValidationErrorKind::IncompatibleParameters { details } => "Incompatible parameters: "@
                + details@,
        }
    }

    /// Renders the error as text.
    pub fn to_string(&self) -> (text: String)
        ensures
            text@ == self.message(),
    {
        let mut s = String::new();
        match self {
            ValidationErrorKind::EmptyInput { operation } => {
                s.append("Empty input not allowed for operation: ");
                s.append(operation.as_str());
            },
            ValidationErrorKind::InputTooLarge { size, max_size, operation } => {
                s.append("Input size ");
                push_decimal(&mut s, *size as u128);
                s.append(" exceeds maximum ");
                push_decimal(&mut s, *max_size as u128);
                s.append(" for operation: ");
                s.append(operation.as_str());
            },
            ValidationErrorKind::InvalidInputValues { details } => {
                s.append("Invalid input values: ");
                s.append(details.as_str());
            },
            ValidationErrorKind::IncompatibleParameters { details } => {
                s.append("Incompatible parameters: ");
                s.append(details.as_str());
            },
        }
        s
    }
}

impl UubedError {
    /// The text this error displays: the family it belongs to, then the detail.
    pub open spec fn message(self) -> Seq<char> {
        match self {
            UubedError::Q64Error(kind) => "Q64 error: "@ + kind.message(),
            UubedError::SimHashError(kind) => "SimHash error: "@ + kind.message(),
            UubedError::TopKError(kind) => "Top-k error: "@ + kind.message(),
            UubedError::ZOrderError(kind) => "Z-order error: "@ + kind.message(),
            UubedError::ValidationError(kind) => "Validation error: "@ + kind.message(),
            UubedError::MemoryError(msg) => "Memory error: "@ + msg@,
            UubedError::ComputationError(msg) => "Computation error: "@ + msg@,
        }
    }

    /// Renders the error as text.
    pub fn to_string(&self) -> (text: String)
        ensures
            text@ == self.message(),
    {
        let mut s = String::new();
        match self {
            UubedError::Q64Error(kind) => {
                s.append("Q64 error: ");
                let detail = kind.to_string();
                s.append(detail.as_str());
            },
            UubedError::SimHashError(kind) => {
                s.append("SimHash error: ");
                let detail = kind.to_string();
                s.append(detail.as_str());
            },
            UubedError::TopKError(kind) => {
                s.append("Top-k error: ");
                let detail = kind.to_string();
                s.append(detail.as_str());
            },
            UubedError::ZOrderError(kind) => {
                s.append("Z-order error: ");
                let detail = kind.to_string();
                s.append(detail.as_str());
            },
            UubedError::ValidationError(kind) => {
                s.append("Validation error: ");
                let detail = kind.to_string();
                s.append(detail.as_str());
            },
            UubedError::MemoryError(msg) => {
                s.append("Memory error: ");
                s.append(msg.as_str());
            },
            UubedError::ComputationError(msg) => {
                s.append("Computation error: ");
                s.append(msg.as_str());
            },
        }
        s
    }

    /// An error never wraps another error as its cause.
    pub fn source(&self) -> (cause: Option<UubedError>)
        ensures
            cause is None,
    {
        None
    }
}

} // verus!

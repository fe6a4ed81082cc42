//! What can go wrong, and how it is put in words.
use vstd::prelude::*;
use vstd::string::{StrSliceExecFns, StringExecFns};

use crate::text;
use crate::text::{decimal_text, signed_decimal_text};

verus! {

/// A setting that is read from the environment.
#[derive(Clone, Copy, Debug, PartialEq, Eq, Structural)]
pub enum Setting {
    /// The device that transforms run on.
    CudaDevice,
    /// The device that digests are computed on.
    ShaDevice,
    /// The smallest codeword that is offloaded.
    MinCodewordSize,
    /// Which transforms are offloaded.
    Policy,
    /// Which transformed values are checked.
    GuardStride,
    /// The smallest batch of digests that is offloaded.
    ShaMinBatch,
    /// The smallest codeword for the single-polynomial device transform.
    SpparkMinCodeword,
    /// The first batch size that is too large for the single-polynomial device transform.
    SpparkMaxBatch,
}

impl Setting {
    /// The name of the environment variable.
    pub open spec fn spec_name(self) -> Seq<char> {
        match self {
            Setting::CudaDevice => "PROVEKIT_CUDA_DEVICE"@,
            Setting::ShaDevice => "PROVEKIT_CUDA_DEVICE"@,
            Setting::MinCodewordSize => "PROVEKIT_CUDA_NTT_MIN_CODEWORD_SIZE"@,
            Setting::Policy => "PROVEKIT_CUDA_NTT_POLICY"@,
            Setting::GuardStride => "PROVEKIT_CUDA_NTT_RELEASE_GUARD_STRIDE"@,
            Setting::ShaMinBatch => "PROVEKIT_CUDA_SHA256_MIN_BATCH"@,
            Setting::SpparkMinCodeword => "PROVEKIT_SPPARK_MIN_CODEWORD"@,
            Setting::SpparkMaxBatch => "PROVEKIT_SPPARK_MAX_BATCH"@,
        }
    }

    /// What the setting is read for.
    pub open spec fn spec_purpose(self) -> Seq<char> {
        match self {
            Setting::CudaDevice => "CUDA NTT selection"@,
            Setting::ShaDevice => "CUDA SHA-256"@,
            Setting::GuardStride => "CUDA NTT safety tuning"@,
            _ => "CUDA NTT tuning"@,
        }
    }

    /// The name of the environment variable.
    pub fn name(&self) -> (name: &'static str)
        ensures
            name@ == self.spec_name(),
    {
        match self {
            Setting::CudaDevice => "PROVEKIT_CUDA_DEVICE",
            Setting::ShaDevice => "PROVEKIT_CUDA_DEVICE",
            Setting::MinCodewordSize => "PROVEKIT_CUDA_NTT_MIN_CODEWORD_SIZE",
            Setting::Policy => "PROVEKIT_CUDA_NTT_POLICY",
            Setting::GuardStride => "PROVEKIT_CUDA_NTT_RELEASE_GUARD_STRIDE",
            Setting::ShaMinBatch => "PROVEKIT_CUDA_SHA256_MIN_BATCH",
            Setting::SpparkMinCodeword => "PROVEKIT_SPPARK_MIN_CODEWORD",
            Setting::SpparkMaxBatch => "PROVEKIT_SPPARK_MAX_BATCH",
        }
    }

    /// What the setting is read for.
    pub fn purpose(&self) -> (purpose: &'static str)
        ensures
            purpose@ == self.spec_purpose(),
    {
        match self {
            Setting::CudaDevice => "CUDA NTT selection",
            Setting::ShaDevice => "CUDA SHA-256",
            Setting::GuardStride => "CUDA NTT safety tuning",
            _ => "CUDA NTT tuning",
        }
    }
}

/// A device call.
#[derive(Clone, Copy, Debug, PartialEq, Eq, Structural)]
pub enum Kernel {
    /// Brings the device up.
    Preflight,
    /// Transforms interleaved codewords.
    Transform,
    /// Computes digests.
    Digest,
    /// Transforms one polynomial.
    SinglePolynomial,
}

impl Kernel {
    /// What is said of a failed call, up to its status.
    pub open spec fn spec_failure(self) -> Seq<char> {
        match self {
            Kernel::Preflight => "CUDA preflight failed with status code "@,
            Kernel::Transform => "CUDA NTT execution failed with status code "@,
            Kernel::Digest => "CUDA SHA-256 execution failed with status code "@,
            Kernel::SinglePolynomial => "sppark NTT failed with status "@,
        }
    }

    /// What is said of a failed call, up to its status.
    pub fn failure(&self) -> (failure: &'static str)
        ensures
            failure@ == self.spec_failure(),
    {
        match self {
            Kernel::Preflight => "CUDA preflight failed with status code ",
            Kernel::Transform => "CUDA NTT execution failed with status code ",
            Kernel::Digest => "CUDA SHA-256 execution failed with status code ",
            Kernel::SinglePolynomial => "sppark NTT failed with status ",
        }
    }
}

/// Why a transform, an encoding or a batch of digests was refused or failed.
#[derive(Debug)]
pub enum Error {
    /// A setting is not a number.
    NotANumber { setting: Setting, value: String, reason: String },
    /// The policy setting names no policy.
    UnknownPolicy { value: String },
    /// A setting cannot be read.
    Unreadable { setting: Setting, reason: String },
    /// There are no groups.
    ZeroGroups,
    /// There is no input.
    ZeroInput,
    /// There is more input than room.
    InputTooLong,
    /// The values do not form groups of equal size.
    UnevenTotal,
    /// The values do not form groups of equal size.
    UnevenValues,
    /// The codeword size is not a power of two.
    CodewordSizeNotPower,
    /// The messages differ in length.
    UnequalMessages,
    /// The masks do not form rows.
    UnevenMasks,
    /// The codeword length is not a power of two.
    CodewordLengthNotPower,
    /// The codeword does not split into cosets.
    UnevenCosets,
    /// The number of cosets is not the one that the codeword splits into.
    CosetCount,
    /// A coset does not hold a masked message.
    CosetTooSmall,
    /// A device gave back limbs that are not reduced.
    OutsideField,
    /// A device call failed, and said why or gave only its status.
    Device { kernel: Kernel, status: i32, message: String },
    /// The length to transform is not a power of two.
    TransformLength { length: usize },
    /// The codeword length to encode for is not a power of two.
    CodewordLength { length: usize },
    /// Two messages differ in length.
    MessageLengths { first: usize, other: usize },
    /// A masked message is longer than its codeword.
    MaskedTooLong { masked: usize, codeword: usize },
    /// A batch and a codeword length do not go together.
    BatchDoesNotFit { messages: usize, masks: usize, codeword: usize },
    /// The room for digests is not a whole number of digests.
    DigestOutput { length: usize },
    /// The input is not as long as the messages to hash.
    DigestInput { length: usize, expected: usize },
    /// The twiddle domain could not be set up.
    DomainFailed { size: u64, reason: String },
    /// The twiddle domain could not be set up in the preflight.
    PreflightDomainFailed { size: u64, reason: String },
    /// The column-batched device transform failed.
    ColumnTransformFailed { reason: String },
}

impl Error {
    /// The error in words.
    pub open spec fn text(self) -> Seq<char> {
        match self {
            Error::NotANumber { setting, value, reason } => {
                let start = setting.spec_name() + " must be a non-negative integer, got `"@ + value@;
                if setting is ShaDevice {
                    start + "` ("@ + reason@ + ")"@
                } else {
                    start + "` instead: "@ + reason@
                }
            },
            Error::UnknownPolicy { value } => {
                "PROVEKIT_CUDA_NTT_POLICY must be one of `auto`, `size-only`, `always`, or `never`, got `"@
                    + value@ + "` instead"@
            },
            Error::Unreadable { setting, reason } => {
                "failed to read "@ + setting.spec_name() + " for "@ + setting.spec_purpose()
                    + ": "@ + reason@
            },
            Error::ZeroGroups => "num_groups must be non-zero"@,
            Error::ZeroInput => "input_elements must be non-zero"@,
            Error::InputTooLong => "input_elements must be <= total_values"@,
            Error::UnevenTotal => "total_values must be divisible by num_groups"@,
            Error::UnevenValues => "values.len() must be divisible by num_groups"@,
            Error::CodewordSizeNotPower => "codeword_size must be a power of two"@,
            Error::UnequalMessages => "all messages must have the same length"@,
            Error::UnevenMasks => "masks.len() must be divisible by the number of messages"@,
            Error::CodewordLengthNotPower => "codeword_length must be a power of two"@,
            Error::UnevenCosets => "codeword_length must be divisible by coset_size"@,
            Error::CosetCount => "num_cosets must match codeword_length / coset_size"@,
            Error::CosetTooSmall => {
                "coset_size must be large enough for the masked message length"@
            },
            Error::OutsideField => "CUDA kernel returned a value outside the BN254 field"@,
            Error::Device { kernel, status, message } => if message@.len() == 0 {
                kernel.spec_failure() + text::signed_decimal(status as int)
            } else {
                message@
            },
            Error::TransformLength { length } => {
                "sppark NTT requires power-of-two length, got "@ + text::decimal(length as nat)
            },
            Error::CodewordLength { length } => {
                "sppark interleaved_encode requires power-of-two codeword_length, got "@
                    + text::decimal(length as nat)
            },
            Error::MessageLengths { first, other } => {
                "messages must be uniform length; saw "@ + text::decimal(first as nat) + " and "@
                    + text::decimal(other as nat)
            },
            Error::MaskedTooLong { masked, codeword } => {
                "masked message length "@ + text::decimal(masked as nat)
                    + " exceeds codeword length "@ + text::decimal(codeword as nat)
            },
            Error::BatchDoesNotFit { messages, masks, codeword } => {
                "a batch of "@ + text::decimal(messages as nat) + " messages and "@
                    + text::decimal(masks as nat) + " masks does not fit codewords of length "@
                    + text::decimal(codeword as nat)
            },
            Error::DigestOutput { length } => {
                "output length "@ + text::decimal(length as nat) + " must be a multiple of 32"@
            },
            Error::DigestInput { length, expected } => {
                "input length "@ + text::decimal(length as nat)
                    + " must equal size * n_messages = "@ + text::decimal(expected as nat)
            },
            Error::DomainFailed { size, reason } => {
                "icicle initialize_domain("@ + text::decimal(size as nat) + ") failed: "@
                    + reason@
            },
            Error::PreflightDomainFailed { size, reason } => {
                "icicle preflight: initialize_domain(256): icicle initialize_domain("@
                    + text::decimal(size as nat) + ") failed: "@ + reason@
            },
            Error::ColumnTransformFailed { reason } => "icicle NTT failed: "@ + reason@,
        }
    }

    /// The error in words.
    pub fn message(&self) -> (message: String)
        ensures
            message@ == self.text(),
    {
        match self {
            Error::NotANumber { setting, value, reason } => {
                let mut text = String::from_str(setting.name());
                text.append(" must be a non-negative integer, got `");
                text.append(value.as_str());
                match setting {
                    Setting::ShaDevice => {
                        text.append("` (");
                        text.append(reason.as_str());
                        text.append(")");
                    },
                    _ => {
                        text.append("` instead: ");
                        text.append(reason.as_str());
                    },
                }
                text
            },
            Error::UnknownPolicy { value } => {
                let mut text = String::from_str(
                    "PROVEKIT_CUDA_NTT_POLICY must be one of `auto`, `size-only`, `always`, or `never`, got `",
                );
                text.append(value.as_str());
                text.append("` instead");
                text
            },
            Error::Unreadable { setting, reason } => {
                let mut text = String::from_str("failed to read ");
                text.append(setting.name());
                text.append(" for ");
                text.append(setting.purpose());
                text.append(": ");
                text.append(reason.as_str());
                text
            },
            Error::ZeroGroups => String::from_str("num_groups must be non-zero"),
            Error::ZeroInput => String::from_str("input_elements must be non-zero"),
            Error::InputTooLong => String::from_str("input_elements must be <= total_values"),
            Error::UnevenTotal => String::from_str("total_values must be divisible by num_groups"),
            Error::UnevenValues => String::from_str("values.len() must be divisible by num_groups"),
            Error::CodewordSizeNotPower => String::from_str("codeword_size must be a power of two"),
            Error::UnequalMessages => String::from_str("all messages must have the same length"),
            Error::UnevenMasks => String::from_str(
                "masks.len() must be divisible by the number of messages",
            ),
            Error::CodewordLengthNotPower => String::from_str(
                "codeword_length must be a power of two",
            ),
            Error::UnevenCosets => String::from_str(
                "codeword_length must be divisible by coset_size",
            ),
            Error::CosetCount => String::from_str(
                "num_cosets must match codeword_length / coset_size",
            ),
            Error::CosetTooSmall => String::from_str(
                "coset_size must be large enough for the masked message length",
            ),
            Error::OutsideField => String::from_str(
                "CUDA kernel returned a value outside the BN254 field",
            ),
            Error::Device { kernel, status, message } => {
                if message.as_str().unicode_len() == 0 {
                    let mut text = String::from_str(kernel.failure());
                    text.append(signed_decimal_text(*status).as_str());
                    text
                } else {
                    message.clone()
                }
            },
            Error::TransformLength { length } => {
                let mut text = String::from_str("sppark NTT requires power-of-two length, got ");
                text.append(decimal_text(*length as u64).as_str());
                text
            },
            Error::CodewordLength { length } => {
                let mut text = String::from_str(
                    "sppark interleaved_encode requires power-of-two codeword_length, got ",
                );
                text.append(decimal_text(*length as u64).as_str());
                text
            },
            Error::MessageLengths { first, other } => {
                let mut text = String::from_str("messages must be uniform length; saw ");
                text.append(decimal_text(*first as u64).as_str());
                text.append(" and ");
                text.append(decimal_text(*other as u64).as_str());
                text
            },
            Error::MaskedTooLong { masked, codeword } => {
                let mut text = String::from_str("masked message length ");
                text.append(decimal_text(*masked as u64).as_str());
                text.append(" exceeds codeword length ");
                text.append(decimal_text(*codeword as u64).as_str());
                text
            },
            Error::BatchDoesNotFit { messages, masks, codeword } => {
                let mut text = String::from_str("a batch of ");
                text.append(decimal_text(*messages as u64).as_str());
                text.append(" messages and ");
                text.append(decimal_text(*masks as u64).as_str());
                text.append(" masks does not fit codewords of length ");
                text.append(decimal_text(*codeword as u64).as_str());
                text
            },
            Error::DigestOutput { length } => {
                let mut text = String::from_str("output length ");
                text.append(decimal_text(*length as u64).as_str());
                text.append(" must be a multiple of 32");
                text
            },
            Error::DigestInput { length, expected } => {
                let mut text = String::from_str("input length ");
                text.append(decimal_text(*length as u64).as_str());
                text.append(" must equal size * n_messages = ");
                text.append(decimal_text(*expected as u64).as_str());
                text
            },
            Error::DomainFailed { size, reason } => {
                let mut text = String::from_str("icicle initialize_domain(");
                text.append(decimal_text(*size).as_str());
                text.append(") failed: ");
                text.append(reason.as_str());
                text
            },
            Error::PreflightDomainFailed { size, reason } => {
                let mut text = String::from_str(
                    "icicle preflight: initialize_domain(256): icicle initialize_domain(",
                );
                text.append(decimal_text(*size).as_str());
                text.append(") failed: ");
                text.append(reason.as_str());
                text
            },
            Error::ColumnTransformFailed { reason } => {
                let mut text = String::from_str("icicle NTT failed: ");
                text.append(reason.as_str());
                text
            },
        }
    }
}

impl Clone for Error {
    fn clone(&self) -> (copy: Self)
        ensures
            copy == *self,
    {
        match self {
            Error::NotANumber { setting, value, reason } => Error::NotANumber {
                setting: *setting,
                value: value.clone(),
                reason: reason.clone(),
            },
            Error::UnknownPolicy { value } => Error::UnknownPolicy { value: value.clone() },
            Error::Unreadable { setting, reason } => Error::Unreadable {
                setting: *setting,
                reason: reason.clone(),
            },
            Error::ZeroGroups => Error::ZeroGroups,
            Error::ZeroInput => Error::ZeroInput,
            Error::InputTooLong => Error::InputTooLong,
            Error::UnevenTotal => Error::UnevenTotal,
            Error::UnevenValues => Error::UnevenValues,
            Error::CodewordSizeNotPower => Error::CodewordSizeNotPower,
            Error::UnequalMessages => Error::UnequalMessages,
            Error::UnevenMasks => Error::UnevenMasks,
            Error::CodewordLengthNotPower => Error::CodewordLengthNotPower,
            Error::UnevenCosets => Error::UnevenCosets,
            Error::CosetCount => Error::CosetCount,
            Error::CosetTooSmall => Error::CosetTooSmall,
            Error::OutsideField => Error::OutsideField,
            Error::Device { kernel, status, message } => Error::Device {
                kernel: *kernel,
                status: *status,
                message: message.clone(),
            },
            Error::TransformLength { length } => Error::TransformLength { length: *length },
            Error::CodewordLength { length } => Error::CodewordLength { length: *length },
            Error::MessageLengths { first, other } => Error::MessageLengths {
                first: *first,
                other: *other,
            },
            Error::MaskedTooLong { masked, codeword } => Error::MaskedTooLong {
                masked: *masked,
                codeword: *codeword,
            },
            Error::BatchDoesNotFit { messages, masks, codeword } => Error::BatchDoesNotFit {
                messages: *messages,
                masks: *masks,
                codeword: *codeword,
            },
            Error::DigestOutput { length } => Error::DigestOutput { length: *length },
            Error::DigestInput { length, expected } => Error::DigestInput {
                length: *length,
                expected: *expected,
            },
            Error::DomainFailed { size, reason } => Error::DomainFailed {
                size: *size,
                reason: reason.clone(),
            },
            Error::PreflightDomainFailed { size, reason } => Error::PreflightDomainFailed {
                size: *size,
                reason: reason.clone(),
            },
            Error::ColumnTransformFailed { reason } => Error::ColumnTransformFailed {
                reason: reason.clone(),
            },
        }
    }
}

} // verus!

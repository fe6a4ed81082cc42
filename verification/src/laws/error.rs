//! Laws of what is said of errors.
use vstd::prelude::*;

use crate::error::{Error, Kernel, Setting};
use crate::text::{decimal_text, signed_decimal_text};

verus! {

/// Errors without details have fixed texts.
pub proof fn lemma_fixed_messages(error: Error, message: String)
    requires
        call_ensures(Error::message, (&error,), message),
    ensures
        error is ZeroGroups ==> message@ == "num_groups must be non-zero"@,
        error is ZeroInput ==> message@ == "input_elements must be non-zero"@,
        error is InputTooLong ==> message@ == "input_elements must be <= total_values"@,
        error is UnevenTotal ==> message@ == "total_values must be divisible by num_groups"@,
        error is UnevenValues ==> message@ == "values.len() must be divisible by num_groups"@,
        error is CodewordSizeNotPower ==> message@ == "codeword_size must be a power of two"@,
        error is UnequalMessages ==> message@ == "all messages must have the same length"@,
        error is UnevenMasks ==> message@
            == "masks.len() must be divisible by the number of messages"@,
        error is CodewordLengthNotPower ==> message@ == "codeword_length must be a power of two"@,
        error is UnevenCosets ==> message@ == "codeword_length must be divisible by coset_size"@,
        error is CosetCount ==> message@ == "num_cosets must match codeword_length / coset_size"@,
        error is CosetTooSmall ==> message@
            == "coset_size must be large enough for the masked message length"@,
        error is OutsideField ==> message@
            == "CUDA kernel returned a value outside the BN254 field"@,
{
}

/// What is said of a setting that is not a number names its variable, shows its value and
/// gives the reason; the device for digests puts the reason in brackets.
pub proof fn lemma_number_message(
    setting: Setting,
    name: &'static str,
    value: String,
    reason: String,
    message: String,
)
    requires
        call_ensures(Setting::name, (&setting,), name),
        call_ensures(Error::message, (&Error::NotANumber { setting, value, reason },), message),
    ensures
        setting is ShaDevice ==> message@ == name@ + " must be a non-negative integer, got `"@
            + value@ + "` ("@ + reason@ + ")"@,
        !(setting is ShaDevice) ==> message@ == name@ + " must be a non-negative integer, got `"@
            + value@ + "` instead: "@ + reason@,
{
}

/// What is said of a policy that has no such name lists the names and shows the value; what
/// is said of a setting that cannot be read names its variable, its purpose and the reason.
pub proof fn lemma_setting_messages(
    setting: Setting,
    name: &'static str,
    purpose: &'static str,
    value: String,
    reason: String,
    policy: String,
    unreadable: String,
)
    requires
        call_ensures(Setting::name, (&setting,), name),
        call_ensures(Setting::purpose, (&setting,), purpose),
        call_ensures(Error::message, (&Error::UnknownPolicy { value },), policy),
        call_ensures(Error::message, (&Error::Unreadable { setting, reason },), unreadable),
    ensures
        policy@
            == "PROVEKIT_CUDA_NTT_POLICY must be one of `auto`, `size-only`, `always`, or `never`, got `"@
            + value@ + "` instead"@,
        unreadable@ == "failed to read "@ + name@ + " for "@ + purpose@ + ": "@ + reason@,
        setting is CudaDevice ==> purpose@ == "CUDA NTT selection"@,
        setting is ShaDevice ==> purpose@ == "CUDA SHA-256"@,
        setting is GuardStride ==> purpose@ == "CUDA NTT safety tuning"@,
        !(setting is CudaDevice || setting is ShaDevice || setting is GuardStride) ==> purpose@
            == "CUDA NTT tuning"@,
{
}

/// A device that says why it failed is quoted; of one that does not, the status is given.
pub proof fn lemma_device_message(
    kernel: Kernel,
    status: i32,
    message: String,
    failure: &'static str,
    number: String,
    text: String,
)
    requires
        call_ensures(Kernel::failure, (&kernel,), failure),
        call_ensures(signed_decimal_text, (status,), number),
        call_ensures(Error::message, (&Error::Device { kernel, status, message },), text),
    ensures
        message@.len() > 0 ==> text@ == message@,
        message@.len() == 0 ==> text@ == failure@ + number@,
        kernel is Preflight ==> failure@ == "CUDA preflight failed with status code "@,
        kernel is Transform ==> failure@ == "CUDA NTT execution failed with status code "@,
        kernel is Digest ==> failure@ == "CUDA SHA-256 execution failed with status code "@,
        kernel is SinglePolynomial ==> failure@ == "sppark NTT failed with status "@,
{
}

/// What is said of a shape that does not fit gives the numbers that do not, in decimal digits.
pub proof fn lemma_shape_messages(
    first: usize,
    second: usize,
    third: usize,
    first_text: String,
    second_text: String,
    third_text: String,
    transform_length: String,
    codeword_length: String,
    message_lengths: String,
    masked: String,
    batch: String,
    output: String,
    input: String,
)
    requires
        call_ensures(decimal_text, (first as u64,), first_text),
        call_ensures(decimal_text, (second as u64,), second_text),
        call_ensures(decimal_text, (third as u64,), third_text),
        call_ensures(
            Error::message,
            (&Error::TransformLength { length: first },),
            transform_length,
        ),
        call_ensures(
            Error::message,
            (&Error::CodewordLength { length: first },),
            codeword_length,
        ),
        call_ensures(
            Error::message,
            (&Error::MessageLengths { first, other: second },),
            message_lengths,
        ),
        call_ensures(
            Error::message,
            (&Error::MaskedTooLong { masked: first, codeword: second },),
            masked,
        ),
        call_ensures(
            Error::message,
            (&Error::BatchDoesNotFit { messages: first, masks: second, codeword: third },),
            batch,
        ),
        call_ensures(Error::message, (&Error::DigestOutput { length: first },), output),
        call_ensures(
            Error::message,
            (&Error::DigestInput { length: first, expected: second },),
            input,
        ),
    ensures
        transform_length@ == "sppark NTT requires power-of-two length, got "@ + first_text@,
        codeword_length@ == "sppark interleaved_encode requires power-of-two codeword_length, got "@
            + first_text@,
        message_lengths@ == "messages must be uniform length; saw "@ + first_text@ + " and "@
            + second_text@,
        masked@ == "masked message length "@ + first_text@ + " exceeds codeword length "@
            + second_text@,
        batch@ == "a batch of "@ + first_text@ + " messages and "@ + second_text@
            + " masks does not fit codewords of length "@ + third_text@,
        output@ == "output length "@ + first_text@ + " must be a multiple of 32"@,
        input@ == "input length "@ + first_text@ + " must equal size * n_messages = "@
            + second_text@,
{
}

/// What is said of a domain that could not be set up gives its size and the reason, and of a
/// column-batched transform that failed the reason.
pub proof fn lemma_domain_messages(
    size: u64,
    size_text: String,
    reason: String,
    domain: String,
    preflight: String,
    columns: String,
)
    requires
        call_ensures(decimal_text, (size,), size_text),
        call_ensures(Error::message, (&Error::DomainFailed { size, reason },), domain),
        call_ensures(Error::message, (&Error::PreflightDomainFailed { size, reason },), preflight),
        call_ensures(Error::message, (&Error::ColumnTransformFailed { reason },), columns),
    ensures
        domain@ == "icicle initialize_domain("@ + size_text@ + ") failed: "@ + reason@,
        preflight@ == "icicle preflight: initialize_domain(256): icicle initialize_domain("@
            + size_text@ + ") failed: "@ + reason@,
        columns@ == "icicle NTT failed: "@ + reason@,
{
}

/// A copy of an error is the error.
pub proof fn lemma_copied_error(error: Error, copy: Error)
    requires
        call_ensures(<Error as Clone>::clone, (&error,), copy),
    ensures
        copy == error,
{
}

} // verus!

//! What a device call reports back.
use vstd::prelude::*;
use vstd::slice::slice_subrange;
use vstd::utf8::*;

use crate::error::{Error, Kernel};

verus! {

/// The status that a device call reports on success.
pub const CUDA_SUCCESS: i32 = 0;

/// What a device call reports: its status, and the buffer that it may have written a
/// message to.
#[derive(Debug)]
pub struct DeviceReply {
    pub status: i32,
    pub error_buffer: Vec<u8>,
}

/// The bytes before the first zero.
pub open spec fn until_zero(bytes: Seq<u8>) -> Seq<u8>
    decreases bytes.len(),
{
    if bytes.len() == 0 || bytes[0] == 0 {
        Seq::empty()
    } else {
        seq![bytes[0]] + until_zero(bytes.drop_first())
    }
}

/// The text that `String::from_utf8_lossy` reads bytes as.
pub uninterp spec fn lossy_text(bytes: Seq<u8>) -> Seq<char>;

/// Calls `String::from_utf8_lossy`. Claims that valid UTF-8 is read as the text that it
/// encodes, and that only no bytes are read as the empty text. How other bytes are
/// replaced is left to a name.
#[verifier::external_body]
fn lossy_string(bytes: &[u8]) -> (text: String)
    ensures
        text@ == lossy_text(bytes@),
        valid_utf8(bytes@) ==> encode_utf8(text@) == bytes@,
        text@.len() == 0 <==> bytes@.len() == 0,
{
    String::from_utf8_lossy(bytes).into_owned()
}

/// The message in an error buffer: the text before its first zero byte. Valid UTF-8 comes
/// back as the text that it encodes.
pub fn error_buffer_to_string(buffer: &[u8]) -> (text: String)
    ensures
        text@ == lossy_text(until_zero(buffer@)),
        valid_utf8(until_zero(buffer@)) ==> encode_utf8(text@) == until_zero(buffer@),
        text@.len() == 0 <==> until_zero(buffer@).len() == 0,
{
    let length: usize = buffer.len();
    let mut end: usize = 0;
    assert(buffer@.skip(0) =~= buffer@);
    while end < length && buffer[end] != 0
        invariant
            end <= length,
            length == buffer@.len(),
            until_zero(buffer@) == buffer@.take(end as int) + until_zero(
                buffer@.skip(end as int),
            ),
        decreases length - end,
    {
        assert(buffer@.skip(end as int).drop_first() =~= buffer@.skip(end + 1));
        assert(buffer@.take(end + 1) =~= buffer@.take(end as int).push(buffer@[end as int]));
        assert(buffer@.take(end as int) + (seq![buffer@[end as int]] + until_zero(
            buffer@.skip(end + 1),
        )) =~= buffer@.take(end + 1) + until_zero(buffer@.skip(end + 1)));
        end = end + 1;
    }
    assert(until_zero(buffer@.skip(end as int)) =~= Seq::empty());
    assert(until_zero(buffer@) =~= buffer@.subrange(0, end as int));
    lossy_string(slice_subrange(buffer, 0, end))
}

/// What a device call comes to: success if its status says so, and otherwise an error with
/// the status and the message.
pub open spec fn device_result(
    kernel: Kernel,
    status: i32,
    error_buffer: Seq<u8>,
    result: Result<(), Error>,
) -> bool {
    if status == CUDA_SUCCESS {
        result == Ok::<(), Error>(())
    } else {
        &&& result matches Err(Error::Device { kernel: k, status: s, message: m })
        &&& k == kernel
        &&& s == status
        &&& m@ == lossy_text(until_zero(error_buffer))
        &&& valid_utf8(until_zero(error_buffer)) ==> encode_utf8(m@) == until_zero(error_buffer)
    }
}

/// Judges a device call by what it reported.
pub fn check_reply(kernel: Kernel, status: i32, error_buffer: &[u8]) -> (result: Result<(), Error>)
    ensures
        device_result(kernel, status, error_buffer@, result),
{
    if status == CUDA_SUCCESS {
        Ok(())
    } else {
        let message = error_buffer_to_string(error_buffer);
        Err(Error::Device { kernel, status, message })
    }
}

} // verus!

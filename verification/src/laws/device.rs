//! Laws of what device calls report back.
use vstd::prelude::*;
use vstd::utf8::*;

use crate::device::{check_reply, error_buffer_to_string, lossy_text, until_zero};
use crate::error::{Error, Kernel};

verus! {

/// What stands before the first zero byte ends at the first zero byte.
proof fn lemma_until_zero(bytes: Seq<u8>) -> (end: int)
    ensures
        0 <= end <= bytes.len(),
        until_zero(bytes) == bytes.take(end),
        forall|i: int| 0 <= i < end ==> (#[trigger] bytes[i]) != 0,
        end < bytes.len() ==> bytes[end] == 0,
    decreases bytes.len(),
{
    if bytes.len() == 0 || bytes[0] == 0 {
        assert(bytes.take(0) =~= Seq::empty());
        0
    } else {
        let rest = lemma_until_zero(bytes.drop_first());
        assert(bytes.take(rest + 1) =~= seq![bytes[0]] + bytes.drop_first().take(rest));
        assert forall|i: int| 0 <= i < rest + 1 implies (#[trigger] bytes[i]) != 0 by {
            if i > 0 {
                assert(bytes[i] == bytes.drop_first()[i - 1]);
            }
        }
        if rest < bytes.drop_first().len() {
            assert(bytes.drop_first()[rest] == bytes[rest + 1]);
        }
        rest + 1
    }
}

/// The message in a buffer is read from all bytes before the first zero byte and from no
/// other; valid UTF-8 is read as the text that it encodes.
pub proof fn lemma_buffer_read(buffer: &[u8], end: int, text: String)
    requires
        call_ensures(error_buffer_to_string, (buffer,), text),
        0 <= end <= buffer@.len(),
        forall|i: int| 0 <= i < end ==> (#[trigger] buffer@[i]) != 0,
        end < buffer@.len() ==> buffer@[end] == 0,
    ensures
        text@ == lossy_text(buffer@.take(end)),
        valid_utf8(buffer@.take(end)) ==> encode_utf8(text@) == buffer@.take(end),
        text@.len() == 0 <==> end == 0,
{
    let found = lemma_until_zero(buffer@);
    if found < end {
        assert(buffer@[found] != 0);
    } else if end < found {
        assert(buffer@[end] != 0);
    }
}

/// A call succeeded exactly if its status is zero; otherwise the error holds the status, the
/// call that it was, and the message in its buffer.
pub proof fn lemma_reply_judged(
    kernel: Kernel,
    status: i32,
    error_buffer: &[u8],
    text: String,
    result: Result<(), Error>,
)
    requires
        call_ensures(check_reply, (kernel, status, error_buffer), result),
        call_ensures(error_buffer_to_string, (error_buffer,), text),
    ensures
        result is Ok <==> status == 0,
        result matches Err(error) ==> {
            &&& error matches Error::Device { kernel: failed, status: reported, message }
            &&& failed == kernel
            &&& reported == status
            &&& message@ == text@
        },
{
}

} // verus!

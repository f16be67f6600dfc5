//! The boundary for foreign callers: bytes in, bytes into a buffer of fixed
//! size out, and a closed set of error codes.
use vstd::prelude::*;
use vstd::string::StringSliceAdditionalSpecFns;
use vstd::utf8::{decode_utf8, valid_utf8};
use crate::json::json;
use crate::markup::{parsed_markup, MAX_INPUT_LEN};
use crate::{converted, Node};

verus! {

/// A failure inside the conversion that has no code of its own.
pub const ERR_UNSPECIFIED: i32 = -1;

/// The output buffer cannot hold the encoded tree.
pub const ERR_INSUFFICIENT_BUFFER: i32 = -2;

/// The input is not valid UTF-8.
pub const ERR_INVALID_STRING: i32 = -3;

/// The input is refused by classification.
pub const ERR_INVALID_BAD_DOCUMENT: i32 = -4;

/// The message for an error code, with its closing nul; nothing for a number
/// that is no error code.
pub open spec fn error_message(errno: i32) -> Option<Seq<char>> {
    if errno == ERR_UNSPECIFIED {
        Some("unspecified\0"@)
    } else if errno == ERR_INSUFFICIENT_BUFFER {
        Some("insufficient buffer\0"@)
    } else if errno == ERR_INVALID_STRING {
        Some("invalid string\0"@)
    } else if errno == ERR_INVALID_BAD_DOCUMENT {
        Some("invalid document\0"@)
    } else {
        None
    }
}

pub open spec fn message_view(message: Option<&'static str>) -> Option<Seq<char>> {
    match message {
        Some(message) => Some(message@),
        None => None,
    }
}

/// Looks up the message for an error code.
pub fn dehtml_errstr(errno: i32) -> (message: Option<&'static str>)
    ensures
        message_view(message) == error_message(errno),
{
    if errno == ERR_UNSPECIFIED {
        Some("unspecified\0")
    } else if errno == ERR_INSUFFICIENT_BUFFER {
        Some("insufficient buffer\0")
    } else if errno == ERR_INVALID_STRING {
        Some("invalid string\0")
    } else if errno == ERR_INVALID_BAD_DOCUMENT {
        Some("invalid document\0")
    } else {
        None
    }
}

/// `std::str::from_utf8` accepts exactly the valid UTF-8 byte sequences, and
/// the text it gives has the same bytes.
#[verifier::external_body]
fn utf8_text(bytes: &[u8]) -> (text: Option<&str>)
    ensures
        text is Some <==> valid_utf8(bytes@),
        text matches Some(text) ==> text.spec_bytes() == bytes@,
{
    std::str::from_utf8(bytes).ok()
}

/// What a call answers for `length` encoded bytes and a buffer of
/// `capacity` bytes: the length where it fits, else an error code.
pub open spec fn written(length: nat, capacity: nat) -> i32 {
    if length > capacity {
        ERR_INSUFFICIENT_BUFFER
    } else if length > i32::MAX {
        ERR_UNSPECIFIED
    } else {
        length as i32
    }
}

/// A buffer that is one byte too short, or shorter, is refused as
/// insufficient, whatever is to be written.
pub proof fn lemma_short_buffer_refused(length: nat, capacity: nat)
    requires
        capacity < length,
    ensures
        written(length, capacity) == ERR_INSUFFICIENT_BUFFER,
        written(length, (length - 1) as nat) == ERR_INSUFFICIENT_BUFFER,
{
}

/// Copies `bytes` to the front of `output` if they fit, and leaves `output`
/// as it is if they do not.
pub fn write_output(bytes: &[u8], output: &mut [u8]) -> (r: i32)
    ensures
        r == written(bytes@.len(), old(output)@.len()),
        r < 0 ==> final(output)@ == old(output)@,
        r >= 0 ==> final(output)@ == bytes@ + old(output)@.skip(bytes@.len() as int),
{
    if bytes.len() > output.len() {
        return ERR_INSUFFICIENT_BUFFER;
    }
    if bytes.len() > i32::MAX as usize {
        return ERR_UNSPECIFIED;
    }
    let mut i: usize = 0;
    while i < bytes.len()
        invariant
            i <= bytes.len() <= output.len(),
            output@.len() == old(output)@.len(),
            output@ == bytes@.take(i as int) + old(output)@.skip(i as int),
        decreases bytes.len() - i,
    {
        output[i] = bytes[i];
        i += 1;
    }
    assert(bytes@.take(i as int) == bytes@);
    bytes.len() as i32
}

/// Encodes a tree into `output`.
pub fn write_node(node: &Node, output: &mut [u8]) -> (r: i32)
    ensures
        r == written(json(node@).len(), old(output)@.len()),
        r < 0 ==> final(output)@ == old(output)@,
        r >= 0 ==> final(output)@ == json(node@) + old(output)@.skip(json(node@).len() as int),
{
    let bytes = node.serialize();
    write_output(bytes.as_slice(), output)
}

/// The encoded tree of an input, or the error code that the input earns.
pub open spec fn encoded(input: Seq<u8>) -> Result<Seq<u8>, i32> {
    if !valid_utf8(input) {
        Err(ERR_INVALID_STRING)
    } else if input.len() > MAX_INPUT_LEN {
        Err(ERR_UNSPECIFIED)
    } else {
        match converted(seq![parsed_markup(decode_utf8(input))]) {
            Ok(node) => Ok(json(node)),
            Err(_) => Err(ERR_INVALID_BAD_DOCUMENT),
        }
    }
}

/// Converts the post body in `input` and writes its tagged JSON to the front
/// of `output`. Answers the number of bytes written, or a negative error
/// code; then `output` is left as it was.
pub fn parse_html(input: &[u8], output: &mut [u8]) -> (r: i32)
    ensures
        match encoded(input@) {
            Ok(bytes) => {
                &&& r == written(bytes.len(), old(output)@.len())
                &&& r >= 0 ==> final(output)@ == bytes + old(output)@.skip(bytes.len() as int)
            },
            Err(code) => r == code,
        },
        r < 0 ==> final(output)@ == old(output)@,
{
    let text = match utf8_text(input) {
        Some(text) => text,
        None => {
            return ERR_INVALID_STRING;
        },
    };
    proof {
        vstd::utf8::encode_utf8_decode_utf8(text@);
    }
    if input.len() > MAX_INPUT_LEN {
        return ERR_UNSPECIFIED;
    }
    match crate::parse_html(text) {
        Ok(node) => write_node(&node, output),
        Err(_) => ERR_INVALID_BAD_DOCUMENT,
    }
}

} // verus!

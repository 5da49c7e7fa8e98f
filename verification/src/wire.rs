//! The wire format, stated as mathematics.
//!
//! A datagram is the address, the type tags and the argument payloads, in that
//! order. Text is NUL-terminated and every variable-length field is padded with
//! zero bytes to a multiple of four; numbers are big-endian and four bytes wide.
//!
//! [`encoding`] says which bytes a message becomes and [`decoding`] says what a
//! datagram means. Both are total: `decoding` names the error for every
//! datagram that it does not accept.
//!
//! The two are deliberately not mirror images. The encoder pads a blob's bytes
//! like any other field, while the decoder takes exactly the announced number
//! of bytes and goes on from there without skipping padding. What the decoder
//! accepts is therefore wider than what the encoder produces, and an argument
//! that follows a blob is read from that blob's padding.

use vstd::prelude::*;
use vstd::utf8::*;
use crate::errors::ErrorView;
use crate::message::{ArgView, MessageView};

verus! {

/// `n` zero bytes.
pub open spec fn zeros(n: int) -> Seq<u8> {
    Seq::new(n as nat, |i: int| 0u8)
}

/// How many zero bytes follow a field of `len` bytes: between one and four,
/// so that the field ends on a multiple of four and is always terminated.
pub open spec fn padding(len: int) -> int {
    4 - len % 4
}

/// A field followed by its padding.
pub open spec fn padded(bytes: Seq<u8>) -> Seq<u8> {
    bytes + zeros(padding(bytes.len() as int))
}

/// The four bytes of `x`, most significant first.
pub open spec fn be_bytes(x: u32) -> Seq<u8> {
    seq![
        (x / 0x100_0000) as u8,
        (x / 0x1_0000 % 0x100) as u8,
        (x / 0x100 % 0x100) as u8,
        (x % 0x100) as u8,
    ]
}

/// The number whose big-endian bytes are the first four of `bytes`.
pub open spec fn be_value(bytes: Seq<u8>) -> u32
    recommends
        bytes.len() >= 4,
{
    (bytes[0] * 0x100_0000 + bytes[1] * 0x1_0000 + bytes[2] * 0x100 + bytes[3]) as u32
}

/// The two's-complement bit pattern of `v`.
pub open spec fn bits_of(v: i32) -> u32 {
    if v >= 0 {
        v as u32
    } else {
        (v + 0x1_0000_0000) as u32
    }
}

/// The signed integer whose two's-complement bit pattern is `bits`.
pub open spec fn signed_of(bits: u32) -> i32 {
    if bits < 0x8000_0000 {
        bits as i32
    } else {
        (bits - 0x1_0000_0000) as i32
    }
}

/// A position as it is reported in an error: positions beyond the largest
/// `usize` are reported as that largest value.
pub open spec fn clip(position: int) -> usize {
    if position < 0 {
        0
    } else if position > usize::MAX {
        usize::MAX
    } else {
        position as usize
    }
}

/// The tag character that announces an argument.
pub open spec fn tag_of(arg: ArgView) -> char {
    match arg {
        ArgView::Int(_) => 'i',
        ArgView::Float(_) => 'f',
        ArgView::Str(_) => 's',
        ArgView::Blob(_) => 'b',
    }
}

/// Whether `tag` announces one of the four kinds of argument.
pub open spec fn known_tag(tag: char) -> bool {
    tag == 'i' || tag == 'f' || tag == 's' || tag == 'b'
}

/// The type-tag string of a list of arguments: a comma, then one tag each.
pub open spec fn type_tags(args: Seq<ArgView>) -> Seq<char> {
    seq![','] + Seq::new(args.len(), |i: int| tag_of(args[i]))
}

/// The payload of one argument.
pub open spec fn arg_bytes(arg: ArgView) -> Seq<u8> {
    match arg {
        ArgView::Int(v) => be_bytes(bits_of(v)),
        ArgView::Float(bits) => be_bytes(bits),
        ArgView::Str(s) => padded(encode_utf8(s)),
        ArgView::Blob(b) => be_bytes(b.len() as u32) + padded(b),
    }
}

/// The payloads of a list of arguments, one after the other.
pub open spec fn args_bytes(args: Seq<ArgView>) -> Seq<u8>
    decreases args.len(),
{
    if args.len() == 0 {
        Seq::empty()
    } else {
        arg_bytes(args[0]) + args_bytes(args.drop_first())
    }
}

/// Whether every blob among `args` is short enough for its length to be
/// written as a signed 32-bit count.
pub open spec fn encodable(args: Seq<ArgView>) -> bool {
    forall|i: int|
        0 <= i < args.len() ==> (#[trigger] args[i] matches ArgView::Blob(b) ==> b.len()
            <= i32::MAX)
}

/// The position of the first argument that cannot be encoded, or the number
/// of arguments if there is none.
pub open spec fn first_oversized(args: Seq<ArgView>) -> int
    decreases args.len(),
{
    if args.len() == 0 {
        0
    } else if args[0] matches ArgView::Blob(b) && b.len() > i32::MAX {
        0
    } else {
        1 + first_oversized(args.drop_first())
    }
}

/// The datagram that a message becomes.
pub open spec fn encoding(message: MessageView) -> Seq<u8> {
    padded(encode_utf8(message.address)) + padded(encode_utf8(type_tags(message.args)))
        + args_bytes(message.args)
}

/// The error for an argument that cannot be encoded: the largest length that
/// can be written, and the length that was asked for.
pub open spec fn too_long(arg: ArgView) -> ErrorView {
    match arg {
        ArgView::Blob(b) => ErrorView::DataLength(0x7fff_ffff, b.len() as usize),
        _ => ErrorView::DataLength(0x7fff_ffff, 0),
    }
}

/// What encoding a message gives: its datagram, or the error for the first
/// argument that cannot be encoded.
pub open spec fn encoded(message: MessageView) -> Result<Seq<u8>, ErrorView> {
    if encodable(message.args) {
        Ok(encoding(message))
    } else {
        Err(too_long(message.args[first_oversized(message.args)]))
    }
}

/// The end of the NUL-terminated field that starts at `from`: the position of
/// the first zero byte at or after `from`, or the end of the data if there is
/// none. A field that starts at or beyond the end of the data is empty.
pub open spec fn field_end(data: Seq<u8>, from: int) -> int
    decreases data.len() - from,
{
    if 0 <= from < data.len() && data[from] != 0 {
        field_end(data, from + 1)
    } else {
        from
    }
}

/// The bytes of the NUL-terminated field that starts at `from`.
pub open spec fn field(data: Seq<u8>, from: int) -> Seq<u8> {
    if 0 <= from < data.len() {
        data.subrange(from, field_end(data, from))
    } else {
        Seq::empty()
    }
}

/// The first multiple of four after `position`.
pub open spec fn next_boundary(position: int) -> int {
    position + 4 - position % 4
}

/// Where reading goes on after the NUL-terminated field that starts at `from`.
pub open spec fn after_field(data: Seq<u8>, from: int) -> int {
    next_boundary(field_end(data, from))
}

/// The error for a fixed-width field of `width` bytes wanted at `at` when the
/// data ends before it is complete: it names the position at which the data
/// ran out.
pub open spec fn ran_out(data: Seq<u8>, width: usize, at: int) -> ErrorView {
    ErrorView::DataLength(width, clip(if at > data.len() { at } else { data.len() as int }))
}

/// One argument of the kind that `tag` announces, read at `at`, together with
/// the position at which reading goes on.
pub open spec fn decode_arg(data: Seq<u8>, tag: char, at: int) -> Result<(ArgView, int), ErrorView>
    recommends
        known_tag(tag),
        0 <= at,
{
    if tag == 's' {
        let text = field(data, at);
        if valid_utf8(text) {
            Ok((ArgView::Str(decode_utf8(text)), after_field(data, at)))
        } else {
            Err(ErrorView::Utf8("OSC string"@))
        }
    } else if at + 4 > data.len() {
        Err(ran_out(data, 4, at))
    } else {
        let word = be_value(data.subrange(at, at + 4));
        if tag == 'i' {
            Ok((ArgView::Int(signed_of(word)), at + 4))
        } else if tag == 'f' {
            Ok((ArgView::Float(word), at + 4))
        } else {
            let size = signed_of(word);
            if size < 0 {
                Err(ErrorView::BlobSize(size))
            } else if at + 4 + size > data.len() {
                Err(ran_out(data, size as usize, at + 4))
            } else {
                Ok((ArgView::Blob(data.subrange(at + 4, at + 4 + size)), at + 4 + size))
            }
        }
    }
}

/// The arguments that `tags[k..]` announce, read one after the other from
/// `at`. The first argument that cannot be read decides the error.
pub open spec fn decode_args(data: Seq<u8>, tags: Seq<char>, k: int, at: int) -> Result<
    Seq<ArgView>,
    ErrorView,
>
    decreases tags.len() - k,
{
    if k < 0 || k >= tags.len() {
        Ok(Seq::empty())
    } else {
        match decode_arg(data, tags[k], at) {
            Err(e) => Err(e),
            Ok((arg, next)) => match decode_args(data, tags, k + 1, next) {
                Err(e) => Err(e),
                Ok(rest) => Ok(seq![arg] + rest),
            },
        }
    }
}

/// The position in `tags` of the first character that announces no kind of
/// argument, or the length of `tags` if there is none.
pub open spec fn first_unknown(tags: Seq<char>) -> int
    decreases tags.len(),
{
    if tags.len() == 0 {
        0
    } else if !known_tag(tags[0]) {
        0
    } else {
        1 + first_unknown(tags.drop_first())
    }
}

/// The tags that the text of a type-tag field announces, after its leading
/// comma; an empty field announces none. The comma is checked first, then each
/// tag's kind, and the first tag of no kind decides the error.
pub open spec fn decode_tags(marked: Seq<char>) -> Result<Seq<char>, ErrorView> {
    if marked.len() == 0 {
        Ok(marked)
    } else if marked[0] != ',' {
        Err(ErrorView::Malformed("OSC argument type tags"@))
    } else {
        let tags = marked.skip(1);
        if first_unknown(tags) < tags.len() {
            Err(ErrorView::UnrecognisedTypeTag(tags[first_unknown(tags)]))
        } else {
            Ok(tags)
        }
    }
}

/// What a datagram means: the message it carries, or why it carries none.
///
/// The checks come in a fixed order, and the first that fails decides the
/// error: the length, the address, the type tags as text, their leading
/// comma, each tag's kind, and only then the arguments, in order.
pub open spec fn decoding(data: Seq<u8>) -> Result<MessageView, ErrorView> {
    let address = field(data, 0);
    let tags_at = after_field(data, 0);
    let tag_text = field(data, tags_at);
    let args_at = after_field(data, tags_at);
    if data.len() % 4 != 0 {
        Err(ErrorView::Alignment(clip(data.len() as int), 4))
    } else if !valid_utf8(address) {
        Err(ErrorView::Utf8("OSC address"@))
    } else if !valid_utf8(tag_text) {
        Err(ErrorView::Utf8("OSC argument type tags"@))
    } else {
        match decode_tags(decode_utf8(tag_text)) {
            Err(e) => Err(e),
            Ok(tags) => match decode_args(data, tags, 0, args_at) {
                Err(e) => Err(e),
                Ok(args) => Ok(MessageView { address: decode_utf8(address), args }),
            },
        }
    }
}

} // verus!

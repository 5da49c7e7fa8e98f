//! What holds of the wire format as a whole.
//!
//! The laws are stated over [`encoding`] and [`decoding`], the functions by
//! which [`OscMessage::build`](crate::message::OscMessage::build) and
//! [`OscMessage::parse_bytes`](crate::message::OscMessage::parse_bytes) state
//! their results, so each law is one about what those two return.

use vstd::prelude::*;
use vstd::arithmetic::div_mod::lemma_fundamental_div_mod_converse;
use vstd::utf8::{
    char_is_scalar, char_u32_cast, decode_utf8, encode_scalar, encode_utf8, encode_utf8_decode_utf8,
    encode_utf8_valid_utf8, has_width_1_encoding, is_scalar, valid_utf8,
};
use crate::decode::lemma_field_end_step;
use crate::errors::ErrorView;
use crate::message::{ArgView, MessageView};
use crate::wire::{
    after_field, arg_bytes, args_bytes, be_bytes, be_value, bits_of, decode_arg, decode_args,
    decode_tags, decoding, encoding, field, field_end, known_tag, padded, padding, signed_of,
    tag_of, type_tags,
};

verus! {

/// Whether `text` is free of NUL characters.
pub open spec fn no_nul(text: Seq<char>) -> bool {
    forall|i: int| 0 <= i < text.len() ==> #[trigger] text[i] != '\0'
}

/// Whether `arg` can be carried: text must be free of NUL characters, since a
/// NUL ends it on the wire, and a blob's length must fit a signed 32-bit
/// count.
pub open spec fn carriable(arg: ArgView) -> bool {
    match arg {
        ArgView::Int(_) => true,
        ArgView::Float(_) => true,
        ArgView::Str(s) => no_nul(s),
        ArgView::Blob(b) => b.len() <= i32::MAX,
    }
}

/// Whether `arg` is the zero of its kind: the integer 0, the float with the
/// bit pattern 0, the empty text or the empty blob. Its payload is zero bytes
/// throughout.
pub open spec fn blank(arg: ArgView) -> bool {
    match arg {
        ArgView::Int(v) => v == 0,
        ArgView::Float(bits) => bits == 0,
        ArgView::Str(s) => s.len() == 0,
        ArgView::Blob(b) => b.len() == 0,
    }
}

/// Whether a message is valid: its address and every argument can be carried.
pub open spec fn valid(message: MessageView) -> bool {
    &&& no_nul(message.address)
    &&& forall|i: int| 0 <= i < message.args.len() ==> carriable(#[trigger] message.args[i])
}

/// Whether nothing but blank arguments follows a blob.
///
/// A decoder does not skip the padding after a blob, so whatever follows a
/// blob is read from zero bytes; only a blank argument reads back as itself.
pub open spec fn blobs_last(args: Seq<ArgView>) -> bool {
    forall|i: int, j: int|
        0 <= i < j < args.len() && (#[trigger] args[i]) is Blob ==> blank(#[trigger] args[j])
}

/// A field with its padding is a multiple of four long.
pub proof fn lemma_padded_len(bytes: Seq<u8>)
    ensures
        padded(bytes).len() == bytes.len() + padding(bytes.len() as int),
        1 <= padding(bytes.len() as int) <= 4,
        padded(bytes).len() % 4 == 0,
{
}

/// The payload of every argument is a multiple of four long.
pub proof fn lemma_arg_bytes_aligned(arg: ArgView)
    ensures
        arg_bytes(arg).len() % 4 == 0,
        arg_bytes(arg).len() >= 4,
{
    match arg {
        ArgView::Int(_) => {},
        ArgView::Float(_) => {},
        ArgView::Str(s) => {
            lemma_padded_len(encode_utf8(s));
        },
        ArgView::Blob(b) => {
            lemma_padded_len(b);
        },
    }
}

/// The payloads of any arguments are, together, a multiple of four long.
pub proof fn lemma_args_bytes_aligned(args: Seq<ArgView>)
    ensures
        args_bytes(args).len() % 4 == 0,
        args_bytes(args).len() >= 4 * args.len(),
    decreases args.len(),
{
    if args.len() > 0 {
        lemma_arg_bytes_aligned(args[0]);
        lemma_args_bytes_aligned(args.drop_first());
    }
}

/// Alignment: the datagram of every message is a multiple of four bytes long.
pub proof fn lemma_encoding_aligned(message: MessageView)
    ensures
        encoding(message).len() % 4 == 0,
{
    lemma_padded_len(encode_utf8(message.address));
    lemma_padded_len(encode_utf8(type_tags(message.args)));
    lemma_args_bytes_aligned(message.args);
}

/// No arguments: the datagram of a message without arguments is its padded
/// address and a type-tag field that holds the comma alone.
pub proof fn lemma_encoding_without_args(address: Seq<char>)
    ensures
        encoding(MessageView { address, args: Seq::empty() }) == padded(encode_utf8(address))
            + seq![0x2cu8, 0u8, 0u8, 0u8],
{
    let args = Seq::<ArgView>::empty();
    crate::encode::lemma_type_tags_bytes(args);
    assert(args_bytes(args) =~= Seq::<u8>::empty());
    assert(encoding(MessageView { address, args }) =~= padded(encode_utf8(address))
        + seq![0x2cu8, 0u8, 0u8, 0u8]);
}

/// Four big-endian bytes read back as the number they were written from.
pub proof fn lemma_be_round_trip(x: u32)
    ensures
        be_bytes(x).len() == 4,
        be_value(be_bytes(x)) == x,
{
}

/// A bit pattern reads back as the signed integer it was taken from.
pub proof fn lemma_signed_round_trip(v: i32)
    ensures
        signed_of(bits_of(v)) == v,
{
}

/// The UTF-8 encoding of a character other than NUL holds no zero byte.
proof fn lemma_scalar_bytes_nonzero(c: u32)
    requires
        c != 0,
        is_scalar(c),
    ensures
        forall|i: int| 0 <= i < encode_scalar(c).len() ==> #[trigger] encode_scalar(c)[i] != 0,
{
    if has_width_1_encoding(c) {
        assert((c & 0x7F) as u8 != 0) by (bit_vector)
            requires
                0 < c <= 0x7F,
        ;
    } else {
        assert(0x80 | (c & 0x3F) as u8 != 0) by (bit_vector);
        assert(0x80 | ((c >> 6) & 0x3F) as u8 != 0) by (bit_vector);
        assert(0x80 | ((c >> 12) & 0x3F) as u8 != 0) by (bit_vector);
        assert(0xC0 | ((c >> 6) & 0x1F) as u8 != 0) by (bit_vector);
        assert(0xE0 | ((c >> 12) & 0x0F) as u8 != 0) by (bit_vector);
        assert(0xF0 | ((c >> 18) & 0x7) as u8 != 0) by (bit_vector);
    }
}

/// Text without a NUL character is encoded without a zero byte.
pub proof fn lemma_no_nul_bytes(text: Seq<char>)
    requires
        no_nul(text),
    ensures
        forall|i: int| 0 <= i < encode_utf8(text).len() ==> #[trigger] encode_utf8(text)[i] != 0,
    decreases text.len(),
{
    if text.len() > 0 {
        let first = text[0] as u32;
        let rest = text.drop_first();
        char_is_scalar(text[0]);
        assert(first != 0) by {
            if first == 0 {
                char_u32_cast(text[0], 0);
                char_u32_cast('\0', 0);
            }
        }
        lemma_scalar_bytes_nonzero(first);
        lemma_no_nul_bytes(rest);
        assert forall|i: int| 0 <= i < encode_utf8(text).len() implies #[trigger] encode_utf8(
            text,
        )[i] != 0 by {
            if i >= encode_scalar(first).len() {
                assert(encode_utf8(text)[i] == encode_utf8(rest)[i - encode_scalar(first).len()]);
            }
        }
    }
}

/// Where `data` holds `text` at `at`, free of zero bytes and followed by a
/// zero byte, the field at `at` is `text`.
proof fn lemma_field_at(data: Seq<u8>, at: int, text: Seq<u8>)
    requires
        0 <= at,
        at + text.len() < data.len(),
        forall|i: int| 0 <= i < text.len() ==> text[i] != 0 && data[at + i] == #[trigger] text[i],
        data[at + text.len()] == 0,
    ensures
        field_end(data, at) == at + text.len(),
        field(data, at) == text,
{
    let end = at + text.len();
    assert forall|j: int| at <= j < end implies data[j] != 0 by {
        assert(data[j] == text[j - at]);
    }
    lemma_field_end_step(data, at, end);
}

/// Where `data` holds the padded `text` at the aligned position `at`, the
/// field at `at` is `text`, and reading goes on behind the padding.
proof fn lemma_padded_field(data: Seq<u8>, at: int, text: Seq<u8>)
    requires
        0 <= at,
        at % 4 == 0,
        at + padded(text).len() <= data.len(),
        data.subrange(at, at + padded(text).len()) == padded(text),
        forall|i: int| 0 <= i < text.len() ==> #[trigger] text[i] != 0,
    ensures
        field(data, at) == text,
        after_field(data, at) == at + padded(text).len(),
{
    lemma_padded_len(text);
    let whole = padded(text);
    let part = data.subrange(at, at + whole.len());
    assert forall|i: int| 0 <= i < text.len() implies text[i] != 0 && data[at + i]
        == #[trigger] text[i] by {
        assert(part[i] == whole[i]);
    }
    assert(data[at + text.len()] == 0) by {
        assert(part[text.len() as int] == whole[text.len() as int]);
    }
    lemma_field_at(data, at, text);
}

/// The payload of a blank argument is zero bytes throughout.
proof fn lemma_blank_bytes(arg: ArgView)
    requires
        blank(arg),
    ensures
        forall|i: int| 0 <= i < arg_bytes(arg).len() ==> #[trigger] arg_bytes(arg)[i] == 0,
{
}

/// The payloads of blank arguments are zero bytes throughout.
proof fn lemma_blank_args_bytes(args: Seq<ArgView>)
    requires
        forall|i: int| 0 <= i < args.len() ==> blank(#[trigger] args[i]),
    ensures
        forall|i: int| 0 <= i < args_bytes(args).len() ==> #[trigger] args_bytes(args)[i] == 0,
    decreases args.len(),
{
    if args.len() > 0 {
        let rest = args.drop_first();
        lemma_blank_bytes(args[0]);
        lemma_blank_args_bytes(rest);
        assert forall|i: int| 0 <= i < args_bytes(args).len() implies #[trigger] args_bytes(
            args,
        )[i] == 0 by {
            if i < arg_bytes(args[0]).len() {
                assert(args_bytes(args)[i] == arg_bytes(args[0])[i]);
            } else {
                assert(args_bytes(args)[i] == args_bytes(rest)[i - arg_bytes(args[0]).len()]);
            }
        }
    }
}

/// Blank arguments read back from zero bytes, wherever reading starts, as
/// long as four bytes are left for each.
proof fn lemma_decode_blank(data: Seq<u8>, args: Seq<ArgView>, tags: Seq<char>, k: int, at: int)
    requires
        0 <= k <= args.len(),
        tags.len() == args.len(),
        forall|i: int| 0 <= i < args.len() ==> #[trigger] tags[i] == tag_of(args[i]),
        forall|i: int| k <= i < args.len() ==> blank(#[trigger] args[i]),
        0 <= at,
        at + 4 * (args.len() - k) <= data.len(),
        forall|i: int| at <= i < data.len() ==> #[trigger] data[i] == 0,
    ensures
        decode_args(data, tags, k, at) == Ok::<Seq<ArgView>, ErrorView>(args.skip(k)),
    decreases args.len() - k,
{
    if k == args.len() {
        assert(args.skip(k) =~= Seq::<ArgView>::empty());
    } else {
        let arg = args[k];
        let next = match arg {
            ArgView::Str(_) => after_field(data, at),
            _ => at + 4,
        };
        match arg {
            ArgView::Str(s) => {
                encode_utf8_valid_utf8(s);
                encode_utf8_decode_utf8(s);
            },
            ArgView::Blob(b) => {
                assert(data.subrange(at + 4, at + 4) =~= b);
            },
            _ => {},
        }
        lemma_decode_blank(data, args, tags, k + 1, next);
        assert(seq![arg] + args.skip(k + 1) =~= args.skip(k));
    }
}

/// Where reading goes on after an argument that is read from its payload:
/// behind the payload, but for a blob, where it is behind the blob's bytes and
/// before their padding.
pub open spec fn after_arg(arg: ArgView, at: int) -> int {
    match arg {
        ArgView::Blob(b) => at + 4 + b.len(),
        _ => at + arg_bytes(arg).len(),
    }
}

/// An argument that can be carried reads back from its payload at an aligned
/// position.
proof fn lemma_aligned_arg(data: Seq<u8>, arg: ArgView, at: int)
    requires
        carriable(arg),
        0 <= at,
        at % 4 == 0,
        at + arg_bytes(arg).len() <= data.len(),
        data.subrange(at, at + arg_bytes(arg).len()) == arg_bytes(arg),
    ensures
        decode_arg(data, tag_of(arg), at) == Ok::<(ArgView, int), ErrorView>(
            (arg, after_arg(arg, at)),
        ),
        arg is Blob ==> after_arg(arg, at) < at + arg_bytes(arg).len(),
        forall|i: int|
            after_arg(arg, at) <= i < at + arg_bytes(arg).len() ==> #[trigger] data[i] == 0,
{
    let own = arg_bytes(arg);
    lemma_arg_bytes_aligned(arg);
    match arg {
        ArgView::Int(v) => {
            lemma_be_round_trip(bits_of(v));
            lemma_signed_round_trip(v);
        },
        ArgView::Float(bits) => {
            lemma_be_round_trip(bits);
        },
        ArgView::Str(s) => {
            lemma_no_nul_bytes(s);
            lemma_padded_field(data, at, encode_utf8(s));
            encode_utf8_valid_utf8(s);
            encode_utf8_decode_utf8(s);
        },
        ArgView::Blob(b) => {
            let size = b.len() as u32;
            lemma_be_round_trip(size);
            lemma_padded_len(b);
            assert(data.subrange(at + 4, at + 4 + b.len()) =~= b) by {
                assert forall|i: int| 0 <= i < b.len() implies data[at + 4 + i] == b[i] by {
                    assert(own[4 + i] == padded(b)[i]);
                }
            }
            assert forall|i: int| at + 4 + b.len() <= i < at + own.len() implies #[trigger] data[i]
                == 0 by {
                assert(own[i - at] == padded(b)[i - at - 4]);
            }
        },
    }
}

/// Payloads that stand one behind the other can be told apart: the first
/// argument's own, and behind it those of the others.
proof fn lemma_split_payloads(data: Seq<u8>, args: Seq<ArgView>, k: int, start: int)
    requires
        0 <= k < args.len(),
        0 <= start <= data.len(),
        data.subrange(start, data.len() as int) == args_bytes(args.skip(k)),
    ensures
        start + arg_bytes(args[k]).len() <= data.len(),
        data.subrange(start, start + arg_bytes(args[k]).len()) == arg_bytes(args[k]),
        data.subrange(start + arg_bytes(args[k]).len(), data.len() as int) == args_bytes(
            args.skip(k + 1),
        ),
{
    let arg = args[k];
    let rest = args.skip(k + 1);
    let own = arg_bytes(arg);
    let tail = data.subrange(start, data.len() as int);
    assert(args.skip(k).drop_first() =~= rest);
    assert(tail == own + args_bytes(rest));
    assert(tail.len() == own.len() + args_bytes(rest).len());
    assert(data.subrange(start, start + own.len()) =~= own) by {
        assert forall|i: int| 0 <= i < own.len() implies data[start + i] == own[i] by {
            assert(tail[i] == own[i]);
        }
    }
    assert(data.subrange(start + own.len(), data.len() as int) =~= args_bytes(rest)) by {
        assert forall|i: int| 0 <= i < args_bytes(rest).len() implies data[start + own.len() + i]
            == args_bytes(rest)[i] by {
            assert(tail[own.len() + i] == args_bytes(rest)[i]);
        }
    }
}

/// Arguments read back from their payloads, provided that each can be
/// carried and that only blank ones follow a blob.
proof fn lemma_decode_args(data: Seq<u8>, args: Seq<ArgView>, tags: Seq<char>, k: int, at: int)
    requires
        0 <= k <= args.len(),
        tags.len() == args.len(),
        forall|i: int| 0 <= i < args.len() ==> #[trigger] tags[i] == tag_of(args[i]),
        forall|i: int| 0 <= i < args.len() ==> carriable(#[trigger] args[i]),
        blobs_last(args),
        0 <= at <= data.len(),
        at % 4 == 0,
        data.subrange(at, data.len() as int) == args_bytes(args.skip(k)),
    ensures
        decode_args(data, tags, k, at) == Ok::<Seq<ArgView>, ErrorView>(args.skip(k)),
    decreases args.len() - k,
{
    if k == args.len() {
        assert(args.skip(k) =~= Seq::<ArgView>::empty());
    } else {
        let arg = args[k];
        let rest = args.skip(k + 1);
        let own = arg_bytes(arg);
        let next = after_arg(arg, at);
        lemma_split_payloads(data, args, k, at);
        lemma_aligned_arg(data, arg, at);
        lemma_arg_bytes_aligned(arg);
        lemma_args_bytes_aligned(rest);
        assert(seq![arg] + rest =~= args.skip(k));
        if arg is Blob {
            lemma_blank_args_bytes(rest);
            assert forall|i: int| next <= i < data.len() implies #[trigger] data[i] == 0 by {
                if i >= at + own.len() {
                    assert(data.subrange(at + own.len(), data.len() as int)[i - at - own.len()]
                        == args_bytes(rest)[i - at - own.len()]);
                }
            }
            lemma_decode_blank(data, args, tags, k + 1, next);
        } else {
            lemma_decode_args(data, args, tags, k + 1, next);
        }
    }
}

/// The tags that announce a list of arguments are all of a known kind.
proof fn lemma_type_tags(args: Seq<ArgView>)
    ensures
        no_nul(type_tags(args)),
        decode_tags(type_tags(args)) == Ok::<Seq<char>, ErrorView>(type_tags(args).skip(1)),
        type_tags(args).skip(1).len() == args.len(),
        forall|i: int| 0 <= i < args.len() ==> #[trigger] type_tags(args).skip(1)[i] == tag_of(
            args[i],
        ),
{
    let marked = type_tags(args);
    let tags = marked.skip(1);
    crate::decode::lemma_first_unknown(tags, tags.len() as int);
}

/// Where the payloads start in a message's datagram: behind the padded
/// address and the padded type tags.
pub open spec fn payload_start(message: MessageView) -> int {
    (padded(encode_utf8(message.address)).len() + padded(
        encode_utf8(type_tags(message.args)),
    ).len()) as int
}

/// The address and the type tags of a message read back from its datagram,
/// whatever its arguments are: what the datagram decodes to is decided by
/// reading the arguments from where the payloads start.
proof fn lemma_header(message: MessageView)
    requires
        no_nul(message.address),
    ensures
        ({
            let data = encoding(message);
            let at = payload_start(message);
            let tags = type_tags(message.args).skip(1);
            &&& 0 <= at <= data.len()
            &&& at % 4 == 0
            &&& data.subrange(at, data.len() as int) == args_bytes(message.args)
            &&& tags.len() == message.args.len()
            &&& forall|i: int|
                0 <= i < message.args.len() ==> #[trigger] tags[i] == tag_of(message.args[i])
            &&& decoding(data) == match decode_args(data, tags, 0, at) {
                Err(e) => Err::<MessageView, ErrorView>(e),
                Ok(args) => Ok(MessageView { address: message.address, args }),
            }
        }),
{
    let data = encoding(message);
    let address = encode_utf8(message.address);
    let marked = type_tags(message.args);
    let tag_text = encode_utf8(marked);
    let head = padded(address);
    let middle = padded(tag_text);
    lemma_encoding_aligned(message);
    lemma_padded_len(address);
    lemma_padded_len(tag_text);
    lemma_type_tags(message.args);
    lemma_no_nul_bytes(message.address);
    lemma_no_nul_bytes(marked);
    encode_utf8_valid_utf8(message.address);
    encode_utf8_decode_utf8(message.address);
    encode_utf8_valid_utf8(marked);
    encode_utf8_decode_utf8(marked);

    assert(data.subrange(0, head.len() as int) =~= head);
    lemma_padded_field(data, 0, address);
    let tags_at = head.len() as int;
    assert(data.subrange(tags_at, tags_at + middle.len()) =~= middle);
    lemma_padded_field(data, tags_at, tag_text);
}

/// Round trip: a valid message in which only blank arguments follow a blob
/// is what its datagram decodes to.
///
/// The second condition is there because a decoder takes a blob's bytes
/// without the padding that an encoder writes behind them. A message such as
/// a one-byte blob followed by the integer 1 is valid, and its datagram
/// decodes to the blob followed by the integer 0.
/// [`lemma_round_trip_only`] shows that no valid message without the second
/// condition comes back.
pub proof fn lemma_round_trip(message: MessageView)
    requires
        valid(message),
        blobs_last(message.args),
    ensures
        decoding(encoding(message)) == Ok::<MessageView, ErrorView>(message),
{
    let data = encoding(message);
    lemma_header(message);
    assert(message.args.skip(0) =~= message.args);
    lemma_decode_args(
        data,
        message.args,
        type_tags(message.args).skip(1),
        0,
        payload_start(message),
    );
    assert(decoding(data) == Ok::<MessageView, ErrorView>(
        MessageView { address: message.address, args: message.args },
    ));
}

/// Encoding again: what the datagram of such a message decodes to has the
/// same datagram, byte for byte.
pub proof fn lemma_reencoding(message: MessageView)
    requires
        valid(message),
        blobs_last(message.args),
    ensures
        decoding(encoding(message)) matches Ok(decoded) && encoding(decoded) == encoding(message),
{
    lemma_round_trip(message);
}

/// Four bytes are the big-endian bytes of the number they spell.
proof fn lemma_be_value_round_trip(bytes: Seq<u8>)
    requires
        bytes.len() == 4,
    ensures
        be_bytes(be_value(bytes)) == bytes,
{
    let b0 = bytes[0] as int;
    let b1 = bytes[1] as int;
    let b2 = bytes[2] as int;
    let b3 = bytes[3] as int;
    let value = be_value(bytes) as int;
    lemma_fundamental_div_mod_converse(value, 0x100_0000, b0, b1 * 0x1_0000 + b2 * 0x100 + b3);
    lemma_fundamental_div_mod_converse(value, 0x1_0000, b0 * 0x100 + b1, b2 * 0x100 + b3);
    lemma_fundamental_div_mod_converse(b0 * 0x100 + b1, 0x100, b0, b1);
    lemma_fundamental_div_mod_converse(value, 0x100, b0 * 0x1_0000 + b1 * 0x100 + b2, b3);
    lemma_fundamental_div_mod_converse(b0 * 0x1_0000 + b1 * 0x100 + b2, 0x100, b0 * 0x100 + b1, b2);
    assert(be_bytes(be_value(bytes)) =~= bytes);
}

/// A number other than zero is not what is read from a position before its
/// bytes, across zero bytes.
proof fn lemma_lagged_word(data: Seq<u8>, at: int, start: int, x: u32)
    requires
        0 <= at < start,
        start + 4 <= data.len(),
        forall|i: int| at <= i < start ==> #[trigger] data[i] == 0,
        data.subrange(start, start + 4) == be_bytes(x),
        x != 0,
    ensures
        be_value(data.subrange(at, at + 4)) != x,
{
    // If the number were read, the bytes read would be its own. The first of
    // them is zero, and each of the others is zero or an earlier one of them,
    // so all would be zero.
    let read = data.subrange(at, at + 4);
    if be_value(read) == x {
        lemma_be_value_round_trip(read);
        lemma_be_round_trip(x);
    }
}

/// A blank argument reads back from a position before its payload, across
/// zero bytes, and reading goes on before the end of its payload.
proof fn lemma_lagged_blank(data: Seq<u8>, arg: ArgView, at: int, start: int)
    requires
        blank(arg),
        0 <= at < start,
        start + arg_bytes(arg).len() <= data.len(),
        data.subrange(start, start + arg_bytes(arg).len()) == arg_bytes(arg),
        forall|i: int| at <= i < start ==> #[trigger] data[i] == 0,
    ensures
        decode_arg(data, tag_of(arg), at) matches Ok((read, next)) && read == arg && at <= next
            < start + arg_bytes(arg).len(),
        forall|i: int| at <= i < start + arg_bytes(arg).len() ==> #[trigger] data[i] == 0,
{
    let own = arg_bytes(arg);
    lemma_blank_bytes(arg);
    lemma_arg_bytes_aligned(arg);
    assert forall|i: int| at <= i < start + own.len() implies #[trigger] data[i] == 0 by {
        if i >= start {
            assert(data.subrange(start, start + own.len())[i - start] == own[i - start]);
        }
    }
    match arg {
        ArgView::Str(s) => {
            encode_utf8_valid_utf8(s);
            encode_utf8_decode_utf8(s);
        },
        ArgView::Blob(b) => {
            assert(data.subrange(at + 4, at + 4) =~= b);
        },
        _ => {},
    }
}

/// An argument that is not blank does not read back from a position before
/// its payload, across zero bytes.
proof fn lemma_lagged_arg(data: Seq<u8>, arg: ArgView, at: int, start: int)
    requires
        carriable(arg),
        !blank(arg),
        0 <= at < start,
        start + arg_bytes(arg).len() <= data.len(),
        data.subrange(start, start + arg_bytes(arg).len()) == arg_bytes(arg),
        forall|i: int| at <= i < start ==> #[trigger] data[i] == 0,
    ensures
        decode_arg(data, tag_of(arg), at) matches Ok((read, _)) ==> read != arg,
{
    let own = arg_bytes(arg);
    lemma_arg_bytes_aligned(arg);
    match arg {
        ArgView::Str(s) => {},
        ArgView::Int(v) => {
            lemma_lagged_word(data, at, start, bits_of(v));
            lemma_signed_round_trip(v);
        },
        ArgView::Float(bits) => {
            lemma_lagged_word(data, at, start, bits);
        },
        ArgView::Blob(b) => {
            let size = b.len() as u32;
            assert(data.subrange(start, start + 4) =~= be_bytes(size)) by {
                assert forall|i: int| 0 <= i < 4 implies data[start + i] == be_bytes(size)[i] by {
                    assert(data.subrange(start, start + own.len())[i] == own[i]);
                }
            }
            lemma_lagged_word(data, at, start, size);
        },
    }
}

/// Reading that goes on differently does not give the same arguments.
proof fn lemma_step_differs(
    data: Seq<u8>,
    args: Seq<ArgView>,
    tags: Seq<char>,
    k: int,
    at: int,
    next: int,
)
    requires
        0 <= k < args.len(),
        tags.len() == args.len(),
        decode_arg(data, tags[k], at) == Ok::<(ArgView, int), ErrorView>((args[k], next)),
        decode_args(data, tags, k + 1, next) != Ok::<Seq<ArgView>, ErrorView>(args.skip(k + 1)),
    ensures
        decode_args(data, tags, k, at) != Ok::<Seq<ArgView>, ErrorView>(args.skip(k)),
{
    match decode_args(data, tags, k + 1, next) {
        Err(e) => {},
        Ok(more) => {
            if seq![args[k]] + more == args.skip(k) {
                assert(more =~= (seq![args[k]] + more).skip(1));
                assert(args.skip(k).skip(1) =~= args.skip(k + 1));
            }
        },
    }
}

/// What is read from a position before the payloads, across zero bytes, is
/// not the arguments, if one of them is not blank.
proof fn lemma_lagging_fails(
    data: Seq<u8>,
    args: Seq<ArgView>,
    tags: Seq<char>,
    k: int,
    at: int,
    start: int,
    j: int,
)
    requires
        0 <= k <= j < args.len(),
        tags.len() == args.len(),
        forall|i: int| 0 <= i < args.len() ==> #[trigger] tags[i] == tag_of(args[i]),
        forall|i: int| 0 <= i < args.len() ==> carriable(#[trigger] args[i]),
        !blank(args[j]),
        0 <= at < start <= data.len(),
        data.subrange(start, data.len() as int) == args_bytes(args.skip(k)),
        forall|i: int| at <= i < start ==> #[trigger] data[i] == 0,
    ensures
        decode_args(data, tags, k, at) != Ok::<Seq<ArgView>, ErrorView>(args.skip(k)),
    decreases j - k,
{
    let arg = args[k];
    let own = arg_bytes(arg);
    lemma_split_payloads(data, args, k, start);
    if blank(arg) {
        lemma_lagged_blank(data, arg, at, start);
        let next = decode_arg(data, tags[k], at)->Ok_0.1;
        lemma_lagging_fails(data, args, tags, k + 1, next, start + own.len(), j);
        lemma_step_differs(data, args, tags, k, at, next);
    } else {
        lemma_lagged_arg(data, arg, at, start);
    }
}

/// What is read from the payloads is not the arguments, if one of them is a
/// blob and a later one is not blank.
proof fn lemma_aligned_fails(
    data: Seq<u8>,
    args: Seq<ArgView>,
    tags: Seq<char>,
    k: int,
    at: int,
    i: int,
    j: int,
)
    requires
        0 <= k <= i < j < args.len(),
        tags.len() == args.len(),
        forall|p: int| 0 <= p < args.len() ==> #[trigger] tags[p] == tag_of(args[p]),
        forall|p: int| 0 <= p < args.len() ==> carriable(#[trigger] args[p]),
        args[i] is Blob,
        !blank(args[j]),
        0 <= at <= data.len(),
        at % 4 == 0,
        data.subrange(at, data.len() as int) == args_bytes(args.skip(k)),
    ensures
        decode_args(data, tags, k, at) != Ok::<Seq<ArgView>, ErrorView>(args.skip(k)),
    decreases i - k,
{
    let arg = args[k];
    let own = arg_bytes(arg);
    let next = after_arg(arg, at);
    lemma_split_payloads(data, args, k, at);
    lemma_aligned_arg(data, arg, at);
    lemma_arg_bytes_aligned(arg);
    if arg is Blob {
        lemma_lagging_fails(data, args, tags, k + 1, next, at + own.len(), j);
    } else {
        lemma_aligned_fails(data, args, tags, k + 1, next, i, j);
    }
    lemma_step_differs(data, args, tags, k, at, next);
}

/// Round trip, the other way round: a valid message that its datagram
/// decodes to has only blank arguments after a blob.
///
/// Together with [`lemma_round_trip`]: a valid message comes back from its
/// datagram exactly if only blank arguments follow a blob in it.
pub proof fn lemma_round_trip_only(message: MessageView)
    requires
        valid(message),
        decoding(encoding(message)) == Ok::<MessageView, ErrorView>(message),
    ensures
        blobs_last(message.args),
{
    let data = encoding(message);
    let args = message.args;
    let tags = type_tags(args).skip(1);
    lemma_header(message);
    assert(args.skip(0) =~= args);
    assert forall|i: int, j: int|
        0 <= i < j < args.len() && (#[trigger] args[i]) is Blob implies blank(
        #[trigger] args[j],
    ) by {
        if !blank(args[j]) {
            lemma_aligned_fails(data, args, tags, 0, payload_start(message), i, j);
        }
    }
}

/// Unknown tags: a datagram of aligned length whose address and type tags are
/// text, whose type tags start with a comma, and in which the character at
/// `k` is the first after the comma that is none of `i`, `f`, `s` and `b`,
/// is refused as holding that unrecognised type tag, whatever follows.
pub proof fn lemma_unknown_tag(data: Seq<u8>, k: int)
    requires
        data.len() % 4 == 0,
        valid_utf8(field(data, 0)),
        valid_utf8(field(data, after_field(data, 0))),
        ({
            let marked = decode_utf8(field(data, after_field(data, 0)));
            &&& 0 < k < marked.len()
            &&& marked[0] == ','
            &&& !known_tag(marked[k])
            &&& forall|j: int| 0 < j < k ==> known_tag(#[trigger] marked[j])
        }),
    ensures
        decoding(data) == Err::<MessageView, ErrorView>(
            ErrorView::UnrecognisedTypeTag(decode_utf8(field(data, after_field(data, 0)))[k]),
        ),
{
    let marked = decode_utf8(field(data, after_field(data, 0)));
    let tags = marked.skip(1);
    crate::decode::lemma_first_unknown(tags, k - 1);
}

/// Negative blob sizes: where the argument that `tags[k]` announces is a blob
/// and the four bytes at `at` spell a negative number, reading the arguments
/// from there is refused with that number as the invalid size.
pub proof fn lemma_negative_blob_size(data: Seq<u8>, tags: Seq<char>, k: int, at: int)
    requires
        0 <= k < tags.len(),
        tags[k] == 'b',
        0 <= at,
        at + 4 <= data.len(),
        signed_of(be_value(data.subrange(at, at + 4))) < 0,
    ensures
        decode_args(data, tags, k, at) == Err::<Seq<ArgView>, ErrorView>(
            ErrorView::BlobSize(signed_of(be_value(data.subrange(at, at + 4)))),
        ),
{
}

} // verus!

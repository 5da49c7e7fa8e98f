//! From messages to datagrams.

use vstd::prelude::*;
use vstd::utf8::{encode_utf8, is_ascii_chars, is_ascii_chars_encode_utf8};
use vstd::slice::slice_to_vec;
use crate::errors::{Error, ErrorView};
use crate::message::{args_view, Arg, ArgView, OscMessage};
use crate::wire::{
    arg_bytes, args_bytes, be_bytes, bits_of, encodable, encoded, encoding, first_oversized,
    known_tag, padded, padding, tag_of, too_long, type_tags, zeros,
};

verus! {

/// Appending an argument appends its payload.
pub proof fn lemma_args_bytes_push(args: Seq<ArgView>, arg: ArgView)
    ensures
        args_bytes(args.push(arg)) == args_bytes(args) + arg_bytes(arg),
    decreases args.len(),
{
    let longer = args.push(arg);
    if args.len() == 0 {
        assert(args_bytes(longer.drop_first()) =~= Seq::<u8>::empty());
        assert(args_bytes(longer) == arg_bytes(arg) + args_bytes(longer.drop_first()));
        assert(args_bytes(args) =~= Seq::<u8>::empty());
        assert(args_bytes(longer) =~= args_bytes(args) + arg_bytes(arg));
    } else {
        assert(longer.drop_first() =~= args.drop_first().push(arg));
        lemma_args_bytes_push(args.drop_first(), arg);
        assert(args_bytes(longer) == arg_bytes(args[0]) + args_bytes(longer.drop_first()));
        assert(args_bytes(longer) =~= args_bytes(args) + arg_bytes(arg));
    }
}

/// The first argument that cannot be encoded is the one before which all can.
pub proof fn lemma_first_oversized(args: Seq<ArgView>, k: int)
    requires
        0 <= k <= args.len(),
        encodable(args.take(k)),
        k < args.len() ==> !encodable(args.take(k + 1)),
    ensures
        first_oversized(args) == k,
    decreases args.len(),
{
    if k > 0 {
        assert(args.take(k)[0] == args[0]);
        let rest = args.drop_first();
        assert forall|i: int| 0 <= i < rest.take(k - 1).len() implies (#[trigger] rest.take(
            k - 1,
        )[i] matches ArgView::Blob(b) ==> b.len() <= i32::MAX) by {
            assert(rest.take(k - 1)[i] == args.take(k)[i + 1]);
        }
        if k < args.len() {
            if encodable(rest.take(k)) {
                assert forall|i: int| 0 <= i < args.take(k + 1).len() implies (#[trigger] args.take(
                    k + 1,
                )[i] matches ArgView::Blob(b) ==> b.len() <= i32::MAX) by {
                    if i > 0 {
                        assert(args.take(k + 1)[i] == rest.take(k)[i - 1]);
                    }
                }
            }
        }
        lemma_first_oversized(rest, k - 1);
    }
}

/// The type tags are plain ASCII, so their text is one byte per tag.
pub proof fn lemma_type_tags_bytes(args: Seq<ArgView>)
    ensures
        encode_utf8(type_tags(args)) == Seq::new(
            args.len() + 1,
            |i: int| type_tags(args)[i] as u8,
        ),
{
    let tags = type_tags(args);
    is_ascii_chars_encode_utf8(tags);
}

/// Appends the zero bytes that terminate and align a field of `len` bytes.
fn write_padding(out: &mut Vec<u8>, len: usize)
    ensures
        final(out)@ == old(out)@ + zeros(padding(len as int)),
{
    let count: usize = 4 - len % 4;
    let mut written: usize = 0;
    while written < count
        invariant
            written <= count,
            count == padding(len as int),
            out@ == old(out)@ + zeros(written as int),
        decreases count - written,
    {
        out.push(0u8);
        written += 1;
    }
}

/// Appends the four bytes of `x`, most significant first.
fn write_word(out: &mut Vec<u8>, x: u32)
    ensures
        final(out)@ == old(out)@ + be_bytes(x),
{
    out.push((x / 0x100_0000) as u8);
    out.push((x / 0x1_0000 % 0x100) as u8);
    out.push((x / 0x100 % 0x100) as u8);
    out.push((x % 0x100) as u8);
    assert(out@ =~= old(out)@ + be_bytes(x));
}

/// The two's-complement bit pattern of `v`.
pub fn bits_from_i32(v: i32) -> (bits: u32)
    ensures
        bits == bits_of(v),
{
    if v >= 0 {
        v as u32
    } else {
        ((v - i32::MIN) as u32) + 0x8000_0000u32
    }
}

/// The tag character that announces `arg`.
pub fn arg_char_repr(arg: &Arg) -> (tag: char)
    ensures
        tag == tag_of(arg@),
        known_tag(tag),
{
    match arg {
        Arg::Int(_) => 'i',
        Arg::Float(_) => 'f',
        Arg::Str(_) => 's',
        Arg::Blob(_) => 'b',
    }
}

/// The bytes of `arg`, NUL-terminated and padded to a multiple of four.
///
/// Between one and four zero bytes are added: text whose length is already a
/// multiple of four gets four.
pub fn write_string(arg: &str) -> (bytes: Vec<u8>)
    ensures
        bytes@ == padded(encode_utf8(arg@)),
        bytes@.len() % 4 == 0,
{
    let mut bytes = slice_to_vec(arg.as_bytes());
    let len = bytes.len();
    write_padding(&mut bytes, len);
    bytes
}

/// The length of `arg` as a signed 32-bit big-endian count, then its bytes,
/// padded to a multiple of four.
///
/// A blob longer than `i32::MAX` bytes has no such count and is refused.
pub fn write_blob(arg: Vec<u8>) -> (r: Result<Vec<u8>, Error>)
    ensures
        match r {
            Ok(bytes) => {
                &&& arg@.len() <= i32::MAX
                &&& bytes@ == arg_bytes(ArgView::Blob(arg@))
                &&& bytes@.len() % 4 == 0
            },
            Err(e) => {
                &&& arg@.len() > i32::MAX
                &&& e@ == ErrorView::DataLength(0x7fff_ffff, arg@.len() as usize)
            },
        },
{
    write_blob_bytes(arg.as_slice())
}

/// The payload of the blob that holds `blob`; the length is looked at before
/// any byte is copied.
fn write_blob_bytes(blob: &[u8]) -> (r: Result<Vec<u8>, Error>)
    ensures
        match r {
            Ok(bytes) => {
                &&& blob@.len() <= i32::MAX
                &&& bytes@ == arg_bytes(ArgView::Blob(blob@))
                &&& bytes@.len() % 4 == 0
            },
            Err(e) => {
                &&& blob@.len() > i32::MAX
                &&& e@ == ErrorView::DataLength(0x7fff_ffff, blob@.len() as usize)
            },
        },
{
    let len = blob.len();
    if len > 0x7fff_ffff {
        return Err(Error::DataLength(0x7fff_ffff, len));
    }
    let mut bytes: Vec<u8> = Vec::new();
    write_word(&mut bytes, len as u32);
    bytes.extend_from_slice(blob);
    write_padding(&mut bytes, len);
    assert(bytes@ =~= be_bytes(len as u32) + padded(blob@));
    Ok(bytes)
}

/// The payload of one argument.
pub fn write_arg(arg: &Arg) -> (r: Result<Vec<u8>, Error>)
    ensures
        match r {
            Ok(bytes) => {
                &&& encodable(seq![arg@])
                &&& bytes@ == arg_bytes(arg@)
                &&& bytes@.len() % 4 == 0
            },
            Err(e) => {
                &&& !encodable(seq![arg@])
                &&& e@ == too_long(arg@)
            },
        },
{
    assert(seq![arg@][0] == arg@);
    match arg {
        Arg::Float(bits) => {
            let mut bytes: Vec<u8> = Vec::new();
            write_word(&mut bytes, *bits);
            assert(bytes@ =~= be_bytes(*bits));
            Ok(bytes)
        },
        Arg::Int(v) => {
            let mut bytes: Vec<u8> = Vec::new();
            write_word(&mut bytes, bits_from_i32(*v));
            assert(bytes@ =~= be_bytes(bits_of(*v)));
            Ok(bytes)
        },
        Arg::Str(s) => Ok(write_string(s.as_str())),
        Arg::Blob(b) => write_blob_bytes(b.as_slice()),
    }
}

impl OscMessage {
    /// The datagram for this message: the padded address, the padded type
    /// tags, then each argument's payload in order.
    ///
    /// Fails only where an argument is a blob longer than `i32::MAX` bytes;
    /// the error is that of the first such argument.
    pub fn build(&self) -> (r: Result<Vec<u8>, Error>)
        ensures
            match r {
                Ok(bytes) => encoded(self@) == Ok::<Seq<u8>, ErrorView>(bytes@) && bytes@.len() % 4
                    == 0,
                Err(e) => encoded(self@) == Err::<Seq<u8>, ErrorView>(e@),
            },
    {
        let ghost args = args_view(self.args@);
        let mut msg = write_string(self.address.as_str());
        let mut tags: Vec<u8> = Vec::new();
        tags.push(',' as u8);
        let mut payload: Vec<u8> = Vec::new();
        let count = self.args.len();
        let mut k: usize = 0;
        while k < count
            invariant
                k <= count,
                count == self.args@.len(),
                args == args_view(self.args@),
                tags@ == Seq::new((k + 1) as nat, |i: int| type_tags(args)[i] as u8),
                payload@ == args_bytes(args.take(k as int)),
                payload@.len() % 4 == 0,
                encodable(args.take(k as int)),
            decreases count - k,
        {
            let arg = &self.args[k];
            assert(args.take(k + 1) =~= args.take(k as int).push(arg@));
            tags.push(arg_char_repr(arg) as u8);
            match write_arg(arg) {
                Ok(mut bytes) => {
                    proof {
                        lemma_args_bytes_push(args.take(k as int), arg@);
                        assert forall|i: int| 0 <= i < k + 1 implies (#[trigger] args.take(
                            k + 1,
                        )[i] matches ArgView::Blob(b) ==> b.len() <= i32::MAX) by {
                            if i == k {
                                assert(args.take(k + 1)[i] == seq![arg@][0]);
                            }
                        }
                    }
                    payload.append(&mut bytes);
                },
                Err(e) => {
                    proof {
                        assert(args.take(k + 1)[k as int] == arg@);
                        lemma_first_oversized(args, k as int);
                    }
                    return Err(e);
                },
            }
            k += 1;
        }
        proof {
            assert(args.take(count as int) =~= args);
            lemma_type_tags_bytes(args);
        }
        let tags_len = tags.len();
        msg.append(&mut tags);
        write_padding(&mut msg, tags_len);
        msg.append(&mut payload);
        assert(msg@ =~= encoding(self@));
        Ok(msg)
    }
}

} // verus!

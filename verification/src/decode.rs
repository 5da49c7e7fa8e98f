//! From datagrams to messages.

use vstd::prelude::*;
use vstd::utf8::{encode_utf8, encode_utf8_decode_utf8, valid_utf8};
use crate::encode::arg_char_repr;
use crate::errors::{Error, ErrorView};
use crate::message::{args_view, Arg, ArgView, MessageView, OscMessage};
use crate::wire::{
    after_field, be_value, clip, decode_arg, decode_args, decode_tags, decoding, field,
    field_end, first_unknown, known_tag, ran_out, signed_of, tag_of,
};

verus! {

/// The text that `bytes` spell in UTF-8, if they spell any.
///
/// Calls `String::from_utf8`, which is taken at its documentation: it succeeds
/// exactly on valid UTF-8, and the text it returns consists of the given bytes.
#[verifier::external_body]
fn text_from_utf8(bytes: Vec<u8>) -> (text: Option<String>)
    ensures
        text is Some <==> valid_utf8(bytes@),
        text matches Some(s) ==> encode_utf8(s@) == bytes@,
{
    match String::from_utf8(bytes) {
        Ok(s) => Some(s),
        Err(_) => None,
    }
}

/// How many bytes a read of `wanted` bytes at `start` can take from data of
/// length `len`: all of them, or as many as are left.
pub open spec fn available(len: int, start: int, wanted: int) -> int {
    if start + wanted <= len {
        wanted
    } else if start < len {
        len - start
    } else {
        0
    }
}

/// The argument that stands in for a tag until its payload has been read.
pub open spec fn placeholder(tag: char) -> ArgView {
    if tag == 'i' {
        ArgView::Int(0)
    } else if tag == 'f' {
        ArgView::Float(0)
    } else if tag == 's' {
        ArgView::Str(Seq::empty())
    } else {
        ArgView::Blob(Seq::empty())
    }
}

/// Arguments already read, followed by what reading the rest gives.
spec fn after(done: Seq<ArgView>, rest: Result<Seq<ArgView>, ErrorView>) -> Result<
    Seq<ArgView>,
    ErrorView,
> {
    match rest {
        Err(e) => Err(e),
        Ok(more) => Ok(done + more),
    }
}

/// A NUL-terminated field ends where it would end if it started at any later
/// position that only non-zero bytes separate from its start.
pub proof fn lemma_field_end_step(data: Seq<u8>, from: int, i: int)
    requires
        0 <= from <= i <= data.len(),
        forall|j: int| from <= j < i ==> data[j] != 0,
    ensures
        field_end(data, from) == field_end(data, i),
    decreases i - from,
{
    if from < i {
        lemma_field_end_step(data, from + 1, i);
    }
}

/// A NUL-terminated field ends within the data, or where it starts.
pub proof fn lemma_field_end_bounds(data: Seq<u8>, from: int)
    requires
        0 <= from,
    ensures
        from <= field_end(data, from),
        field_end(data, from) <= data.len() || field_end(data, from) == from,
    decreases data.len() - from,
{
    if from < data.len() && data[from] != 0 {
        lemma_field_end_bounds(data, from + 1);
    }
}

/// The first tag that announces no kind of argument is the one before which
/// every tag announces one.
pub proof fn lemma_first_unknown(tags: Seq<char>, k: int)
    requires
        0 <= k <= tags.len(),
        forall|j: int| 0 <= j < k ==> known_tag(#[trigger] tags[j]),
        k < tags.len() ==> !known_tag(tags[k]),
    ensures
        first_unknown(tags) == k,
    decreases tags.len(),
{
    if tags.len() > 0 && k > 0 {
        let rest = tags.drop_first();
        lemma_first_unknown(rest, k - 1);
    }
}

/// A position that was clipped reads like the position itself.
proof fn lemma_clipped(data: Seq<u8>, at: int, idx: usize)
    requires
        0 <= at,
        idx == clip(at),
        data.len() <= usize::MAX,
    ensures
        field(data, at) == field(data, idx as int),
        clip(after_field(data, at)) == clip(after_field(data, idx as int)),
        at + 4 <= data.len() <==> idx + 4 <= data.len(),
        at + 4 <= data.len() ==> at == idx,
        ran_out(data, 4, at) == ran_out(data, 4, idx as int),
{
}

/// Copies `arr.len()` bytes of `data`, starting at `*idx`, into `arr`, and
/// moves `*idx` past them.
///
/// Where `data` ends too early, the bytes that are there are still copied,
/// `*idx` stops at the position at which they ran out, and the error names the
/// length wanted and that position.
pub fn scan_into_byte_array(arr: &mut [u8], idx: &mut usize, data: &[u8]) -> (r: Result<
    (),
    Error,
>)
    ensures
        final(arr)@.len() == old(arr)@.len(),
        ({
            let start = *old(idx) as int;
            let wanted = old(arr)@.len() as int;
            let copied = available(data@.len() as int, start, wanted);
            &&& *final(idx) == start + copied
            &&& forall|i: int| 0 <= i < copied ==> final(arr)@[i] == data@[start + i]
            &&& forall|i: int| copied <= i < wanted ==> final(arr)@[i] == old(arr)@[i]
            &&& match r {
                Ok(()) => copied == wanted,
                Err(e) => copied < wanted && e@ == ErrorView::DataLength(
                    wanted as usize,
                    (start + copied) as usize,
                ),
            }
        }),
{
    let length = arr.len();
    let ghost start = *idx as int;
    let mut filled: usize = 0;
    while filled < length
        invariant
            arr@.len() == length,
            length == old(arr)@.len(),
            start == *old(idx),
            filled <= length,
            *idx == start + filled,
            start + filled <= data@.len() || filled == 0,
            forall|i: int| 0 <= i < filled ==> arr@[i] == data@[start + i],
            forall|i: int| filled <= i < length ==> arr@[i] == old(arr)@[i],
        decreases length - filled,
    {
        if *idx >= data.len() {
            return Err(Error::DataLength(length, *idx));
        }
        arr[filled] = data[*idx];
        *idx += 1;
        filled += 1;
    }
    Ok(())
}

/// The bytes of the NUL-terminated field that starts at `*idx`; `*idx` moves to
/// the next multiple of four after the field's end, or stays at the largest
/// `usize` if that is smaller.
fn scan_field(data: &[u8], idx: &mut usize) -> (bytes: Vec<u8>)
    ensures
        bytes@ == field(data@, *old(idx) as int),
        *final(idx) == clip(after_field(data@, *old(idx) as int)),
{
    let ghost start = *idx as int;
    let mut bytes: Vec<u8> = Vec::new();
    while *idx < data.len() && data[*idx] != 0
        invariant
            start == *old(idx),
            start <= *idx,
            *idx <= data@.len() || *idx == start,
            forall|j: int| start <= j < *idx ==> data@[j] != 0,
            bytes@.len() == *idx - start,
            forall|j: int| 0 <= j < bytes@.len() ==> bytes@[j] == data@[start + j],
        decreases data@.len() - *idx,
    {
        bytes.push(data[*idx]);
        *idx += 1;
    }
    proof {
        if start < data@.len() {
            lemma_field_end_step(data@, start, *idx as int);
            assert(bytes@ =~= data@.subrange(start, *idx as int));
        } else {
            assert(bytes@ =~= Seq::<u8>::empty());
        }
    }
    *idx = idx.saturating_add(4 - *idx % 4);
    bytes
}

/// The number whose big-endian bytes are `bytes`.
fn word_from(bytes: &[u8; 4]) -> (word: u32)
    ensures
        word == be_value(bytes@),
{
    let b0: u32 = bytes[0] as u32;
    let b1: u32 = bytes[1] as u32;
    let b2: u32 = bytes[2] as u32;
    let b3: u32 = bytes[3] as u32;
    b0 * 0x100_0000 + b1 * 0x1_0000 + b2 * 0x100 + b3
}

/// The signed integer whose two's-complement bit pattern is `bits`.
pub fn i32_from_bits(bits: u32) -> (v: i32)
    ensures
        v == signed_of(bits),
{
    if bits < 0x8000_0000 {
        bits as i32
    } else {
        ((bits - 0x8000_0000) as i32) + i32::MIN
    }
}

/// The argument that stands in for `tag` until its payload has been read;
/// a tag other than `i`, `f`, `s` and `b` is refused.
pub fn type_tag_to_default_arg(tag: char) -> (r: Result<Arg, Error>)
    ensures
        match r {
            Ok(arg) => known_tag(tag) && arg@ == placeholder(tag) && tag_of(arg@) == tag,
            Err(e) => !known_tag(tag) && e@ == ErrorView::UnrecognisedTypeTag(tag),
        },
{
    if tag == 'i' {
        Ok(Arg::Int(0))
    } else if tag == 'f' {
        Ok(Arg::Float(0))
    } else if tag == 's' {
        Ok(Arg::Str(String::new()))
    } else if tag == 'b' {
        Ok(Arg::Blob(Vec::new()))
    } else {
        Err(Error::UnrecognisedTypeTag(tag))
    }
}

/// Reading one more argument extends what has been read.
proof fn lemma_after_step(
    data: Seq<u8>,
    tags: Seq<char>,
    done: Seq<ArgView>,
    k: int,
    at: int,
    arg: ArgView,
    next: int,
)
    requires
        0 <= k < tags.len(),
        decode_arg(data, tags[k], at) == Ok::<(ArgView, int), ErrorView>((arg, next)),
    ensures
        after(done, decode_args(data, tags, k, at)) == after(
            done.push(arg),
            decode_args(data, tags, k + 1, next),
        ),
{
    match decode_args(data, tags, k + 1, next) {
        Err(e) => {},
        Ok(rest) => {
            assert(done + (seq![arg] + rest) =~= done.push(arg) + rest);
        },
    }
}

/// One typed slot for each tag of `tag_text`, which is the text of a type-tag
/// field with its leading comma. No payload has been read yet: each slot
/// holds the placeholder of its kind.
fn typed_slots(tag_text: &str) -> (r: Result<Vec<Arg>, Error>)
    ensures
        match r {
            Ok(slots) => {
                &&& decode_tags(tag_text@) matches Ok(tags)
                &&& slots@.len() == tags.len()
                &&& forall|j: int|
                    0 <= j < tags.len() ==> known_tag(#[trigger] tags[j]) && slots@[j]@
                        == placeholder(tags[j])
            },
            Err(e) => decode_tags(tag_text@) == Err::<Seq<char>, ErrorView>(e@),
        },
{
    let ghost marked = tag_text@;
    let mut slots: Vec<Arg> = Vec::new();
    let mut seen_marker = false;
    for tag in it: tag_text.chars()
        invariant
            marked == tag_text@,
            it.seq() == marked,
            seen_marker == (it.index() > 0),
            seen_marker ==> marked[0] == ',',
            slots@.len() == if it.index() > 0 {
                it.index() - 1
            } else {
                0
            },
            forall|j: int|
                0 <= j < slots@.len() ==> known_tag(#[trigger] marked[j + 1]) && slots@[j]@
                    == placeholder(marked[j + 1]),
    {
        if !seen_marker {
            if tag != ',' {
                return Err(Error::Malformed("OSC argument type tags".to_string()));
            }
            seen_marker = true;
        } else {
            match type_tag_to_default_arg(tag) {
                Ok(slot) => {
                    slots.push(slot);
                },
                Err(e) => {
                    proof {
                        let tags = marked.skip(1);
                        let k = slots@.len() as int;
                        lemma_first_unknown(tags, k);
                    }
                    return Err(e);
                },
            }
        }
    }
    proof {
        if marked.len() > 0 {
            let tags = marked.skip(1);
            lemma_first_unknown(tags, tags.len() as int);
        }
    }
    Ok(slots)
}

/// Reads at `*idx` one argument of the kind that `tag` announces, and moves
/// `*idx` to where reading goes on. `at` is the position that `*idx` stands
/// for.
fn read_arg(data: &[u8], tag: char, idx: &mut usize, Ghost(at): Ghost<int>) -> (r: Result<
    Arg,
    Error,
>)
    requires
        known_tag(tag),
        0 <= at,
        *old(idx) == clip(at),
    ensures
        match r {
            Ok(arg) => {
                &&& decode_arg(data@, tag, at) matches Ok((value, next))
                &&& arg@ == value
                &&& 0 <= next
                &&& *final(idx) == clip(next)
            },
            Err(e) => decode_arg(data@, tag, at) == Err::<(ArgView, int), ErrorView>(e@),
        },
{
    let len = data.len();
    proof {
        lemma_clipped(data@, at, *idx);
        lemma_field_end_bounds(data@, at);
    }
    if tag == 's' {
        let text_bytes = scan_field(data, idx);
        match text_from_utf8(text_bytes) {
            Some(text) => {
                proof {
                    encode_utf8_decode_utf8(text@);
                }
                Ok(Arg::Str(text))
            },
            None => Err(Error::Utf8("OSC string".to_string())),
        }
    } else {
        let mut four_bytes: [u8; 4] = [0; 4];
        match scan_into_byte_array(&mut four_bytes, idx, data) {
            Ok(()) => {},
            Err(e) => {
                return Err(e);
            },
        }
        assert(four_bytes@ =~= data@.subrange(at, at + 4));
        let word = word_from(&four_bytes);
        if tag == 'i' {
            Ok(Arg::Int(i32_from_bits(word)))
        } else if tag == 'f' {
            Ok(Arg::Float(word))
        } else {
            let blob_size = i32_from_bits(word);
            if blob_size < 0 {
                return Err(Error::BlobSize(blob_size));
            }
            let size = blob_size as usize;
            if size > len - *idx {
                return Err(Error::DataLength(size, len));
            }
            let mut blob: Vec<u8> = vec![0u8; size];
            match scan_into_byte_array(blob.as_mut_slice(), idx, data) {
                Ok(()) => {},
                Err(e) => {
                    return Err(e);
                },
            }
            assert(blob@ =~= data@.subrange(at + 4, at + 4 + size));
            Ok(Arg::Blob(blob))
        }
    }
}

impl OscMessage {
    /// The message that `data` carries.
    ///
    /// The address and the type tags are NUL-terminated text, each followed by
    /// padding to a multiple of four; the arguments follow in the order of
    /// their tags. Bytes after the last argument are ignored, and so is the
    /// padding that an encoder writes after a blob: an argument that follows a
    /// blob is read from the position at which the blob's bytes end.
    ///
    /// Every datagram gets either its message or the one error that
    /// [`decoding`] names for it; nothing is returned half-read.
    #[verifier::loop_isolation(false)]
    pub fn parse_bytes(data: &[u8]) -> (r: Result<Self, Error>)
        ensures
            match r {
                Ok(message) => decoding(data@) == Ok::<MessageView, ErrorView>(message@),
                Err(e) => decoding(data@) == Err::<MessageView, ErrorView>(e@),
            },
    {
        if data.len() % 4 != 0 {
            return Err(Error::Alignment(data.len(), 4));
        }
        let mut idx: usize = 0;
        let address_bytes = scan_field(data, &mut idx);
        let ghost tags_at = after_field(data@, 0);
        let address = match text_from_utf8(address_bytes) {
            Some(text) => text,
            None => {
                return Err(Error::Utf8("OSC address".to_string()));
            },
        };
        proof {
            lemma_field_end_bounds(data@, 0);
            lemma_clipped(data@, tags_at, idx);
            encode_utf8_decode_utf8(address@);
        }
        let tag_bytes = scan_field(data, &mut idx);
        let ghost args_at = after_field(data@, tags_at);
        let tag_text = match text_from_utf8(tag_bytes) {
            Some(text) => text,
            None => {
                return Err(Error::Utf8("OSC argument type tags".to_string()));
            },
        };
        proof {
            lemma_field_end_bounds(data@, tags_at);
            encode_utf8_decode_utf8(tag_text@);
        }
        // First pass: one typed slot for each tag, before any payload is read.
        let mut args = match typed_slots(tag_text.as_str()) {
            Ok(slots) => slots,
            Err(e) => {
                return Err(e);
            },
        };
        let ghost tags = decode_tags(tag_text@)->Ok_0;

        // Second pass: fill the slots from the payloads, in tag order.
        let count = args.len();
        let ghost mut at: int = args_at;
        let mut k: usize = 0;
        while k < count
            invariant
                k <= count,
                count == args@.len(),
                count == tags.len(),
                0 <= at,
                idx == clip(at),
                forall|j: int| k <= j < count ==> tag_of(#[trigger] args@[j]@) == tags[j],
                forall|j: int| 0 <= j < count ==> known_tag(#[trigger] tags[j]),
                decode_args(data@, tags, 0, args_at) == after(
                    args_view(args@).take(k as int),
                    decode_args(data@, tags, k as int, at),
                ),
            decreases count - k,
        {
            let tag = arg_char_repr(&args[k]);
            let ghost done = args_view(args@).take(k as int);
            let filled = match read_arg(data, tag, &mut idx, Ghost(at)) {
                Ok(arg) => arg,
                Err(e) => {
                    return Err(e);
                },
            };
            proof {
                let next = decode_arg(data@, tag, at)->Ok_0.1;
                lemma_after_step(data@, tags, done, k as int, at, filled@, next);
                at = next;
            }
            args[k] = filled;
            assert(args_view(args@).take(k + 1) =~= done.push(filled@));
            k += 1;
        }
        proof {
            assert(args_view(args@).take(count as int) =~= args_view(args@));
        }
        Ok(OscMessage { address, args })
    }
}

} // verus!

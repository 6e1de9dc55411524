//! Frames: the escape sequences that carry a command and its payload.
//!
//! One frame is `ESC _ G q=<quiet>[,<fields>][,m=<0|1>] ; <payload> ESC \`.
//! A payload of at most [`IMAGE_CHUNK_SIZE`] characters travels in one frame
//! without an `m` flag. A longer one is cut into chunks of exactly that size:
//! every full chunk goes out in a frame with `m=1`, the first of them with
//! the fields, and what is left, which may be nothing, goes out in a last
//! frame with `m=0`.

use vstd::prelude::*;
use vstd::string::StrSliceExecFns;
use vstd::string::is_ascii_spec_bytes;
use crate::fields::{
    Field, KittyImageFields, has_key, lemma_index_of_absent, lemma_without_key_unique, lookup,
    serialize, unique_keys, without_key,
};
use crate::payload::{base64_encode, base64_standard, encoded_len};
use crate::value::KittyImageCmdValue;

verus! {

/// The number of payload characters that one frame carries at most.
pub const IMAGE_CHUNK_SIZE: usize = 4096;

/// Why a command was not written.
#[derive(Debug, Clone, Copy, PartialEq, Eq)]
pub enum KittyImageWriteError {
    /// The command had no field at all.
    NoFields,
}

impl KittyImageWriteError {
    /// What the error says, in words.
    pub fn message(&self) -> (text: &'static str)
        ensures
            text@ == "No fields given"@,
    {
        "No fields given"
    }
}

/// One frame, as the terminal reads it.
pub struct Frame {
    /// The quiet level, which leads the frame's fields.
    pub quiet: KittyImageCmdValue,
    /// The fields that follow the quiet level.
    pub fields: Seq<Field>,
    /// The `m` flag: absent, `m=1` (more frames follow) or `m=0` (the last
    /// frame of several).
    pub more: Option<bool>,
    /// The payload characters that the frame carries.
    pub payload: Seq<char>,
}

/// The text of the `m` flag.
pub open spec fn more_text(more: Option<bool>) -> Seq<char> {
    match more {
        None => Seq::empty(),
        Some(true) => seq![',', 'm', '=', '1'],
        Some(false) => seq![',', 'm', '=', '0'],
    }
}

/// The head of a frame: the introducer, the quiet level, the fields and the
/// `m` flag, closed by the `;` that leads the payload.
pub open spec fn frame_head(frame: Frame) -> Seq<char> {
    seq!['\u{1b}', '_', 'G', 'q', '='] + frame.quiet.text() + serialize(frame.fields) + more_text(
        frame.more,
    ) + seq![';']
}

/// The text of one frame.
pub open spec fn frame_text(frame: Frame) -> Seq<char> {
    frame_head(frame) + frame.payload + seq!['\u{1b}', '\\']
}

/// The text of a sequence of frames: one frame after the other.
pub open spec fn stream(frames: Seq<Frame>) -> Seq<char>
    decreases frames.len(),
{
    if frames.len() == 0 {
        Seq::empty()
    } else {
        stream(frames.drop_last()) + frame_text(frames.last())
    }
}

/// The number of frames that carry a payload of `len` characters.
pub open spec fn frame_count(len: nat) -> nat {
    if len <= IMAGE_CHUNK_SIZE {
        1
    } else {
        len / (IMAGE_CHUNK_SIZE as nat) + 1
    }
}

/// The smaller of `a` and `b`.
pub open spec fn at_most(a: int, b: int) -> int {
    if a <= b {
        a
    } else {
        b
    }
}

/// The frame at position `at` among those that carry `payload`.
pub open spec fn frame_at(
    quiet: KittyImageCmdValue,
    fields: Seq<Field>,
    payload: Seq<char>,
    at: int,
) -> Frame {
    let count = frame_count(payload.len());
    let len = payload.len() as int;
    Frame {
        quiet,
        fields: if at == 0 {
            fields
        } else {
            Seq::empty()
        },
        more: if count == 1 {
            None
        } else {
            Some(at < count - 1)
        },
        payload: payload.subrange(
            at_most(at * IMAGE_CHUNK_SIZE, len),
            at_most((at + 1) * IMAGE_CHUNK_SIZE, len),
        ),
    }
}

/// The frames that carry `payload` under the quiet level `quiet` and the
/// fields `fields`.
pub open spec fn frames(quiet: KittyImageCmdValue, fields: Seq<Field>, payload: Seq<char>) -> Seq<
    Frame,
> {
    Seq::new(frame_count(payload.len()), |at: int| frame_at(quiet, fields, payload, at))
}

/// The quiet level of a field set: the value of its `q` field, or the
/// unsigned 0 where it has none.
pub open spec fn quiet_of(fields: Seq<Field>) -> KittyImageCmdValue {
    match lookup(fields, 'q') {
        Some(quiet) => quiet,
        None => KittyImageCmdValue::U(0),
    }
}

/// The text of the whole command: the frames that carry `payload`, led by the
/// quiet level of `fields` and, in the first frame, by its other fields.
pub open spec fn message(fields: Seq<Field>, payload: Seq<char>) -> Seq<char> {
    stream(frames(quiet_of(fields), without_key(fields, 'q'), payload))
}

/// The payload characters of a sequence of frames, one frame after the other.
pub open spec fn payloads(frames: Seq<Frame>) -> Seq<char>
    decreases frames.len(),
{
    if frames.len() == 0 {
        Seq::empty()
    } else {
        payloads(frames.drop_last()) + frames.last().payload
    }
}

/// The number of chunks that hold `len` characters: `len` divided by the
/// chunk size, rounded up.
pub open spec fn chunks_needed(len: nat) -> nat {
    (len + IMAGE_CHUNK_SIZE - 1) as nat / (IMAGE_CHUNK_SIZE as nat)
}

/// The first `done` frames carry the payload up to their end.
proof fn lemma_payloads_prefix(
    quiet: KittyImageCmdValue,
    fields: Seq<Field>,
    payload: Seq<char>,
    done: int,
)
    requires
        0 <= done <= frame_count(payload.len()),
    ensures
        payloads(frames(quiet, fields, payload).take(done)) == payload.take(
            at_most(done * IMAGE_CHUNK_SIZE, payload.len() as int),
        ),
    decreases done,
{
    let all = frames(quiet, fields, payload);
    let len = payload.len() as int;
    if done == 0 {
        assert(payloads(all.take(0)) =~= payload.take(0));
    } else {
        lemma_payloads_prefix(quiet, fields, payload, done - 1);
        let upto = all.take(done);
        assert(upto.drop_last() =~= all.take(done - 1));
        assert(upto.last() == frame_at(quiet, fields, payload, done - 1));
        assert(payload.take(at_most((done - 1) * IMAGE_CHUNK_SIZE, len)) + payload.subrange(
            at_most((done - 1) * IMAGE_CHUNK_SIZE, len),
            at_most(done * IMAGE_CHUNK_SIZE, len),
        ) =~= payload.take(at_most(done * IMAGE_CHUNK_SIZE, len)));
    }
}

/// How a payload is laid out over its frames.
///
/// A payload of at most one chunk travels in a single frame without an `m`
/// flag. A longer one travels in one frame more than it has full chunks:
/// each frame but the last carries exactly one chunk and `m=1`, and the last
/// carries what is left, less than a chunk and possibly nothing, and `m=0`.
/// The frames that carry any payload at all are the first
/// `chunks_needed(len)` ones. The fields travel in the first frame only, and
/// the frames' payloads, put together, are the payload.
pub proof fn lemma_frame_layout(
    quiet: KittyImageCmdValue,
    fields: Seq<Field>,
    payload: Seq<char>,
)
    ensures
        frames(quiet, fields, payload).len() == (if payload.len() <= IMAGE_CHUNK_SIZE {
            1
        } else {
            payload.len() / (IMAGE_CHUNK_SIZE as nat) + 1
        }),
        payload.len() <= IMAGE_CHUNK_SIZE ==> frames(quiet, fields, payload)[0].more == None::<
            bool,
        >,
        payload.len() > IMAGE_CHUNK_SIZE ==> frames(quiet, fields, payload).last().more == Some(
            false,
        ) && frames(quiet, fields, payload).last().payload.len() < IMAGE_CHUNK_SIZE,
        forall|at: int|
            0 <= at < frames(quiet, fields, payload).len() - 1 ==> {
                &&& (#[trigger] frames(quiet, fields, payload)[at]).more == Some(true)
                &&& frames(quiet, fields, payload)[at].payload.len() == IMAGE_CHUNK_SIZE
            },
        forall|at: int|
            0 <= at < frames(quiet, fields, payload).len() ==> {
                &&& (#[trigger] frames(quiet, fields, payload)[at]).quiet == quiet
                &&& frames(quiet, fields, payload)[at].fields == (if at == 0 {
                    fields
                } else {
                    Seq::empty()
                })
                &&& (frames(quiet, fields, payload)[at].payload.len() > 0 <==> at < chunks_needed(
                    payload.len(),
                ))
            },
        payloads(frames(quiet, fields, payload)) == payload,
{
    let all = frames(quiet, fields, payload);
    let count = all.len() as int;
    lemma_payloads_prefix(quiet, fields, payload, count);
    assert(all.take(count) =~= all);
    assert(payload.take(payload.len() as int) =~= payload);
}

/// The quiet level leads every frame and stands nowhere among its fields.
///
/// Each frame of a command starts with `q=` and the quiet level of the field
/// set, and no field that follows has the key `q`: the text after the quiet
/// level holds no second `q` field.
pub proof fn lemma_quiet_written_once(fields: Seq<Field>, payload: Seq<char>, at: int)
    requires
        unique_keys(fields),
        0 <= at < frame_count(payload.len()),
    ensures
        frames(quiet_of(fields), without_key(fields, 'q'), payload)[at].quiet == quiet_of(fields),
        !has_key(frames(quiet_of(fields), without_key(fields, 'q'), payload)[at].fields, 'q'),
        forall|i: int|
            0 <= i < frames(quiet_of(fields), without_key(fields, 'q'), payload)[at].fields.len()
                ==> (#[trigger] frames(
                quiet_of(fields),
                without_key(fields, 'q'),
                payload,
            )[at].fields[i]).0 != 'q',
{
    lemma_without_key_unique(fields, 'q');
    lemma_index_of_absent(Seq::<Field>::empty(), 'q');
}

/// A payload of at most one chunk makes a command of exactly one frame,
/// without an `m` flag.
pub proof fn lemma_single_frame(fields: Seq<Field>, payload: Seq<char>)
    requires
        payload.len() <= IMAGE_CHUNK_SIZE,
    ensures
        message(fields, payload) == frame_text(
            (Frame {
                quiet: quiet_of(fields),
                fields: without_key(fields, 'q'),
                more: None,
                payload,
            }),
        ),
{
    let all = frames(quiet_of(fields), without_key(fields, 'q'), payload);
    assert(payload.subrange(0, payload.len() as int) =~= payload);
    assert(all.drop_last() =~= Seq::<Frame>::empty());
    assert(stream(all.drop_last()) =~= Seq::<char>::empty());
    assert(stream(all) =~= frame_text(all.last()));
}

/// One more frame extends the text of the frames before it.
pub proof fn lemma_stream_step(all: Seq<Frame>, done: int)
    requires
        0 <= done < all.len(),
    ensures
        stream(all.take(done + 1)) == stream(all.take(done)) + frame_text(all[done]),
{
    let upto = all.take(done + 1);
    assert(upto.drop_last() =~= all.take(done));
    assert(upto.last() == all[done]);
}

/// Appends what every frame starts with: the introducer and `q=`.
fn write_intro(out: &mut String)
    ensures
        final(out)@ == old(out)@ + seq!['\u{1b}', '_', 'G', 'q', '='],
{
    out.push('\u{1b}');
    out.push('_');
    out.push('G');
    out.push('q');
    out.push('=');
    assert(out@ =~= old(out)@ + seq!['\u{1b}', '_', 'G', 'q', '=']);
}

/// Appends the `m` flag.
fn write_more(out: &mut String, more: Option<bool>)
    ensures
        final(out)@ == old(out)@ + more_text(more),
{
    match more {
        Some(more_follow) => {
            out.push(',');
            out.push('m');
            out.push('=');
            out.push(if more_follow { '1' } else { '0' });
        },
        None => {},
    }
    assert(out@ =~= old(out)@ + more_text(more));
}

/// Appends the string terminator that ends every frame.
fn write_terminator(out: &mut String)
    ensures
        final(out)@ == old(out)@ + seq!['\u{1b}', '\\'],
{
    out.push('\u{1b}');
    out.push('\\');
    assert(out@ =~= old(out)@ + seq!['\u{1b}', '\\']);
}

/// Appends one frame to `out`. `fields` is `None` for a frame without fields.
fn write_frame(
    out: &mut String,
    quiet: KittyImageCmdValue,
    fields: Option<&KittyImageFields>,
    more: Option<bool>,
    payload: &str,
)
    ensures
        final(out)@ == old(out)@ + frame_text(
            (Frame {
                quiet,
                fields: match fields {
                    Some(fields) => fields@,
                    None => Seq::empty(),
                },
                more,
                payload: payload@,
            }),
        ),
{
    let ghost frame = Frame {
        quiet,
        fields: match fields {
            Some(fields) => fields@,
            None => Seq::empty(),
        },
        more,
        payload: payload@,
    };
    write_intro(out);
    quiet.write_to(out);
    let ghost with_quiet = out@;
    match fields {
        Some(fields) => {
            fields.write_to(out);
        },
        None => {
            assert(out@ =~= with_quiet + serialize(Seq::<Field>::empty()));
        },
    }
    let ghost with_fields = out@;
    write_more(out, more);
    out.push(';');
    let ghost with_head = out@;
    assert(with_head =~= old(out)@ + frame_head(frame)) by {
        assert(with_fields == with_quiet + serialize(frame.fields));
        assert(with_head == (with_fields + more_text(more)).push(';'));
    }
    out.push_str(payload);
    write_terminator(out);
    assert(out@ =~= old(out)@ + frame_text(frame));
}

/// Writes the command with the fields `fields` and the payload text
/// `encoded` to `out`, cut into frames.
///
/// `encoded` is the payload as it travels, that is after base64 encoding:
/// ASCII text, so that its characters are its bytes and a chunk is as long in
/// the one as in the other. A command without any field is refused, and `out`
/// is then left as it was.
pub fn write_frames(encoded: &str, fields: KittyImageFields, out: &mut String) -> (written: Result<
    (),
    KittyImageWriteError,
>)
    requires
        fields.wf(),
        encoded.is_ascii(),
    ensures
        fields@.len() == 0 ==> written == Err::<(), KittyImageWriteError>(
            KittyImageWriteError::NoFields,
        ) && final(out)@ == old(out)@,
        fields@.len() > 0 ==> written == Ok::<(), KittyImageWriteError>(()) && final(out)@ == old(
            out,
        )@ + message(fields@, encoded@),
{
    if fields.is_empty() {
        return Err(KittyImageWriteError::NoFields);
    }
    let mut fields = fields;
    let quiet = match fields.remove('q') {
        Some(quiet) => quiet,
        None => KittyImageCmdValue::U(0),
    };
    let len = encoded.as_bytes().len();
    let ghost all = frames(quiet, fields@, encoded@);
    proof {
        is_ascii_spec_bytes(encoded);
        assert(stream(all.take(0)) =~= Seq::<char>::empty());
    }
    if len <= IMAGE_CHUNK_SIZE {
        write_frame(out, quiet, Some(&fields), None, encoded);
        proof {
            assert(encoded@.subrange(0, len as int) =~= encoded@);
            lemma_stream_step(all, 0);
            assert(all.take(1) =~= all);
        }
    } else {
        write_frame(
            out,
            quiet,
            Some(&fields),
            Some(true),
            encoded.substring_ascii(0, IMAGE_CHUNK_SIZE),
        );
        proof {
            lemma_stream_step(all, 0);
        }
        let mut start: usize = IMAGE_CHUNK_SIZE;
        let ghost mut done: int = 1;
        while len - start >= IMAGE_CHUNK_SIZE
            invariant
                encoded.is_ascii(),
                len == encoded@.len(),
                len > IMAGE_CHUNK_SIZE,
                all == frames(quiet, fields@, encoded@),
                all.len() == len / IMAGE_CHUNK_SIZE + 1,
                1 <= done < all.len(),
                start == done * IMAGE_CHUNK_SIZE,
                start <= len,
                out@ == old(out)@ + stream(all.take(done)),
            decreases len - start,
        {
            write_frame(
                out,
                quiet,
                None,
                Some(true),
                encoded.substring_ascii(start, start + IMAGE_CHUNK_SIZE),
            );
            proof {
                lemma_stream_step(all, done);
                done = done + 1;
            }
            start += IMAGE_CHUNK_SIZE;
        }
        write_frame(out, quiet, None, Some(false), encoded.substring_ascii(start, len));
        proof {
            lemma_stream_step(all, done);
            assert(all.take(done + 1) =~= all);
        }
    }
    Ok(())
}

/// Writes the command with the fields `fields` and the payload `buf` to
/// `out`: the payload is base64 encoded and cut into frames.
///
/// A command without any field is refused before anything is encoded, and
/// `out` is then left as it was. The encoded payload has four characters for
/// every three bytes of `buf` or part of three, which fixes the number of
/// frames.
pub fn kitty_image_write(buf: &[u8], fields: KittyImageFields, out: &mut String) -> (written:
    Result<(), KittyImageWriteError>)
    requires
        fields.wf(),
        encoded_len(buf@.len()) <= usize::MAX,
    ensures
        fields@.len() == 0 ==> written == Err::<(), KittyImageWriteError>(
            KittyImageWriteError::NoFields,
        ) && final(out)@ == old(out)@,
        fields@.len() > 0 ==> written == Ok::<(), KittyImageWriteError>(()) && final(out)@ == old(
            out,
        )@ + message(fields@, base64_standard(buf@)) && base64_standard(buf@).len()
            == encoded_len(buf@.len()),
{
    if fields.is_empty() {
        return Err(KittyImageWriteError::NoFields);
    }
    let encoded = base64_encode(buf);
    write_frames(encoded.as_str(), fields, out)
}

} // verus!

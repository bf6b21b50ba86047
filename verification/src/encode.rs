//! Encoding frames onto a byte buffer.

use vstd::prelude::*;
use crate::num::{i64_to_dec, u64_to_dec};
use crate::types::{Frame, RedisProtocolError, RedisProtocolErrorKind};
use crate::utils::{frame_enc, frames_enc, lemma_frames_enc_take_snoc, crlf, encode_len};

verus! {

/// Appends the wire form of `f` to `out`.
fn write_frame(out: &mut Vec<u8>, f: &Frame)
    ensures
        final(out)@ == old(out)@ + frame_enc(*f),
    decreases *f,
{
    broadcast use vstd::std_specs::vec::group_vec_axioms;

    match *f {
        Frame::SimpleString(ref s) => {
            out.push(crate::types::SIMPLESTRING_BYTE);
            out.extend_from_slice(s.as_str().as_bytes());
            out.push(13);
            out.push(10);
            proof {
                assert(out@ =~= old(out)@ + frame_enc(*f));
            }
        },
        Frame::Error(ref s) => {
            out.push(crate::types::ERROR_BYTE);
            out.extend_from_slice(s.as_str().as_bytes());
            out.push(13);
            out.push(10);
            proof {
                assert(out@ =~= old(out)@ + frame_enc(*f));
            }
        },
        Frame::Moved(ref s) => {
            out.push(crate::types::ERROR_BYTE);
            out.extend_from_slice(s.as_str().as_bytes());
            out.push(13);
            out.push(10);
            proof {
                assert(out@ =~= old(out)@ + frame_enc(*f));
            }
        },
        Frame::Ask(ref s) => {
            out.push(crate::types::ERROR_BYTE);
            out.extend_from_slice(s.as_str().as_bytes());
            out.push(13);
            out.push(10);
            proof {
                assert(out@ =~= old(out)@ + frame_enc(*f));
            }
        },
        Frame::Integer(i) => {
            out.push(crate::types::INTEGER_BYTE);
            let digits = i64_to_dec(i);
            out.extend_from_slice(digits.as_slice());
            out.push(13);
            out.push(10);
            proof {
                assert(out@ =~= old(out)@ + frame_enc(*f));
            }
        },
        Frame::BulkString(ref b) => {
            out.push(crate::types::BULKSTRING_BYTE);
            let digits = u64_to_dec(b.len() as u64);
            out.extend_from_slice(digits.as_slice());
            out.push(13);
            out.push(10);
            out.extend_from_slice(b.as_slice());
            out.push(13);
            out.push(10);
            proof {
                assert(out@ =~= old(out)@ + frame_enc(*f));
            }
        },
        Frame::Null => {
            out.push(36);
            out.push(45);
            out.push(49);
            out.push(13);
            out.push(10);
            proof {
                assert(out@ =~= old(out)@ + frame_enc(*f));
            }
        },
        Frame::Array(ref frames) => {
            out.push(crate::types::ARRAY_BYTE);
            let digits = u64_to_dec(frames.len() as u64);
            out.extend_from_slice(digits.as_slice());
            out.push(13);
            out.push(10);
            let ghost headered = out@;
            proof {
                assert(headered =~= old(out)@ + seq![crate::types::ARRAY_BYTE] + crate::num::dec_rep(
                    frames@.len(),
                ) + crlf());
            }
            let mut i: usize = 0;
            while i < frames.len()
                invariant
                    i <= frames@.len(),
                    *f == Frame::Array(*frames),
                    out@ == headered + frames_enc(frames@.take(i as int)),
                decreases frames@.len() - i,
            {
                proof {
                    assert(*frames == f->Array_0);
                    assert(decreases_to!(*f => f->Array_0));
                    assert(decreases_to!(*frames => frames@));
                    assert(decreases_to!(frames@ => frames@[i as int]));
                }
                write_frame(out, &frames[i]);
                proof {
                    lemma_frames_enc_take_snoc(frames@, i as int);
                }
                i = i + 1;
            }
            proof {
                assert(frames@.take(frames@.len() as int) =~= frames@);
                assert(headered + frames_enc(frames@) =~= old(out)@ + frame_enc(*f));
            }
        },
    }
}

/// Encodes a frame, appending its bytes to `buf` and growing it as needed.
/// Always succeeds; returns the new length of the buffer.
pub fn encode_bytes(buf: &mut Vec<u8>, frame: &Frame) -> (r: Result<usize, RedisProtocolError>)
    ensures
        final(buf)@ == old(buf)@ + frame_enc(*frame),
        r matches Ok(n) && n == final(buf)@.len(),
{
    write_frame(buf, frame);
    Ok(buf.len())
}

/// Encodes a frame into `buf` at offset zero, leaving any bytes past the
/// encoding untouched. Succeeds exactly when the encoding fits, and
/// otherwise reports how many more bytes the buffer needs.
pub fn encode(buf: &mut Vec<u8>, frame: &Frame) -> (r: Result<usize, RedisProtocolError>)
    ensures
        frame_enc(*frame).len() <= old(buf)@.len() ==> ({
            &&& r matches Ok(n)
            &&& n == frame_enc(*frame).len()
            &&& final(buf)@ == frame_enc(*frame) + old(buf)@.skip(n as int)
        }),
        frame_enc(*frame).len() > old(buf)@.len() ==> ({
            &&& r matches Err(e)
            &&& e.spec_kind() == (if frame_enc(*frame).len() <= usize::MAX {
                RedisProtocolErrorKind::BufferTooSmall(
                    (frame_enc(*frame).len() - old(buf)@.len()) as usize,
                )
            } else {
                RedisProtocolErrorKind::EncodeError
            })
            &&& *final(buf) == *old(buf)
        }),
{
    let buflen = buf.len();
    let needed = match encode_len(frame) {
        Ok(n) => n,
        Err(e) => {
            proof {
                assert(frame_enc(*frame).len() > usize::MAX);
                assert(old(buf)@.len() == buflen as nat);
            }
            return Err(e);
        },
    };
    if needed > buflen {
        return Err(
            RedisProtocolError::new(
                RedisProtocolErrorKind::BufferTooSmall(needed - buf.len()),
                "Buffer too small.",
            ),
        );
    }
    let mut tmp: Vec<u8> = Vec::new();
    write_frame(&mut tmp, frame);
    proof {
        assert(tmp@ =~= frame_enc(*frame));
    }
    let mut i: usize = 0;
    while i < tmp.len()
        invariant
            i <= tmp@.len(),
            tmp@ == frame_enc(*frame),
            tmp@.len() <= buf@.len(),
            buf@.len() == old(buf)@.len(),
            buf@ =~= tmp@.take(i as int) + old(buf)@.skip(i as int),
        decreases tmp@.len() - i,
    {
        buf.set(i, tmp[i]);
        i = i + 1;
        proof {
            assert(buf@ =~= tmp@.take(i as int) + old(buf)@.skip(i as int));
        }
    }
    proof {
        assert(tmp@.take(tmp@.len() as int) =~= tmp@);
        assert(buf@ =~= frame_enc(*frame) + old(buf)@.skip(tmp@.len() as int));
    }
    Ok(tmp.len())
}

} // verus!

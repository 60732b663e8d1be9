//! Mq64: a hierarchical wrapper over Q64. One input gives several Q64
//! segments, each the encoding of a longer prefix of the data, joined by `:`.
//! Decoding reads the last segment only.

use vstd::prelude::*;
use vstd::slice::slice_subrange;
use vstd::string::StrSliceExecFns;
use crate::encoders::q64::{
    char_fault, decode_fault, fault_text, lemma_decode_fault_none, lemma_q64_roundtrip,
    q64_decode, q64_decode_spec, q64_encode_scalar, q64_encode_spec, q64_try_decode, Q64Error,
};
use crate::error::Q64ErrorKind;


verus! {

/// The smallest level of the default hierarchy.
pub const FIRST_LEVEL: usize = 64;

/// The default levels for data of length `len`, from `level` on: `level`,
/// its double, and so on while they stay below `len`, and then `len` itself.
pub open spec fn levels_from(level: nat, len: nat) -> Seq<nat>
    decreases
            (if level < len {
                len - level
            } else {
                0
            }),
{
    if 0 < level < len {
        seq![level] + levels_from(2 * level, len)
    } else {
        seq![len]
    }
}

/// The default levels for data of length `len`: 64, 128, 256, ... below
/// `len`, then `len`.
pub open spec fn default_levels(len: nat) -> Seq<nat> {
    levels_from(FIRST_LEVEL as nat, len)
}

/// The segments produced for the first `n` levels: the Q64 encoding of the
/// prefix of `data` of each level's length, in the order of the levels.
/// A level longer than the data gives no segment.
pub open spec fn segments_upto(data: Seq<u8>, levels: Seq<nat>, n: int) -> Seq<Seq<char>>
    decreases n,
{
    if n <= 0 {
        seq![]
    } else if levels[n - 1] <= data.len() {
        segments_upto(data, levels, n - 1).push(q64_encode_spec(data.take(levels[n - 1] as int)))
    } else {
        segments_upto(data, levels, n - 1)
    }
}

/// The segments joined by `:`. No segment gives the empty string.
pub open spec fn join_segments(parts: Seq<Seq<char>>) -> Seq<char>
    decreases parts.len(),
{
    if parts.len() == 0 {
        seq![]
    } else if parts.len() == 1 {
        parts[0]
    } else {
        join_segments(parts.drop_last()) + seq![':'] + parts.last()
    }
}

/// The Mq64 encoding of `data` at the given levels.
pub open spec fn mq64_spec(data: Seq<u8>, levels: Seq<nat>) -> Seq<char> {
    join_segments(segments_upto(data, levels, levels.len() as int))
}

/// The levels of a slice as natural numbers.
pub open spec fn level_values(levels: Seq<usize>) -> Seq<nat> {
    levels.map_values(|l: usize| l as nat)
}

/// Encodes `data` at each given level that does not exceed its length and
/// joins the segments with `:`. With no such level the result is empty.
pub fn mq64_encode_with_levels(data: &[u8], levels: &[usize]) -> (encoded: String)
    ensures
        encoded@ == mq64_spec(data@, level_values(levels@)),
{
    let ghost lv = level_values(levels@);
    let mut out = String::new();
    let mut parts: usize = 0;
    let mut i: usize = 0;
    while i < levels.len()
        invariant
            i <= levels@.len(),
            lv == level_values(levels@),
            parts <= i,
            parts == segments_upto(data@, lv, i as int).len(),
            out@ == join_segments(segments_upto(data@, lv, i as int)),
        decreases levels@.len() - i,
    {
        let lvl = levels[i];
        if lvl <= data.len() {
            if parts > 0 {
                out.push(':');
            }
            q64_encode_scalar(slice_subrange(data, 0, lvl), &mut out);
            proof {
                let prev = segments_upto(data@, lv, i as int);
                let next = segments_upto(data@, lv, i + 1);
                assert(next.drop_last() =~= prev);
            }
            parts = parts + 1;
        }
        i = i + 1;
    }
    out
}

/// Encodes `data` at the default levels: 64, 128, 256, ... below its length,
/// then its full length. The last segment always holds all of the data.
pub fn mq64_encode(data: &[u8]) -> (encoded: String)
    ensures
        encoded@ == mq64_spec(data@, default_levels(data@.len())),
{
    let mut levels: Vec<usize> = Vec::new();
    let mut level: usize = FIRST_LEVEL;
    let ghost mut done: Seq<nat> = seq![];
    while level < data.len()
        invariant
            0 < level,
            done == level_values(levels@),
            default_levels(data@.len()) == done + levels_from(level as nat, data@.len()),
        decreases
                (if level < data@.len() {
                    data@.len() - level
                } else {
                    0
                }),
    {
        levels.push(level);
        proof {
            assert(done + levels_from(level as nat, data@.len()) =~= done.push(level as nat)
                + levels_from(2 * level as nat, data@.len()));
            done = done.push(level as nat);
        }
        if level > usize::MAX / 2 {
            level = data.len();
        } else {
            level = level * 2;
        }
    }
    levels.push(data.len());
    proof {
        assert(default_levels(data@.len()) =~= level_values(levels@));
    }
    mq64_encode_with_levels(data, levels.as_slice())
}

/// The part of `s` behind its last `:`, or all of `s` if it holds none.
pub open spec fn last_segment(s: Seq<char>) -> Seq<char>
    decreases s.len(),
{
    if s.len() == 0 {
        s
    } else if s.last() == ':' {
        seq![]
    } else {
        last_segment(s.drop_last()).push(s.last())
    }
}

/// Finds the part of an Mq64 string behind its last `:`.
pub fn find_last_segment<'a>(encoded: &'a str) -> (segment: &'a str)
    ensures
        segment@ == last_segment(encoded@),
{
    let total = encoded.unicode_len();
    let mut start: usize = 0;
    let mut count: usize = 0;
    for ch in it: encoded.chars()
        invariant
            it.seq() == encoded@,
            total == encoded@.len(),
            count == it.index(),
            start <= count,
            encoded@.subrange(start as int, count as int) == last_segment(
                encoded@.take(count as int),
            ),
    {
        proof {
            assert(encoded@.take(count + 1).drop_last() =~= encoded@.take(count as int));
        }
        count = count + 1;
        if ch == ':' {
            start = count;
        }
    }
    assert(encoded@.take(count as int) =~= encoded@);
    encoded.substring_char(start, count)
}

/// Decodes an Mq64 string, or tells why it cannot be decoded: the segment
/// behind the last `:` is decoded as Q64, and its fault, if it has one, is
/// the error. Earlier segments are not looked at.
pub fn mq64_try_decode(encoded: &str) -> (result: Result<Vec<u8>, Q64ErrorKind>)
    ensures
        result is Ok <==> decode_fault(last_segment(encoded@)) is None,
        result matches Ok(bytes) ==> bytes@ == q64_decode_spec(last_segment(encoded@)),
        result matches Err(fault) ==> decode_fault(last_segment(encoded@)) == Some(fault),
{
    q64_try_decode(find_last_segment(encoded))
}

/// Decodes an Mq64 string. The error describes in words the fault that
/// [`mq64_try_decode`] finds.
pub fn mq64_decode(encoded: &str) -> (result: Result<Vec<u8>, Q64Error>)
    ensures
        result is Ok <==> decode_fault(last_segment(encoded@)) is None,
        result matches Ok(bytes) ==> bytes@ == q64_decode_spec(last_segment(encoded@)),
        result matches Err(e) ==> e.message@ == fault_text(
            decode_fault(last_segment(encoded@))->0,
        ),
{
    q64_decode(find_last_segment(encoded))
}

/// Whether a string holds no `:`.
pub open spec fn colon_free(s: Seq<char>) -> bool {
    forall|i: int| 0 <= i < s.len() ==> s[i] != ':'
}

/// A string without `:` is its own last segment.
pub proof fn lemma_last_segment_colon_free(s: Seq<char>)
    requires
        colon_free(s),
    ensures
        last_segment(s) == s,
    decreases s.len(),
{
    if s.len() > 0 {
        lemma_last_segment_colon_free(s.drop_last());
    }
}

/// Behind a `:`, a string without `:` is the last segment, whatever stands
/// before.
pub proof fn lemma_last_segment_after_colon(head: Seq<char>, tail: Seq<char>)
    requires
        colon_free(tail),
    ensures
        last_segment(head + seq![':'] + tail) == tail,
    decreases tail.len(),
{
    let s = head + seq![':'] + tail;
    if tail.len() > 0 {
        assert(s.drop_last() =~= head + seq![':'] + tail.drop_last());
        lemma_last_segment_after_colon(head, tail.drop_last());
    }
}

/// No Q64 encoding holds a `:`.
pub proof fn lemma_q64_colon_free(data: Seq<u8>)
    ensures
        colon_free(q64_encode_spec(data)),
{
    lemma_q64_roundtrip(data);
    let s = q64_encode_spec(data);
    lemma_decode_fault_none(s, s.len() as int);
    assert forall|i: int| 0 <= i < s.len() implies s[i] != ':' by {
        assert(char_fault(s[i], i) is None);
    }
}

/// The last segment of an encoding is the Q64 encoding of the prefix of the
/// last level that fits: decoding returns that prefix.
pub proof fn lemma_mq64_last_level(data: Seq<u8>, levels: Seq<nat>)
    requires
        levels.len() > 0,
        levels.last() <= data.len(),
    ensures
        last_segment(mq64_spec(data, levels)) == q64_encode_spec(
            data.take(levels.last() as int),
        ),
        decode_fault(last_segment(mq64_spec(data, levels))) is None,
        q64_decode_spec(last_segment(mq64_spec(data, levels))) == data.take(
            levels.last() as int,
        ),
{
    let parts = segments_upto(data, levels, levels.len() as int);
    let last = q64_encode_spec(data.take(levels.last() as int));
    lemma_q64_colon_free(data.take(levels.last() as int));
    if parts.len() == 1 {
        lemma_last_segment_colon_free(last);
    } else {
        lemma_last_segment_after_colon(join_segments(parts.drop_last()), last);
    }
    lemma_q64_roundtrip(data.take(levels.last() as int));
}

/// The default levels end with the full length of the data.
pub proof fn lemma_levels_end_with_len(level: nat, len: nat)
    ensures
        levels_from(level, len).len() > 0,
        levels_from(level, len).last() == len,
    decreases
            (if level < len {
                len - level
            } else {
                0
            }),
{
    if 0 < level < len {
        lemma_levels_end_with_len(2 * level, len);
    }
}

/// Round trip: decoding the default encoding of any data returns the data.
pub proof fn lemma_mq64_roundtrip(data: Seq<u8>)
    ensures
        decode_fault(last_segment(mq64_spec(data, default_levels(data.len())))) is None,
        q64_decode_spec(last_segment(mq64_spec(data, default_levels(data.len())))) == data,
{
    lemma_levels_end_with_len(FIRST_LEVEL as nat, data.len());
    lemma_mq64_last_level(data, default_levels(data.len()));
}


} // verus!

//! Lenient helpers for callers that prefer a degraded result to a failure.

use vstd::prelude::*;
use vstd::string::StringExecFns;
use crate::error::validation::{
    is_q64_character, is_q64_character_spec, MAX_K_VALUE, MAX_SIMHASH_PLANES,
};
use crate::error::{UubedError, UubedResult, ValidationErrorKind};

verus! {

/// What is left of `input` once every character that no Q64 string can hold
/// is dropped, and then the last character too if an odd number remains.
pub open spec fn recovered_text(input: Seq<char>) -> Seq<char> {
    let kept = input.filter(|ch: char| is_q64_character_spec(ch));
    if kept.len() % 2 != 0 {
        kept.drop_last()
    } else {
        kept
    }
}

/// Cleans a damaged Q64 string: keeps letters, digits, `-` and `_` in their
/// order and drops a trailing odd character. Fails with `EmptyInput` when
/// nothing is left.
pub fn recover_q64_decode(input: &str) -> (result: UubedResult<String>)
    ensures
        result is Ok <==> recovered_text(input@).len() > 0,
        result matches Ok(cleaned) ==> cleaned@ == recovered_text(input@),
        result matches Err(e) ==> (e matches UubedError::ValidationError(
            ValidationErrorKind::EmptyInput { operation },
        ) && operation@ == "Q64 decode recovery"@),
{
    let ghost accepts = |ch: char| is_q64_character_spec(ch);
    let mut kept: Vec<char> = Vec::new();
    for ch in it: input.chars()
        invariant
            it.seq() == input@,
            accepts == (|ch: char| is_q64_character_spec(ch)),
            kept@ == input@.take(it.index()).filter(accepts),
    {
        proof {
            let done = input@.take(it.index());
            assert(input@.take(it.index() + 1) =~= done.push(ch));
            Seq::lemma_filter_push(done, ch, accepts);
        }
        if is_q64_character(ch, kept.len()) {
            kept.push(ch);
        }
    }
    assert(input@.take(input@.len() as int) =~= input@);
    let even: usize = kept.len() - kept.len() % 2;
    let mut cleaned = String::new();
    let mut i: usize = 0;
    while i < even
        invariant
            i <= even <= kept@.len(),
            cleaned@ == kept@.take(i as int),
        decreases even - i,
    {
        cleaned.push(kept[i]);
        i = i + 1;
    }
    if even == 0 {
        return Err(
            UubedError::ValidationError(
                ValidationErrorKind::EmptyInput {
                    operation: String::from_str("Q64 decode recovery"),
                },
            ),
        );
    }
    Ok(cleaned)
}

/// The value [`clamp_k_value`] returns.
pub open spec fn clamp_k_value_spec(k: usize, embedding_size: usize) -> usize {
    let bounded = if k <= embedding_size {
        k
    } else {
        embedding_size
    };
    let capped = if bounded <= MAX_K_VALUE {
        bounded
    } else {
        MAX_K_VALUE
    };
    if capped >= 1 {
        capped
    } else {
        1
    }
}

/// Brings `k` into the range the top-k encoders accept for an embedding of
/// the given size: at most the size, at most [`MAX_K_VALUE`], at least 1.
pub fn clamp_k_value(k: usize, embedding_size: usize) -> (clamped: usize)
    ensures
        clamped == clamp_k_value_spec(k, embedding_size),
        1 <= clamped <= MAX_K_VALUE,
{
    let bounded = if k <= embedding_size {
        k
    } else {
        embedding_size
    };
    let capped = if bounded <= MAX_K_VALUE {
        bounded
    } else {
        MAX_K_VALUE
    };
    if capped >= 1 {
        capped
    } else {
        1
    }
}

/// The value [`clamp_planes_value`] returns.
pub open spec fn clamp_planes_value_spec(planes: usize) -> usize {
    if planes > MAX_SIMHASH_PLANES {
        MAX_SIMHASH_PLANES
    } else if planes >= 1 {
        planes
    } else {
        1
    }
}

/// Brings a number of planes into the range SimHash accepts: between 1 and
/// [`MAX_SIMHASH_PLANES`].
pub fn clamp_planes_value(planes: usize) -> (clamped: usize)
    ensures
        clamped == clamp_planes_value_spec(planes),
        1 <= clamped <= MAX_SIMHASH_PLANES,
{
    if planes > MAX_SIMHASH_PLANES {
        MAX_SIMHASH_PLANES
    } else if planes >= 1 {
        planes
    } else {
        1
    }
}

} // verus!

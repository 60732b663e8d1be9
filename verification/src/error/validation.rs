//! Bounds every input must respect before an encoder runs.

use vstd::prelude::*;
use vstd::string::StrSliceExecFns;
use vstd::string::StringExecFns;
use crate::error::{
    Q64ErrorKind, SimHashErrorKind, TopKErrorKind, UubedError, UubedResult, ValidationErrorKind,
};

verus! {

/// Largest embedding accepted, in bytes (16 MiB).
pub const MAX_EMBEDDING_SIZE: usize = 16777216;

/// Largest `k` accepted by the top-k encoders.
pub const MAX_K_VALUE: usize = 100_000;

/// Largest number of hyperplanes accepted by SimHash.
pub const MAX_SIMHASH_PLANES: usize = 8192;

/// Largest number of dimensions accepted by SimHash.
pub const MAX_SIMHASH_DIMENSIONS: usize = 1_000_000;

/// Accepts an embedding that is neither empty nor larger than
/// [`MAX_EMBEDDING_SIZE`]; the error names the operation that asked.
pub fn validate_embedding(embedding: &[u8], operation: &str) -> (result: UubedResult<()>)
    ensures
        result is Ok <==> 0 < embedding@.len() <= MAX_EMBEDDING_SIZE,
        embedding@.len() == 0 ==> (result matches Err(
            UubedError::ValidationError(ValidationErrorKind::EmptyInput { operation: op }),
        ) && op@ == operation@),
        embedding@.len() > MAX_EMBEDDING_SIZE ==> (result matches Err(
            UubedError::ValidationError(
                ValidationErrorKind::InputTooLarge { size, max_size, operation: op },
            ),
        ) && size == embedding@.len() && max_size == MAX_EMBEDDING_SIZE && op@ == operation@),
{
    if embedding.len() == 0 {
        return Err(
            UubedError::ValidationError(
                ValidationErrorKind::EmptyInput { operation: String::from_str(operation) },
            ),
        );
    }
    if embedding.len() > MAX_EMBEDDING_SIZE {
        return Err(
            UubedError::ValidationError(
                ValidationErrorKind::InputTooLarge {
                    size: embedding.len(),
                    max_size: MAX_EMBEDDING_SIZE,
                    operation: String::from_str(operation),
                },
            ),
        );
    }
    Ok(())
}

/// What [`validate_k`] answers for `k`.
pub open spec fn validate_k_spec(k: usize) -> UubedResult<()> {
    if k == 0 {
        Err(UubedError::TopKError(TopKErrorKind::InvalidK { k }))
    } else if k > MAX_K_VALUE {
        Err(UubedError::TopKError(TopKErrorKind::KTooLarge { k, max_supported: MAX_K_VALUE }))
    } else {
        Ok(())
    }
}

/// Accepts `k` between 1 and [`MAX_K_VALUE`].
pub fn validate_k(k: usize) -> (result: UubedResult<()>)
    ensures
        result == validate_k_spec(k),
{
    if k == 0 {
        return Err(UubedError::TopKError(TopKErrorKind::InvalidK { k }));
    }
    if k > MAX_K_VALUE {
        return Err(
            UubedError::TopKError(TopKErrorKind::KTooLarge { k, max_supported: MAX_K_VALUE }),
        );
    }
    Ok(())
}

/// What [`validate_simhash_params`] answers for a number of planes and of
/// dimensions. The number of planes is judged first.
pub open spec fn validate_simhash_params_spec(planes: usize, dimensions: usize) -> UubedResult<
    (),
> {
    if planes == 0 || planes > MAX_SIMHASH_PLANES {
        Err(UubedError::SimHashError(SimHashErrorKind::InvalidPlanes { planes }))
    } else if dimensions > MAX_SIMHASH_DIMENSIONS {
        Err(
            UubedError::SimHashError(
                SimHashErrorKind::DimensionsTooLarge {
                    dimensions,
                    max_supported: MAX_SIMHASH_DIMENSIONS,
                },
            ),
        )
    } else {
        Ok(())
    }
}

/// Accepts between 1 and [`MAX_SIMHASH_PLANES`] planes over at most
/// [`MAX_SIMHASH_DIMENSIONS`] dimensions.
pub fn validate_simhash_params(planes: usize, dimensions: usize) -> (result: UubedResult<()>)
    ensures
        result == validate_simhash_params_spec(planes, dimensions),
{
    if planes == 0 {
        return Err(UubedError::SimHashError(SimHashErrorKind::InvalidPlanes { planes }));
    }
    if planes > MAX_SIMHASH_PLANES {
        return Err(UubedError::SimHashError(SimHashErrorKind::InvalidPlanes { planes }));
    }
    if dimensions > MAX_SIMHASH_DIMENSIONS {
        return Err(
            UubedError::SimHashError(
                SimHashErrorKind::DimensionsTooLarge {
                    dimensions,
                    max_supported: MAX_SIMHASH_DIMENSIONS,
                },
            ),
        );
    }
    Ok(())
}

/// Whether a character can occur anywhere in a Q64 string: an ASCII letter,
/// an ASCII digit, `-` or `_`. The position plays no part in this coarse test.
pub open spec fn is_q64_character_spec(ch: char) -> bool {
    ||| 'A' <= ch <= 'Z'
    ||| 'a' <= ch <= 'z'
    ||| '0' <= ch <= '9'
    ||| ch == '_'
    ||| ch == '-'
}

/// Tells whether `ch` can occur in a Q64 string.
pub fn is_q64_character(ch: char, position: usize) -> (accepted: bool)
    ensures
        accepted == is_q64_character_spec(ch),
{
    ('A' <= ch && ch <= 'Z') || ('a' <= ch && ch <= 'z') || ('0' <= ch && ch <= '9') || ch == '_'
        || ch == '-'
}

/// What [`validate_q64_string`] answers for a string: an odd length is
/// reported first, then the earliest character outside the symbol set.
pub open spec fn validate_q64_string_spec(s: Seq<char>) -> UubedResult<()> {
    if s.len() % 2 != 0 {
        Err(UubedError::Q64Error(Q64ErrorKind::OddLength { length: s.len() as usize }))
    } else {
        first_foreign_character(s, s.len() as int)
    }
}

/// The verdict on the first `n` characters of `s`: the earliest character
/// that no Q64 string can hold, with its position.
pub open spec fn first_foreign_character(s: Seq<char>, n: int) -> UubedResult<()>
    decreases n,
{
    if n <= 0 {
        Ok(())
    } else if first_foreign_character(s, n - 1) is Err {
        first_foreign_character(s, n - 1)
    } else if !is_q64_character_spec(s[n - 1]) {
        Err(
            UubedError::Q64Error(
                Q64ErrorKind::InvalidCharacter {
                    character: s[n - 1],
                    position: (n - 1) as usize,
                },
            ),
        )
    } else {
        Ok(())
    }
}

/// Once a foreign character is found, looking at more of the string does not
/// change the verdict.
pub proof fn lemma_first_foreign_character_stable(s: Seq<char>, n: int, m: int)
    requires
        n <= m,
        first_foreign_character(s, n) is Err,
    ensures
        first_foreign_character(s, m) == first_foreign_character(s, n),
    decreases m - n,
{
    if n < m {
        lemma_first_foreign_character_stable(s, n, m - 1);
    }
}

/// Accepts a string of even length made of letters, digits, `-` and `_`.
pub fn validate_q64_string(s: &str) -> (result: UubedResult<()>)
    ensures
        result == validate_q64_string_spec(s@),
{
    let length = s.unicode_len();
    if length % 2 != 0 {
        return Err(UubedError::Q64Error(Q64ErrorKind::OddLength { length }));
    }
    let mut pos: usize = 0;
    for ch in it: s.chars()
        invariant
            it.seq() == s@,
            pos == it.index(),
            length == s@.len(),
            length % 2 == 0,
            first_foreign_character(s@, pos as int) is Ok,
    {
        if !is_q64_character(ch, pos) {
            proof {
                lemma_first_foreign_character_stable(s@, pos + 1, s@.len() as int);
            }
            return Err(
                UubedError::Q64Error(
                    Q64ErrorKind::InvalidCharacter { character: ch, position: pos },
                ),
            );
        }
        pos = pos + 1;
    }
    Ok(())
}

} // verus!

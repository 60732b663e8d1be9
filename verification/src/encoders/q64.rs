//! Q64: a position-safe rendering of bytes as text. Every byte becomes two
//! characters, one per nibble, and the character at position `p` is taken
//! from alphabet `p mod 4`. The four alphabets share no symbol, so a string
//! read from a shifted offset is never mistaken for a valid one.

use vstd::prelude::*;
use vstd::string::StringExecFns;
use crate::error::Q64ErrorKind;
use crate::simd::q64_simd::encode_lanes;
use crate::text::{decimal, quoted, push_decimal, push_quoted};

verus! {

/// The four alphabets of sixteen symbols each, one after the other:
/// `A`-`P`, then `Q`-`Z` `a`-`f`, then `g`-`v`, then `w`-`z` `0`-`9` `-` `_`.
pub const ALPHABETS: [u8; 64] = [
    'A' as u8, 'B' as u8, 'C' as u8, 'D' as u8, 'E' as u8, 'F' as u8, 'G' as u8, 'H' as u8,
    'I' as u8, 'J' as u8, 'K' as u8, 'L' as u8, 'M' as u8, 'N' as u8, 'O' as u8, 'P' as u8,
    'Q' as u8, 'R' as u8, 'S' as u8, 'T' as u8, 'U' as u8, 'V' as u8, 'W' as u8, 'X' as u8,
    'Y' as u8, 'Z' as u8, 'a' as u8, 'b' as u8, 'c' as u8, 'd' as u8, 'e' as u8, 'f' as u8,
    'g' as u8, 'h' as u8, 'i' as u8, 'j' as u8, 'k' as u8, 'l' as u8, 'm' as u8, 'n' as u8,
    'o' as u8, 'p' as u8, 'q' as u8, 'r' as u8, 's' as u8, 't' as u8, 'u' as u8, 'v' as u8,
    'w' as u8, 'x' as u8, 'y' as u8, 'z' as u8, '0' as u8, '1' as u8, '2' as u8, '3' as u8,
    '4' as u8, '5' as u8, '6' as u8, '7' as u8, '8' as u8, '9' as u8, '-' as u8, '_' as u8,
];

/// The symbol that stands for `nibble` in the given alphabet.
pub open spec fn symbol(alphabet: int, nibble: int) -> u8
    recommends
        0 <= alphabet < 4,
        0 <= nibble < 16,
{
    ALPHABETS[alphabet * 16 + nibble]
}

/// The alphabet a byte belongs to and the nibble it stands for there, if it
/// is one of the 64 symbols.
pub open spec fn symbol_class(c: u8) -> Option<(u8, u8)> {
    if 'A' as u8 <= c <= 'P' as u8 {
        Some((0u8, (c - 'A' as u8) as u8))
    } else if 'Q' as u8 <= c <= 'Z' as u8 {
        Some((1u8, (c - 'Q' as u8) as u8))
    } else if 'a' as u8 <= c <= 'f' as u8 {
        Some((1u8, (c - 'a' as u8 + 10) as u8))
    } else if 'g' as u8 <= c <= 'v' as u8 {
        Some((2u8, (c - 'g' as u8) as u8))
    } else if 'w' as u8 <= c <= 'z' as u8 {
        Some((3u8, (c - 'w' as u8) as u8))
    } else if '0' as u8 <= c <= '9' as u8 {
        Some((3u8, (c - '0' as u8 + 4) as u8))
    } else if c == '-' as u8 {
        Some((3u8, 14u8))
    } else if c == '_' as u8 {
        Some((3u8, 15u8))
    } else {
        None
    }
}

/// Every symbol is classified as the alphabet and nibble it was taken from:
/// no symbol occurs twice in the tables.
pub proof fn lemma_symbol_class_of_symbol(alphabet: int, nibble: int)
    requires
        0 <= alphabet < 4,
        0 <= nibble < 16,
    ensures
        symbol_class(symbol(alphabet, nibble)) == Some((alphabet as u8, nibble as u8)),
{
}

/// A byte classified as a symbol is the symbol of its alphabet and nibble.
pub proof fn lemma_symbol_of_symbol_class(c: u8)
    ensures
        symbol_class(c) matches Some((alphabet, nibble)) ==> alphabet < 4 && nibble < 16 && symbol(
            alphabet as int,
            nibble as int,
        ) == c,
{
    if let Some((alphabet, nibble)) = symbol_class(c) {
        lemma_symbol_class_of_symbol(alphabet as int, nibble as int);
    }
}

/// The nibble that position `p` of the encoding of `data` stands for: the
/// high nibble of a byte at its even position, the low nibble at its odd one.
pub open spec fn nibble_at(data: Seq<u8>, p: int) -> int
    recommends
        0 <= p < 2 * data.len(),
{
    if p % 2 == 0 {
        data[p / 2] as int / 16
    } else {
        data[p / 2] as int % 16
    }
}

/// The bytes of the Q64 encoding of `data`: two symbols per byte, the symbol
/// at position `p` taken from alphabet `p mod 4`.
pub open spec fn q64_bytes(data: Seq<u8>) -> Seq<u8> {
    Seq::new(2 * data.len(), |p: int| symbol(p % 4, nibble_at(data, p)))
}

/// The Q64 encoding of `data` as text.
pub open spec fn q64_encode_spec(data: Seq<u8>) -> Seq<char> {
    Seq::new(2 * data.len(), |p: int| symbol(p % 4, nibble_at(data, p)) as char)
}

/// The two symbols that encode `byte` when it is the `byte_idx`-th byte.
pub fn encode_byte(byte: u8, byte_idx: usize) -> (pair: (u8, u8))
    ensures
        pair.0 == symbol((2 * byte_idx) % 4, byte as int / 16),
        pair.1 == symbol((2 * byte_idx + 1) % 4, byte as int % 16),
{
    let hi_nibble = (byte >> 4) & 0xF;
    let lo_nibble = byte & 0xF;
    let half: usize = byte_idx & 1;
    assert(hi_nibble == byte / 16 && lo_nibble == byte % 16) by (bit_vector)
        requires
            hi_nibble == (byte >> 4) & 0xF,
            lo_nibble == byte & 0xF,
    ;
    assert(half == byte_idx % 2) by (bit_vector)
        requires
            half == byte_idx & 1,
    ;
    let alphabet_hi = 2 * half;
    let alphabet_lo = alphabet_hi + 1;
    assert((2 * byte_idx) % 4 == alphabet_hi && (2 * byte_idx + 1) % 4 == alphabet_lo)
        by (nonlinear_arith)
        requires
            half == byte_idx % 2,
            alphabet_hi == 2 * half,
            alphabet_lo == alphabet_hi + 1,
    ;
    (
        ALPHABETS[alphabet_hi * 16 + hi_nibble as usize],
        ALPHABETS[alphabet_lo * 16 + lo_nibble as usize],
    )
}

/// Appends the Q64 encoding of `data` to `output`, byte by byte.
pub fn q64_encode_scalar(data: &[u8], output: &mut String)
    ensures
        final(output)@ == old(output)@ + q64_encode_spec(data@),
{
    let mut byte_idx: usize = 0;
    while byte_idx < data.len()
        invariant
            byte_idx <= data@.len(),
            output@ == old(output)@ + q64_encode_spec(data@).take(2 * byte_idx),
        decreases data@.len() - byte_idx,
    {
        let pair = encode_byte(data[byte_idx], byte_idx);
        output.push(pair.0 as char);
        output.push(pair.1 as char);
        byte_idx = byte_idx + 1;
    }
}

/// Appends the Q64 encoding of `data` to `output`, sixteen bytes at a time
/// and the rest byte by byte. The result is that of [`q64_encode_scalar`].
pub fn q64_encode_simd(data: &[u8], output: &mut String)
    ensures
        final(output)@ == old(output)@ + q64_encode_spec(data@),
{
    encode_lanes(data, output, &ALPHABETS);
}

/// Encodes bytes as Q64 text: twice as many characters as there are bytes.
/// Every byte sequence has an encoding.
pub fn q64_encode(data: &[u8]) -> (encoded: String)
    ensures
        encoded@ == q64_encode_spec(data@),
        encoded@.len() == 2 * data@.len(),
{
    let mut result = String::new();
    q64_encode_scalar(data, &mut result);
    result
}


/// The failure of a Q64 operation, described in words.
#[derive(Debug, Clone)]
pub struct Q64Error {
    pub message: String,
}

impl Q64Error {
    /// Renders the error as text: the codec's name, then the description.
    pub fn to_string(&self) -> (text: String)
        ensures
            text@ == "Q64 error: "@ + self.message@,
    {
        let mut s = String::new();
        s.append("Q64 error: ");
        s.append(self.message.as_str());
        s
    }
}

/// What the error says when a buffer of `available` bytes is offered for an
/// encoding that needs `required` bytes.
pub open spec fn buffer_too_small_text(required: nat, available: nat) -> Seq<char> {
    "Output buffer too small: need "@ + decimal(required) + " bytes, got "@ + decimal(available)
}

/// Builds the error for a buffer that cannot hold an encoding.
pub fn buffer_too_small(required: u128, available: usize) -> (e: Q64Error)
    ensures
        e.message@ == buffer_too_small_text(required as nat, available as nat),
{
    let mut message = String::new();
    message.append("Output buffer too small: need ");
    push_decimal(&mut message, required);
    message.append(" bytes, got ");
    push_decimal(&mut message, available as u128);
    Q64Error { message }
}

/// The number of bytes an encoding of `n` bytes needs, as far as a `usize`
/// can tell: `2 * n`, or the largest `usize` if that is less.
pub open spec fn required_len(n: nat) -> usize {
    if 2 * n <= usize::MAX {
        (2 * n) as usize
    } else {
        usize::MAX
    }
}

/// Writes the Q64 encoding of `data` into the front of `output` without
/// allocating, and returns the number of bytes written. A buffer shorter than
/// twice the data is refused with `BufferOverflow` before anything is
/// written; bytes behind the encoding are left as they were.
pub fn q64_try_encode_to_buffer(data: &[u8], output: &mut [u8]) -> (result: Result<
    usize,
    Q64ErrorKind,
>)
    ensures
        final(output)@.len() == old(output)@.len(),
        result is Ok <==> old(output)@.len() >= 2 * data@.len(),
        result matches Ok(written) ==> written == 2 * data@.len() && final(output)@ == q64_bytes(
            data@,
        ) + old(output)@.skip(2 * data@.len() as int),
        result matches Err(fault) ==> final(output)@ == old(output)@ && fault == (
        Q64ErrorKind::BufferOverflow {
            required: required_len(data@.len()),
            available: old(output)@.len() as usize,
        }),
{
    let needed: u128 = data.len() as u128 * 2;
    if (output.len() as u128) < needed {
        let required = if data.len() <= usize::MAX / 2 {
            data.len() * 2
        } else {
            usize::MAX
        };
        return Err(Q64ErrorKind::BufferOverflow { required, available: output.len() });
    }
    q64_encode_to_buffer_unchecked(data, output);
    Ok(needed as usize)
}

/// Does what [`q64_try_encode_to_buffer`] does, with the refusal described in
/// words.
pub fn q64_encode_to_buffer(data: &[u8], output: &mut [u8]) -> (result: Result<usize, Q64Error>)
    ensures
        final(output)@.len() == old(output)@.len(),
        result is Ok <==> old(output)@.len() >= 2 * data@.len(),
        result matches Ok(written) ==> written == 2 * data@.len() && final(output)@ == q64_bytes(
            data@,
        ) + old(output)@.skip(2 * data@.len() as int),
        result matches Err(e) ==> final(output)@ == old(output)@ && e.message@
            == buffer_too_small_text(2 * data@.len(), old(output)@.len()),
{
    let available = output.len();
    match q64_try_encode_to_buffer(data, output) {
        Ok(written) => Ok(written),
        Err(_) => Err(buffer_too_small(data.len() as u128 * 2, available)),
    }
}

/// Writes the Q64 encoding of `data` into the front of a buffer known to be
/// long enough.
pub fn q64_encode_to_buffer_unchecked(data: &[u8], output: &mut [u8])
    requires
        old(output)@.len() >= 2 * data@.len(),
    ensures
        final(output)@ == q64_bytes(data@) + old(output)@.skip(2 * data@.len() as int),
{
    let capacity = output.len();
    let mut byte_idx: usize = 0;
    while byte_idx < data.len()
        invariant
            byte_idx <= data@.len(),
            output@.len() == old(output)@.len() == capacity,
            old(output)@.len() >= 2 * data@.len(),
            output@ == q64_bytes(data@).take(2 * byte_idx) + old(output)@.skip(2 * byte_idx),
        decreases data@.len() - byte_idx,
    {
        let pair = encode_byte(data[byte_idx], byte_idx);
        let base_pos = byte_idx * 2;
        output[base_pos] = pair.0;
        output[base_pos + 1] = pair.1;
        byte_idx = byte_idx + 1;
    }
}


/// The alphabet and nibble of a character, if it is one of the 64 symbols.
pub open spec fn char_class(ch: char) -> Option<(u8, u8)> {
    if ch as u32 > 255 {
        None
    } else {
        symbol_class(ch as u8)
    }
}

/// What is wrong with `ch` standing at position `pos`, if anything: it is no
/// symbol at all, or it is a symbol of another alphabet than `pos mod 4`.
pub open spec fn char_fault(ch: char, pos: int) -> Option<Q64ErrorKind> {
    match char_class(ch) {
        None => Some(Q64ErrorKind::InvalidCharacter { character: ch, position: pos as usize }),
        Some((alphabet, _)) => if alphabet != pos % 4 {
            Some(
                Q64ErrorKind::WrongPosition {
                    character: ch,
                    position: pos as usize,
                    expected_alphabet: (pos % 4) as u8,
                },
            )
        } else {
            None
        },
    }
}

/// The first fault among the first `n` characters of `s`, in reading order.
pub open spec fn decode_fault_upto(s: Seq<char>, n: int) -> Option<Q64ErrorKind>
    decreases n,
{
    if n <= 0 {
        None
    } else if decode_fault_upto(s, n - 1) is Some {
        decode_fault_upto(s, n - 1)
    } else {
        char_fault(s[n - 1], n - 1)
    }
}

/// Why `s` cannot be decoded, if it cannot: an odd length is reported before
/// any character is looked at, then the first faulty character.
pub open spec fn decode_fault(s: Seq<char>) -> Option<Q64ErrorKind> {
    if s.len() % 2 != 0 {
        Some(Q64ErrorKind::OddLength { length: s.len() as usize })
    } else {
        decode_fault_upto(s, s.len() as int)
    }
}

/// The nibble a symbol stands for.
pub open spec fn nibble_of(ch: char) -> u8 {
    match char_class(ch) {
        Some((_, nibble)) => nibble,
        None => 0,
    }
}

/// The alphabet a symbol belongs to.
pub open spec fn alphabet_of(ch: char) -> u8 {
    match char_class(ch) {
        Some((alphabet, _)) => alphabet,
        None => 0,
    }
}

/// The bytes that a string without fault decodes to: each pair of symbols
/// gives one byte, high nibble first.
pub open spec fn q64_decode_spec(s: Seq<char>) -> Seq<u8> {
    Seq::new(s.len() / 2, |i: int| (nibble_of(s[2 * i]) * 16 + nibble_of(s[2 * i + 1])) as u8)
}

/// The description a decoding error carries for each fault.
pub open spec fn fault_text(fault: Q64ErrorKind) -> Seq<char> {
    match fault {
        Q64ErrorKind::OddLength { length } => "Q64 string length must be even"@,
        Q64ErrorKind::InvalidCharacter { character, position } => if character as u32 > 255 {
            "Non-ASCII character "@ + quoted(character) + " at position "@ + decimal(
                position as nat,
            )
        } else {
            "Invalid Q64 character "@ + quoted(character) + " at position "@ + decimal(
                position as nat,
            )
        },
        Q64ErrorKind::WrongPosition { character, position, expected_alphabet } => "Character "@
            + quoted(character) + " from alphabet "@ + decimal(alphabet_of(character) as nat)
            + " at position "@ + decimal(position as nat) + " (expected alphabet "@ + decimal(
            expected_alphabet as nat,
        ) + ")"@,
        Q64ErrorKind::BufferOverflow { required, available } => buffer_too_small_text(
            required as nat,
            available as nat,
        ),
    }
}

/// The table that tells, for each of the 256 byte values, which alphabet it
/// belongs to and which nibble it stands for there, if any. It is built once
/// and never changed.
pub struct ReverseLookup {
    table: [Option<(u8, u8)>; 256],
}

/// The reverse lookup as a mapping: for each of the 256 byte values, the
/// alphabet and nibble of the symbol it is, or nothing if it is no symbol.
pub open spec fn reverse_lookup_spec() -> Seq<Option<(u8, u8)>> {
    Seq::new(256, |c: int| symbol_class(c as u8))
}

impl View for ReverseLookup {
    type V = Seq<Option<(u8, u8)>>;

    /// The entries of the table, by byte value.
    closed spec fn view(&self) -> Seq<Option<(u8, u8)>> {
        self.table@
    }
}

impl ReverseLookup {
    /// Every entry is the class of its byte.
    #[verifier::type_invariant]
    spec fn complete(self) -> bool {
        forall|c: int| 0 <= c < 256 ==> #[trigger] self.table[c] == symbol_class(c as u8)
    }

    /// Looks up the alphabet and nibble of a byte.
    pub fn get(&self, c: u8) -> (class: Option<(u8, u8)>)
        ensures
            class == self@[c as int],
            class == symbol_class(c),
    {
        proof {
            use_type_invariant(self);
        }
        self.table[c as usize]
    }
}

/// Builds the reverse lookup table from the alphabets: every symbol is
/// entered under its byte with its alphabet and nibble, and every other byte
/// is left without entry.
pub fn build_reverse_lookup() -> (lookup: ReverseLookup)
    ensures
        lookup@ == reverse_lookup_spec(),
{
    let mut table: [Option<(u8, u8)>; 256] = [None;256];
    let mut alphabet_idx: usize = 0;
    while alphabet_idx < 4
        invariant
            alphabet_idx <= 4,
            forall|c: int|
                0 <= c < 256 ==> #[trigger] table[c] == (match symbol_class(c as u8) {
                    Some((a, n)) => if a < alphabet_idx {
                        Some((a, n))
                    } else {
                        None
                    },
                    None => None,
                }),
        decreases 4 - alphabet_idx,
    {
        let mut nibble_value: usize = 0;
        while nibble_value < 16
            invariant
                alphabet_idx < 4,
                nibble_value <= 16,
                forall|c: int|
                    0 <= c < 256 ==> #[trigger] table[c] == (match symbol_class(c as u8) {
                        Some((a, n)) => if a < alphabet_idx || (a == alphabet_idx && n
                            < nibble_value) {
                            Some((a, n))
                        } else {
                            None
                        },
                        None => None,
                    }),
            decreases 16 - nibble_value,
        {
            let ch = ALPHABETS[alphabet_idx * 16 + nibble_value];
            table[ch as usize] = Some((alphabet_idx as u8, nibble_value as u8));
            nibble_value = nibble_value + 1;
            proof {
                lemma_symbol_class_of_symbol(alphabet_idx as int, nibble_value - 1);
                assert forall|c: int| 0 <= c < 256 implies #[trigger] table[c] == (
                match symbol_class(c as u8) {
                    Some((a, n)) => if a < alphabet_idx || (a == alphabet_idx && n
                        < nibble_value) {
                        Some((a, n))
                    } else {
                        None
                    },
                    None => None,
                }) by {
                    lemma_symbol_of_symbol_class(c as u8);
                }
            }
        }
        alphabet_idx = alphabet_idx + 1;
    }
    proof {
        assert forall|c: int| 0 <= c < 256 implies #[trigger] table[c] == symbol_class(
            c as u8,
        ) by {
            lemma_symbol_of_symbol_class(c as u8);
        }
    }
    assert(table@ =~= reverse_lookup_spec());
    ReverseLookup { table }
}

/// Checks one character against the alphabet its position calls for and
/// returns its alphabet and nibble, or what is wrong with it.
pub fn validate_char(ch: char, pos: usize, lookup: &ReverseLookup) -> (result: Result<
    (u8, u8),
    Q64ErrorKind,
>)
    ensures
        result is Ok <==> char_fault(ch, pos as int) is None,
        result matches Ok(class) ==> char_class(ch) == Some(class),
        result matches Err(fault) ==> char_fault(ch, pos as int) == Some(fault),
{
    if ch as u32 > 255 {
        return Err(Q64ErrorKind::InvalidCharacter { character: ch, position: pos });
    }
    match lookup.get(ch as u8) {
        Some((alphabet_idx, nibble_value)) => {
            proof {
                lemma_symbol_of_symbol_class(ch as u8);
            }
            let expected_alphabet = (pos & 3) as u8;
            assert(expected_alphabet == pos % 4) by (bit_vector)
                requires
                    expected_alphabet == (pos & 3) as u8,
            ;
            if alphabet_idx != expected_alphabet {
                Err(
                    Q64ErrorKind::WrongPosition {
                        character: ch,
                        position: pos,
                        expected_alphabet,
                    },
                )
            } else {
                Ok((alphabet_idx, nibble_value))
            }
        },
        None => Err(Q64ErrorKind::InvalidCharacter { character: ch, position: pos }),
    }
}

/// Tells which alphabet a byte belongs to and which nibble it stands for
/// there, if it is one of the 64 symbols.
pub fn classify_byte(c: u8) -> (class: Option<(u8, u8)>)
    ensures
        class == symbol_class(c),
{
    if 'A' as u8 <= c && c <= 'P' as u8 {
        Some((0, c - 'A' as u8))
    } else if 'Q' as u8 <= c && c <= 'Z' as u8 {
        Some((1, c - 'Q' as u8))
    } else if 'a' as u8 <= c && c <= 'f' as u8 {
        Some((1, c - 'a' as u8 + 10))
    } else if 'g' as u8 <= c && c <= 'v' as u8 {
        Some((2, c - 'g' as u8))
    } else if 'w' as u8 <= c && c <= 'z' as u8 {
        Some((3, c - 'w' as u8))
    } else if '0' as u8 <= c && c <= '9' as u8 {
        Some((3, c - '0' as u8 + 4))
    } else if c == '-' as u8 {
        Some((3, 14))
    } else if c == '_' as u8 {
        Some((3, 15))
    } else {
        None
    }
}

impl Q64Error {
    /// The error that describes a fault in words.
    pub fn from_kind(fault: &Q64ErrorKind) -> (e: Q64Error)
        ensures
            e.message@ == fault_text(*fault),
    {
        let mut message = String::new();
        match fault {
            Q64ErrorKind::OddLength { length } => {
                message.append("Q64 string length must be even");
            },
            Q64ErrorKind::InvalidCharacter { character, position } => {
                if *character as u32 > 255 {
                    message.append("Non-ASCII character ");
                } else {
                    message.append("Invalid Q64 character ");
                }
                push_quoted(&mut message, *character);
                message.append(" at position ");
                push_decimal(&mut message, *position as u128);
            },
            Q64ErrorKind::WrongPosition { character, position, expected_alphabet } => {
                let alphabet: u8 = if *character as u32 > 255 {
                    0
                } else {
                    match classify_byte(*character as u8) {
                        Some((alphabet, _)) => alphabet,
                        None => 0,
                    }
                };
                message.append("Character ");
                push_quoted(&mut message, *character);
                message.append(" from alphabet ");
                push_decimal(&mut message, alphabet as u128);
                message.append(" at position ");
                push_decimal(&mut message, *position as u128);
                message.append(" (expected alphabet ");
                push_decimal(&mut message, *expected_alphabet as u128);
                message.append(")");
            },
            Q64ErrorKind::BufferOverflow { required, available } => {
                message.append("Output buffer too small: need ");
                push_decimal(&mut message, *required as u128);
                message.append(" bytes, got ");
                push_decimal(&mut message, *available as u128);
            },
        }
        Q64Error { message }
    }
}

/// Once a fault is found, looking at more of the string does not change it.
pub proof fn lemma_decode_fault_stable(s: Seq<char>, n: int, m: int)
    requires
        n <= m,
        decode_fault_upto(s, n) is Some,
    ensures
        decode_fault_upto(s, m) == decode_fault_upto(s, n),
    decreases m - n,
{
    if n < m {
        lemma_decode_fault_stable(s, n, m - 1);
    }
}

/// The first `n` characters are free of fault exactly when each of them is.
pub proof fn lemma_decode_fault_none(s: Seq<char>, n: int)
    ensures
        decode_fault_upto(s, n) is None <==> forall|p: int|
            0 <= p < n ==> (#[trigger] char_fault(s[p], p)) is None,
    decreases n,
{
    if n > 0 {
        lemma_decode_fault_none(s, n - 1);
    }
}

/// Decodes Q64 text back to bytes, or tells why it cannot be decoded. A
/// string of odd length is refused; so is the first character that is no
/// symbol, or that is a symbol of another alphabet than its position calls
/// for. Nothing is decoded past a fault.
pub fn q64_try_decode(encoded: &str) -> (result: Result<Vec<u8>, Q64ErrorKind>)
    ensures
        result is Ok <==> decode_fault(encoded@) is None,
        result matches Ok(bytes) ==> bytes@ == q64_decode_spec(encoded@),
        result matches Err(fault) ==> decode_fault(encoded@) == Some(fault),
{
    let mut chars: Vec<char> = Vec::new();
    for ch in it: encoded.chars()
        invariant
            it.seq() == encoded@,
            chars@ == encoded@.take(it.index()),
    {
        chars.push(ch);
    }
    assert(chars@ =~= encoded@);
    if chars.len() % 2 != 0 {
        return Err(Q64ErrorKind::OddLength { length: chars.len() });
    }
    let lookup = build_reverse_lookup();
    let pairs = chars.len() / 2;
    let mut result: Vec<u8> = Vec::new();
    let mut pos: usize = 0;
    while pos < pairs
        invariant
            chars@ == encoded@,
            pairs * 2 == chars@.len(),
            pos <= pairs,
            decode_fault_upto(encoded@, 2 * pos) is None,
            result@ == q64_decode_spec(encoded@).take(pos as int),
        decreases pairs - pos,
    {
        let ch1 = chars[pos * 2];
        let ch2 = chars[pos * 2 + 1];
        let nibble1 = match validate_char(ch1, pos * 2, &lookup) {
            Ok(class) => class.1,
            Err(fault) => {
                proof {
                    lemma_decode_fault_stable(encoded@, 2 * pos + 1, encoded@.len() as int);
                }
                return Err(fault);
            },
        };
        let nibble2 = match validate_char(ch2, pos * 2 + 1, &lookup) {
            Ok(class) => class.1,
            Err(fault) => {
                proof {
                    lemma_decode_fault_stable(encoded@, 2 * pos + 2, encoded@.len() as int);
                }
                return Err(fault);
            },
        };
        proof {
            lemma_symbol_of_symbol_class(ch1 as u8);
            lemma_symbol_of_symbol_class(ch2 as u8);
        }
        let byte = (nibble1 << 4) | nibble2;
        assert(byte == nibble1 * 16 + nibble2) by (bit_vector)
            requires
                byte == (nibble1 << 4) | nibble2,
                nibble1 < 16,
                nibble2 < 16,
        ;
        result.push(byte);
        pos = pos + 1;
    }
    Ok(result)
}

/// Decodes Q64 text back to bytes. The error describes in words the fault
/// that [`q64_try_decode`] finds.
pub fn q64_decode(encoded: &str) -> (result: Result<Vec<u8>, Q64Error>)
    ensures
        result is Ok <==> decode_fault(encoded@) is None,
        result matches Ok(bytes) ==> bytes@ == q64_decode_spec(encoded@),
        result matches Err(e) ==> e.message@ == fault_text(decode_fault(encoded@)->0),
{
    match q64_try_decode(encoded) {
        Ok(bytes) => Ok(bytes),
        Err(fault) => Err(Q64Error::from_kind(&fault)),
    }
}

/// Decoding undoes encoding: the encoding of any bytes has no fault and
/// decodes to those bytes.
pub proof fn lemma_q64_roundtrip(data: Seq<u8>)
    ensures
        decode_fault(q64_encode_spec(data)) is None,
        q64_decode_spec(q64_encode_spec(data)) == data,
{
    let s = q64_encode_spec(data);
    assert forall|p: int| 0 <= p < s.len() implies (#[trigger] char_fault(s[p], p)) is None
        && nibble_of(s[p]) == nibble_at(data, p) by {
        lemma_symbol_class_of_symbol(p % 4, nibble_at(data, p));
    }
    lemma_decode_fault_none(s, s.len() as int);
    assert forall|i: int| 0 <= i < data.len() implies q64_decode_spec(s)[i] == data[i] by {
        assert(nibble_of(s[2 * i]) == nibble_at(data, 2 * i));
    }
}

/// Encoding is injective: different byte sequences have different encodings.
pub proof fn lemma_q64_encode_injective(a: Seq<u8>, b: Seq<u8>)
    requires
        q64_encode_spec(a) == q64_encode_spec(b),
    ensures
        a == b,
{
    lemma_q64_roundtrip(a);
    lemma_q64_roundtrip(b);
}

/// Position safety: in a string without fault, putting a symbol of the wrong
/// alphabet at any single position makes decoding fail at that position with
/// `WrongPosition`.
pub proof fn lemma_position_safety(s: Seq<char>, p: int, ch: char)
    requires
        decode_fault(s) is None,
        0 <= p < s.len(),
        char_class(ch) is Some,
        alphabet_of(ch) != p % 4,
    ensures
        decode_fault(s.update(p, ch)) == Some(
            Q64ErrorKind::WrongPosition {
                character: ch,
                position: p as usize,
                expected_alphabet: (p % 4) as u8,
            },
        ),
{
    let t = s.update(p, ch);
    lemma_decode_fault_none(s, s.len() as int);
    assert forall|q: int| 0 <= q < p implies (#[trigger] char_fault(t[q], q)) is None by {
        assert(char_fault(s[q], q) is None);
    }
    lemma_decode_fault_none(t, p);
    lemma_decode_fault_stable(t, p + 1, t.len() as int);
}

} // verus!

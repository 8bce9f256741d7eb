//! The binary transcoder: raw bytes to printable text and back.
//!
//! Three bytes become four characters of a 64-character alphabet; a short
//! last group is filled with zero bits and the text is padded with `=` to a
//! multiple of four characters. Decoding reads the text as a stream of
//! six-bit values and keeps every complete byte.

use base64::Engine;
use vstd::prelude::*;
use vstd::std_specs::iter::IteratorSpec;
use crate::text::{
    is_white_space, lemma_blank_trims_to_nothing, lemma_trimmed_unchanged, lemma_without_trailing,
    trim_end_char, trimmed, without_trailing,
};

verus! {

/// Why a text could not be decoded.
#[derive(Clone, Copy, Debug, PartialEq, Eq, Structural)]
pub enum DecodeError {
    /// The text holds a character that is not in the alphabet.
    InvalidCharacter,
}

impl DecodeError {
    /// The error as a message for a human reader.
    pub fn message(&self) -> (text: String)
        ensures
            text@ == "Invalid base64 character"@,
    {
        String::from_str("Invalid base64 character")
    }
}

/// The character that stands for the six-bit value `v`.
pub open spec fn symbol(v: int) -> char {
    if v < 26 {
        ('A' as int + v) as char
    } else if v < 52 {
        ('a' as int + (v - 26)) as char
    } else if v < 62 {
        ('0' as int + (v - 52)) as char
    } else if v == 62 {
        '+'
    } else {
        '/'
    }
}

/// Whether `c` belongs to the alphabet.
pub open spec fn is_symbol(c: char) -> bool {
    ||| 'A' <= c <= 'Z'
    ||| 'a' <= c <= 'z'
    ||| '0' <= c <= '9'
    ||| c == '+'
    ||| c == '/'
}

/// The six-bit value that the alphabet character `c` stands for.
pub open spec fn symbol_value(c: char) -> int {
    if 'A' <= c <= 'Z' {
        c as int - 'A' as int
    } else if 'a' <= c <= 'z' {
        c as int - 'a' as int + 26
    } else if '0' <= c <= '9' {
        c as int - '0' as int + 52
    } else if c == '+' {
        62
    } else {
        63
    }
}

/// Whether every character of `s` belongs to the alphabet.
pub open spec fn all_symbols(s: Seq<char>) -> bool {
    forall|i: int| 0 <= i < s.len() ==> is_symbol(#[trigger] s[i])
}

/// The byte at position `i` of `bytes`, and zero past its end.
pub open spec fn byte_or_zero(bytes: Seq<u8>, i: int) -> int {
    if 0 <= i < bytes.len() {
        bytes[i] as int
    } else {
        0
    }
}

/// How many characters encode `n` bytes.
pub open spec fn encoded_len(n: nat) -> nat {
    ((n + 2) / 3 * 4) as nat
}

/// The character at position `k` of the encoding of `bytes`.
pub open spec fn encoded_char(bytes: Seq<u8>, k: int) -> char {
    let at = k / 4 * 3;
    let b0 = byte_or_zero(bytes, at);
    let b1 = byte_or_zero(bytes, at + 1);
    let b2 = byte_or_zero(bytes, at + 2);
    if k % 4 == 0 {
        symbol(b0 / 4)
    } else if k % 4 == 1 {
        symbol(b0 % 4 * 16 + b1 / 16)
    } else if k % 4 == 2 {
        if at + 1 < bytes.len() {
            symbol(b1 % 16 * 4 + b2 / 64)
        } else {
            '='
        }
    } else {
        if at + 2 < bytes.len() {
            symbol(b2 % 64)
        } else {
            '='
        }
    }
}

/// The encoding of `bytes`.
pub open spec fn encode_spec(bytes: Seq<u8>) -> Seq<char> {
    Seq::new(encoded_len(bytes.len()), |k: int| encoded_char(bytes, k))
}

/// What is left of a text to decode: the text without surrounding white
/// space and without the padding at its end.
pub open spec fn payload(text: Seq<char>) -> Seq<char> {
    without_trailing(trimmed(text), '=')
}

/// How many complete bytes `n` six-bit values hold.
pub open spec fn decoded_len(n: nat) -> nat {
    (n * 3 / 4) as nat
}

/// The byte at position `j` of what the alphabet characters `symbols` encode.
pub open spec fn decoded_byte(symbols: Seq<char>, j: int) -> u8 {
    let at = j / 3 * 4;
    if j % 3 == 0 {
        (symbol_value(symbols[at]) * 4 + symbol_value(symbols[at + 1]) / 16) as u8
    } else if j % 3 == 1 {
        (symbol_value(symbols[at + 1]) % 16 * 16 + symbol_value(symbols[at + 2]) / 4) as u8
    } else {
        (symbol_value(symbols[at + 2]) % 4 * 64 + symbol_value(symbols[at + 3])) as u8
    }
}

/// The bytes that the alphabet characters `symbols` encode. Bits past the
/// last complete byte are dropped.
pub open spec fn decode_spec(symbols: Seq<char>) -> Seq<u8> {
    Seq::new(decoded_len(symbols.len()), |j: int| decoded_byte(symbols, j))
}

/// The alphabet character for a six-bit value.
fn symbol_of(v: u8) -> (c: char)
    requires
        v < 64,
    ensures
        c == symbol(v as int),
        is_symbol(c),
{
    if v < 26 {
        ('A' as u8 + v) as char
    } else if v < 52 {
        ('a' as u8 + (v - 26)) as char
    } else if v < 62 {
        ('0' as u8 + (v - 52)) as char
    } else if v == 62 {
        '+'
    } else {
        '/'
    }
}

/// The six-bit value of a character, if it belongs to the alphabet.
fn value_of(c: char) -> (v: Option<u32>)
    ensures
        match v {
            Some(v) => is_symbol(c) && v == symbol_value(c) && v < 64,
            None => !is_symbol(c),
        },
{
    if c >= 'A' && c <= 'Z' {
        Some(c as u32 - 'A' as u32)
    } else if c >= 'a' && c <= 'z' {
        Some(c as u32 - 'a' as u32 + 26)
    } else if c >= '0' && c <= '9' {
        Some(c as u32 - '0' as u32 + 52)
    } else if c == '+' {
        Some(62)
    } else if c == '/' {
        Some(63)
    } else {
        None
    }
}

/// `Engine::encode` of the `base64` crate on its engine `STANDARD`, which
/// writes with the alphabet and the padding of this module. It panics where
/// the length of the text does not fit in `usize`.
#[verifier::external_body]
pub(crate) fn standard_encode(data: &[u8]) -> (text: String)
    requires
        encoded_len(data@.len()) <= usize::MAX,
    ensures
        text@ == encode_spec(data@),
{
    base64::engine::general_purpose::STANDARD.encode(data)
}

/// Encodes `data` as text.
pub fn encode_base64(data: &[u8]) -> (text: String)
    ensures
        text@ == encode_spec(data@),
{
    let n = data.len();
    let mut result = String::new();
    let mut i: usize = 0;
    while i < n
        invariant
            n == data@.len(),
            i <= n,
            i % 3 == 0,
            result@.len() == i / 3 * 4,
            forall|k: int| 0 <= k < result@.len() ==> result@[k] == encoded_char(data@, k),
        decreases n - i,
    {
        let b1: u8 = data[i];
        let b2: u8 = if n - i > 1 { data[i + 1] } else { 0 };
        let b3: u8 = if n - i > 2 { data[i + 2] } else { 0 };
        let bitmap: u32 = ((b1 as u32) << 16) | ((b2 as u32) << 8) | (b3 as u32);
        let v0: u8 = ((bitmap >> 18) & 63) as u8;
        let v1: u8 = ((bitmap >> 12) & 63) as u8;
        let v2: u8 = ((bitmap >> 6) & 63) as u8;
        let v3: u8 = (bitmap & 63) as u8;
        proof {
            lemma_split_three(b1, b2, b3);
            assert(byte_or_zero(data@, i as int) == b1);
            assert(byte_or_zero(data@, i + 1) == b2);
            assert(byte_or_zero(data@, i + 2) == b3);
        }
        let ghost before = result@;
        let ghost at = before.len() as int;
        result.push(symbol_of(v0));
        result.push(symbol_of(v1));
        if n - i > 1 {
            result.push(symbol_of(v2));
        } else {
            result.push('=');
        }
        if n - i > 2 {
            result.push(symbol_of(v3));
        } else {
            result.push('=');
        }
        proof {
            assert(at == i / 3 * 4);
            assert(result@.len() == at + 4);
            assert(forall|k: int| 0 <= k < at ==> result@[k] == before[k]);
            assert(at / 4 * 3 == i);
            assert((at + 1) / 4 * 3 == i && (at + 1) % 4 == 1);
            assert((at + 2) / 4 * 3 == i && (at + 2) % 4 == 2);
            assert((at + 3) / 4 * 3 == i && (at + 3) % 4 == 3);
            assert(result@[at] == encoded_char(data@, at));
            assert(result@[at + 1] == encoded_char(data@, at + 1));
            assert(result@[at + 2] == encoded_char(data@, at + 2));
            assert(result@[at + 3] == encoded_char(data@, at + 3));
        }
        if n - i > 2 {
            i = i + 3;
        } else {
            proof {
                assert(result@.len() == encoded_len(n as nat));
                assert(result@ =~= encode_spec(data@));
            }
            return result;
        }
    }
    proof {
        assert(result@ =~= encode_spec(data@));
    }
    result
}

/// Decodes `input`: surrounding white space and trailing `=` are set aside,
/// and the rest must consist of alphabet characters.
pub fn decode_base64(input: &str) -> (r: Result<Vec<u8>, DecodeError>)
    ensures
        match r {
            Ok(bytes) => all_symbols(payload(input@)) && bytes@ == decode_spec(payload(input@)),
            Err(e) => e == DecodeError::InvalidCharacter && !all_symbols(payload(input@)),
        },
{
    broadcast use vstd::string::group_string_axioms;

    let text = trim_end_char(input.trim(), '=');
    let mut result: Vec<u8> = Vec::new();
    let mut buffer: u32 = 0;
    let mut bits: u32 = 0;
    let mut it = text.chars();
    let ghost mut seen: Seq<char> = Seq::empty();
    loop
        invariant
            text@ == payload(input@),
            it.obeys_prophetic_iter_laws(),
            seen + it.remaining() == text@,
            all_symbols(seen),
            result@.len() == decoded_len(seen.len()),
            forall|j: int| 0 <= j < result@.len() ==> result@[j] == decoded_byte(seen, j),
            seen.len() % 4 == 0 ==> bits == 0 && buffer == 0,
            seen.len() % 4 == 1 ==> bits == 6 && buffer == symbol_value(seen.last()),
            seen.len() % 4 == 2 ==> bits == 4 && buffer == symbol_value(seen.last()) % 16,
            seen.len() % 4 == 3 ==> bits == 2 && buffer == symbol_value(seen.last()) % 4,
        decreases text@.len() - seen.len(),
    {
        let ghost rest = it.remaining();
        match it.next() {
            None => {
                proof {
                    assert(seen =~= text@);
                    assert(result@ =~= decode_spec(text@));
                }
                return Ok(result);
            },
            Some(c) => {
                let ghost grown = seen.push(c);
                proof {
                    assert(grown + it.remaining() =~= seen + rest);
                    assert(text@[seen.len() as int] == c);
                }
                let val: u32 = match value_of(c) {
                    Some(v) => v,
                    None => {
                        return Err(DecodeError::InvalidCharacter);
                    },
                };
                proof {
                    lemma_join_sextet(buffer, val);
                    assert(forall|i: int| 0 <= i < seen.len() ==> grown[i] == seen[i]);
                    assert(forall|j: int|
                        0 <= j < result@.len() ==> decoded_byte(grown, j) == decoded_byte(seen, j));
                }
                buffer = (buffer << 6) | val;
                bits = bits + 6;
                if bits >= 8 {
                    bits = bits - 8;
                    let byte: u8 = (buffer >> bits) as u8;
                    result.push(byte);
                    proof {
                        assert((1u32 << bits) >= 1) by (bit_vector)
                            requires
                                bits < 8,
                        ;
                    }
                    buffer = buffer & ((1u32 << bits) - 1);
                    proof {
                        let j = result@.len() - 1;
                        assert(j / 3 * 4 + j % 3 + 1 == seen.len());
                        assert(result@[j] == decoded_byte(grown, j));
                    }
                }
                proof {
                    seen = grown;
                }
            },
        }
    }
}

/// How many characters of the encoding of `n` bytes are alphabet characters;
/// the rest is padding.
pub open spec fn symbol_count(n: nat) -> nat {
    ((n * 4 + 2) / 3) as nat
}

/// Every six-bit value has its own alphabet character, which is neither
/// white space nor the padding character.
pub proof fn lemma_symbol(v: int)
    requires
        0 <= v < 64,
    ensures
        is_symbol(symbol(v)),
        symbol_value(symbol(v)) == v,
        !is_white_space(symbol(v)),
        symbol(v) != '=',
{
}

/// The shape of an encoding: alphabet characters, then padding up to a
/// multiple of four characters. No bytes give no characters.
pub proof fn lemma_encoding_shape(bytes: Seq<u8>)
    ensures
        encode_spec(bytes).len() == encoded_len(bytes.len()),
        encode_spec(bytes).len() % 4 == 0,
        bytes.len() == 0 <==> encode_spec(bytes).len() == 0,
        symbol_count(bytes.len()) <= encoded_len(bytes.len()) <= symbol_count(bytes.len()) + 2,
        forall|k: int|
            0 <= k < symbol_count(bytes.len()) ==> is_symbol(#[trigger] encode_spec(bytes)[k]),
        forall|k: int|
            symbol_count(bytes.len()) <= k < encoded_len(bytes.len()) ==> #[trigger] encode_spec(
                bytes,
            )[k] == '=',
{
    let text = encode_spec(bytes);
    let n = bytes.len() as int;
    assert forall|k: int| 0 <= k < symbol_count(bytes.len()) implies is_symbol(
        #[trigger] text[k],
    ) by {
        let at = k / 4 * 3;
        let b0 = byte_or_zero(bytes, at);
        let b1 = byte_or_zero(bytes, at + 1);
        let b2 = byte_or_zero(bytes, at + 2);
        lemma_symbol(b0 / 4);
        lemma_symbol(b0 % 4 * 16 + b1 / 16);
        lemma_symbol(b1 % 16 * 4 + b2 / 64);
        lemma_symbol(b2 % 64);
    }
}

/// Decoding an encoding gives the bytes back.
pub proof fn lemma_round_trip(bytes: Seq<u8>)
    ensures
        payload(encode_spec(bytes)) == encode_spec(bytes).take(symbol_count(bytes.len()) as int),
        all_symbols(payload(encode_spec(bytes))),
        decode_spec(payload(encode_spec(bytes))) == bytes,
{
    let text = encode_spec(bytes);
    let n = bytes.len() as int;
    let kept = symbol_count(bytes.len()) as int;
    lemma_encoding_shape(bytes);
    if text.len() > 0 {
        assert(is_symbol(text[0]));
        assert(text.last() == text[text.len() - 1]);
        assert(is_symbol(text.last()) || text.last() == '=');
    }
    lemma_trimmed_unchanged(text);
    if kept > 0 {
        assert(is_symbol(text[kept - 1]));
    }
    lemma_without_trailing(text, '=', kept);
    let symbols = text.take(kept);
    assert(payload(text) == symbols);
    assert(decoded_len(symbols.len()) == n);
    assert forall|j: int| 0 <= j < n implies decoded_byte(symbols, j) == bytes[j] by {
        lemma_decoded_byte_of_encoding(bytes, j);
    }
    assert(decode_spec(symbols) =~= bytes);
}

/// A text of nothing but white space decodes to no bytes, and so does the
/// empty text.
pub proof fn lemma_blank_decodes_to_nothing(text: Seq<char>)
    requires
        forall|i: int| 0 <= i < text.len() ==> is_white_space(#[trigger] text[i]),
    ensures
        payload(text) == Seq::<char>::empty(),
        all_symbols(payload(text)),
        decode_spec(payload(text)) == Seq::<u8>::empty(),
{
    lemma_blank_trims_to_nothing(text);
    assert(decode_spec(Seq::<char>::empty()) =~= Seq::<u8>::empty());
}

/// Three bytes, split into four six-bit values, join to the same three bytes.
proof fn lemma_regroup(b0: int, b1: int, b2: int)
    requires
        0 <= b0 < 256,
        0 <= b1 < 256,
        0 <= b2 < 256,
    ensures
        ({
            let v0 = b0 / 4;
            let v1 = b0 % 4 * 16 + b1 / 16;
            let v2 = b1 % 16 * 4 + b2 / 64;
            let v3 = b2 % 64;
            &&& 0 <= v0 < 64 && 0 <= v1 < 64 && 0 <= v2 < 64 && 0 <= v3 < 64
            &&& v0 * 4 + v1 / 16 == b0
            &&& v1 % 16 * 16 + v2 / 4 == b1
            &&& v2 % 4 * 64 + v3 == b2
        }),
{
}

/// The character at position `k` of an encoding, where it is not padding.
proof fn lemma_encoded_symbol(bytes: Seq<u8>, group: int, place: int)
    requires
        0 <= group,
        0 <= place < 4,
        group * 4 + place < symbol_count(bytes.len()),
    ensures
        ({
            let b0 = byte_or_zero(bytes, group * 3);
            let b1 = byte_or_zero(bytes, group * 3 + 1);
            let b2 = byte_or_zero(bytes, group * 3 + 2);
            encode_spec(bytes).take(symbol_count(bytes.len()) as int)[group * 4 + place] == symbol(
                if place == 0 {
                    b0 / 4
                } else if place == 1 {
                    b0 % 4 * 16 + b1 / 16
                } else if place == 2 {
                    b1 % 16 * 4 + b2 / 64
                } else {
                    b2 % 64
                },
            )
        }),
{
    let k = group * 4 + place;
    assert(k / 4 == group && k % 4 == place);
    assert(k < encoded_len(bytes.len()));
    assert(encode_spec(bytes)[k] == encoded_char(bytes, k));
}

/// The byte at position `j` of what the encoding of `bytes` decodes to.
proof fn lemma_decoded_byte_of_encoding(bytes: Seq<u8>, j: int)
    requires
        0 <= j < bytes.len(),
    ensures
        decoded_byte(encode_spec(bytes).take(symbol_count(bytes.len()) as int), j) == bytes[j],
{
    let group = j / 3;
    let b0 = byte_or_zero(bytes, group * 3);
    let b1 = byte_or_zero(bytes, group * 3 + 1);
    let b2 = byte_or_zero(bytes, group * 3 + 2);
    lemma_regroup(b0, b1, b2);
    lemma_symbol(b0 / 4);
    lemma_symbol(b0 % 4 * 16 + b1 / 16);
    lemma_symbol(b1 % 16 * 4 + b2 / 64);
    lemma_symbol(b2 % 64);
    assert(group * 4 + j % 3 + 1 < symbol_count(bytes.len()));
    if j % 3 == 0 {
        lemma_encoded_symbol(bytes, group, 0);
        lemma_encoded_symbol(bytes, group, 1);
    } else if j % 3 == 1 {
        lemma_encoded_symbol(bytes, group, 1);
        lemma_encoded_symbol(bytes, group, 2);
    } else {
        lemma_encoded_symbol(bytes, group, 2);
        lemma_encoded_symbol(bytes, group, 3);
    }
}

/// The four six-bit values into which three bytes split.
proof fn lemma_split_three(b1: u8, b2: u8, b3: u8)
    ensures
        ({
            let bitmap = ((b1 as u32) << 16) | ((b2 as u32) << 8) | (b3 as u32);
            &&& (bitmap >> 18) & 63 == b1 / 4
            &&& (bitmap >> 12) & 63 == b1 % 4 * 16 + b2 / 16
            &&& (bitmap >> 6) & 63 == b2 % 16 * 4 + b3 / 64
            &&& bitmap & 63 == b3 % 64
        }),
{
    let bitmap = ((b1 as u32) << 16) | ((b2 as u32) << 8) | (b3 as u32);
    assert((bitmap >> 18) & 63 == b1 / 4) by (bit_vector)
        requires
            bitmap == ((b1 as u32) << 16) | ((b2 as u32) << 8) | (b3 as u32),
    ;
    assert((bitmap >> 12) & 63 == b1 % 4 * 16 + b2 / 16) by (bit_vector)
        requires
            bitmap == ((b1 as u32) << 16) | ((b2 as u32) << 8) | (b3 as u32),
    ;
    assert((bitmap >> 6) & 63 == b2 % 16 * 4 + b3 / 64) by (bit_vector)
        requires
            bitmap == ((b1 as u32) << 16) | ((b2 as u32) << 8) | (b3 as u32),
    ;
    assert(bitmap & 63 == b3 % 64) by (bit_vector)
        requires
            bitmap == ((b1 as u32) << 16) | ((b2 as u32) << 8) | (b3 as u32),
    ;
}

/// What the bit buffer holds once a six-bit value has been shifted in, for
/// each number of bits that can then be pending.
proof fn lemma_join_sextet(held: u32, v: u32)
    requires
        held < 64,
        v < 64,
    ensures
        ({
            let joined = (held << 6) | v;
            &&& held == 0 ==> joined == v
            &&& (joined >> 4u32) == held * 4 + v / 16
            &&& joined & ((1u32 << 4u32) - 1) as u32 == v % 16
            &&& held < 16 ==> (joined >> 2u32) == held * 16 + v / 4
            &&& joined & ((1u32 << 2u32) - 1) as u32 == v % 4
            &&& held < 4 ==> (joined >> 0u32) == held * 64 + v
            &&& joined & ((1u32 << 0u32) - 1) as u32 == 0
        }),
{
    let joined = (held << 6) | v;
    assert(held == 0 ==> joined == v) by (bit_vector)
        requires
            joined == (held << 6) | v,
    ;
    assert((joined >> 4u32) == held * 4 + v / 16 && joined & ((1u32 << 4u32) - 1) as u32 == v % 16)
        by (bit_vector)
        requires
            joined == (held << 6) | v,
            held < 64,
            v < 64,
    ;
    assert(held < 16 ==> (joined >> 2u32) == held * 16 + v / 4) by (bit_vector)
        requires
            joined == (held << 6) | v,
            v < 64,
    ;
    assert(joined & ((1u32 << 2u32) - 1) as u32 == v % 4) by (bit_vector)
        requires
            joined == (held << 6) | v,
            v < 64,
    ;
    assert(held < 4 ==> (joined >> 0u32) == held * 64 + v) by (bit_vector)
        requires
            joined == (held << 6) | v,
            v < 64,
    ;
    assert(joined & ((1u32 << 0u32) - 1) as u32 == 0) by (bit_vector);
}

} // verus!

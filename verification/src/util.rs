use vstd::prelude::*;
use vstd::utf8::{
    decode_utf8, encode_utf8, valid_utf8, encode_utf8_decode_utf8, encode_utf8_valid_utf8,
    decode_utf8_encode_utf8,
};
use vstd::string::{StringSliceAdditionalSpecFns, StrSliceExecFns};

verus! {

#[verifier::external_type_specification]
#[verifier::external_body]
pub struct ExBase64DecodeError(base64::DecodeError);

#[verifier::external_type_specification]
#[verifier::external_body]
pub struct ExFromUtf8Error(std::string::FromUtf8Error);

/// The character of a 6-bit value in the standard base64 alphabet of
/// RFC 4648: `A`-`Z`, `a`-`z`, `0`-`9`, `+`, `/`.
pub open spec fn base64_symbol(v: int) -> char {
    if v < 26 {
        (65 + v) as char
    } else if v < 52 {
        (97 + (v - 26)) as char
    } else if v < 62 {
        (48 + (v - 52)) as char
    } else if v == 62 {
        '+'
    } else {
        '/'
    }
}

/// Standard base64 with padding (RFC 4648, section 4): each group of three
/// bytes becomes four symbols; a last group of one or two bytes is padded
/// with `=` to four.
pub open spec fn base64_standard_encoding(bytes: Seq<u8>) -> Seq<char>
    decreases bytes.len(),
{
    if bytes.len() == 0 {
        Seq::empty()
    } else if bytes.len() == 1 {
        let b0 = bytes[0] as int;
        seq![base64_symbol(b0 / 4), base64_symbol((b0 % 4) * 16), '=', '=']
    } else if bytes.len() == 2 {
        let b0 = bytes[0] as int;
        let b1 = bytes[1] as int;
        seq![
            base64_symbol(b0 / 4),
            base64_symbol((b0 % 4) * 16 + b1 / 16),
            base64_symbol((b1 % 16) * 4),
            '=',
        ]
    } else {
        let b0 = bytes[0] as int;
        let b1 = bytes[1] as int;
        let b2 = bytes[2] as int;
        seq![
            base64_symbol(b0 / 4),
            base64_symbol((b0 % 4) * 16 + b1 / 16),
            base64_symbol((b1 % 16) * 4 + b2 / 64),
            base64_symbol(b2 % 64),
        ] + base64_standard_encoding(bytes.subrange(3, bytes.len() as int))
    }
}

/// The bytes that the base64 crate's standard engine reads from a text, or
/// `None` where it refuses the text.
pub uninterp spec fn base64_standard_decoding(text: Seq<char>) -> Option<Seq<u8>>;

/// Whether the standard engine can size its output for `len` input bytes
/// without overflowing `usize` (it panics otherwise).
pub open spec fn base64_encoded_len_fits(len: int) -> bool {
    (len / 3) * 4 + (if len % 3 > 0 { 4int } else { 0int }) <= usize::MAX
}

/// Whether the standard engine can size its buffers for a text of `len`
/// bytes without overflowing `usize` (it panics otherwise).
pub open spec fn base64_decoded_len_fits(len: int) -> bool {
    len + 7 <= usize::MAX
}

/// Calls `base64::encode`, which encodes arbitrary octets with the
/// `STANDARD` config: the RFC 4648 alphabet, with padding. The crate panics
/// only where the output size overflows `usize`, which `requires` rules out.
#[verifier::external_body]
fn base64_encode(bytes: &[u8]) -> (text: String)
    requires
        base64_encoded_len_fits(bytes@.len() as int),
    ensures
        text@ == base64_standard_encoding(bytes@),
{
    base64::encode(bytes)
}

/// Calls `base64::decode` with the `STANDARD` config. Which texts it accepts
/// (padding may be left out; stray symbols, bad lengths and nonzero trailing
/// bits are refused) and what it yields is named by
/// `base64_standard_decoding`. Stated beside it: decoding the standard
/// encoding of some bytes gives those bytes back, which the crate's
/// round-trip tests check. It panics only where the buffer size overflows
/// `usize`, which `requires` rules out.
#[verifier::external_body]
fn base64_decode(text: &str) -> (bytes: Result<Vec<u8>, base64::DecodeError>)
    requires
        base64_decoded_len_fits(text.spec_bytes().len() as int),
    ensures
        bytes is Ok <==> base64_standard_decoding(text@) is Some,
        bytes is Ok ==> base64_standard_decoding(text@) == Some(bytes->Ok_0@),
        forall|original: Seq<u8>|
            #[trigger] base64_standard_encoding(original) == text@ ==> bytes is Ok
                && bytes->Ok_0@ == original,
{
    base64::decode(text)
}

/// Calls `String::from_utf8`, which accepts exactly the byte sequences that
/// are valid UTF-8 and then holds the characters they encode.
#[verifier::external_body]
fn string_from_utf8(bytes: Vec<u8>) -> (text: Result<String, std::string::FromUtf8Error>)
    ensures
        text is Ok <==> valid_utf8(bytes@),
        text is Ok ==> text->Ok_0@ == decode_utf8(bytes@),
{
    String::from_utf8(bytes)
}

/// Why a signaling text could not be decoded.
#[derive(Debug)]
pub enum SignalDecodeError {
    /// The text is not standard base64.
    Base64(base64::DecodeError),
    /// The decoded bytes are not UTF-8.
    Utf8(std::string::FromUtf8Error),
}

/// The base64 text that `encode` produces for a string: the standard
/// encoding of its UTF-8 bytes.
pub open spec fn encoded_text(text: Seq<char>) -> Seq<char> {
    base64_standard_encoding(encode_utf8(text))
}

/// What `decode` gives for a text: `None` where the text is not standard
/// base64 or the bytes it holds are not UTF-8, else the decoded string.
pub open spec fn decoded_text(text: Seq<char>) -> Option<Seq<char>> {
    match base64_standard_decoding(text) {
        Some(bytes) => if valid_utf8(bytes) {
            Some(decode_utf8(bytes))
        } else {
            None
        },
        None => None,
    }
}

/// The text `encode` stands for is the standard base64 of the string's
/// UTF-8 bytes.
pub proof fn lemma_encoded_text_is_base64_of_utf8(text: Seq<char>)
    ensures
        encoded_text(text) == base64_standard_encoding(encode_utf8(text)),
{
}

/// Where a text decodes, the string it decodes to has, as its UTF-8 bytes,
/// exactly the bytes that the base64 text holds; and a text decodes exactly
/// when its base64 holds valid UTF-8.
pub proof fn lemma_decoded_text_holds_the_bytes(text: Seq<char>)
    ensures
        decoded_text(text) is Some <==> (base64_standard_decoding(text) is Some && valid_utf8(
            base64_standard_decoding(text)->Some_0,
        )),
        decoded_text(text) is Some ==> base64_standard_decoding(text) == Some(
            encode_utf8(decoded_text(text)->Some_0),
        ),
{
    if let Some(bytes) = base64_standard_decoding(text) {
        if valid_utf8(bytes) {
            decode_utf8_encode_utf8(bytes);
        }
    }
}

/// Base64 of `n` bytes holds four symbols for every started group of three.
pub proof fn lemma_base64_length(bytes: Seq<u8>)
    ensures
        base64_standard_encoding(bytes).len() == 4 * ((bytes.len() + 2) / 3),
    decreases bytes.len(),
{
    if bytes.len() >= 3 {
        lemma_base64_length(bytes.subrange(3, bytes.len() as int));
    }
}

/// Every full group of three bytes `b0 b1 b2` at group index `k` becomes the
/// four symbols of its 6-bit pieces, at positions `4k` to `4k + 3`.
pub proof fn lemma_base64_groups(bytes: Seq<u8>, k: int)
    requires
        0 <= k,
        3 * k + 3 <= bytes.len(),
    ensures
        ({
            let e = base64_standard_encoding(bytes);
            let b0 = bytes[3 * k] as int;
            let b1 = bytes[3 * k + 1] as int;
            let b2 = bytes[3 * k + 2] as int;
            &&& e[4 * k] == base64_symbol(b0 / 4)
            &&& e[4 * k + 1] == base64_symbol((b0 % 4) * 16 + b1 / 16)
            &&& e[4 * k + 2] == base64_symbol((b1 % 16) * 4 + b2 / 64)
            &&& e[4 * k + 3] == base64_symbol(b2 % 64)
        }),
    decreases k,
{
    let rest = bytes.subrange(3, bytes.len() as int);
    lemma_base64_length(rest);
    if k > 0 {
        lemma_base64_groups(rest, k - 1);
        assert(rest[3 * (k - 1)] == bytes[3 * k]);
        assert(rest[3 * (k - 1) + 1] == bytes[3 * k + 1]);
        assert(rest[3 * (k - 1) + 2] == bytes[3 * k + 2]);
    }
}

/// A last group of one byte ends in two `=`, of two bytes in one `=`; a
/// whole number of groups has no padding.
pub proof fn lemma_base64_padding(bytes: Seq<u8>)
    ensures
        ({
            let e = base64_standard_encoding(bytes);
            &&& bytes.len() % 3 == 1 ==> e[e.len() - 1] == '=' && e[e.len() - 2] == '='
                && e[e.len() - 3] != '='
            &&& bytes.len() % 3 == 2 ==> e[e.len() - 1] == '=' && e[e.len() - 2] != '='
            &&& bytes.len() % 3 == 0 && bytes.len() > 0 ==> e[e.len() - 1] != '='
        }),
    decreases bytes.len(),
{
    let e = base64_standard_encoding(bytes);
    lemma_base64_length(bytes);
    if bytes.len() >= 3 {
        let rest = bytes.subrange(3, bytes.len() as int);
        lemma_base64_padding(rest);
        lemma_base64_length(rest);
        let r = base64_standard_encoding(rest);
        if rest.len() > 0 {
            assert(e[e.len() - 1] == r[r.len() - 1]);
            assert(e[e.len() - 2] == r[r.len() - 2]);
            assert(e[e.len() - 3] == r[r.len() - 3]);
        } else {
            assert(e.len() == 4);
        }
    }
}

/// Encodes a string in base64 (standard alphabet, padded), so that a
/// session description survives being pasted through a terminal.
pub fn encode(b: &str) -> (encoded: String)
    requires
        base64_encoded_len_fits(b.spec_bytes().len() as int),
    ensures
        encoded@ == encoded_text(b@),
        encoded@ == base64_standard_encoding(encode_utf8(b@)),
        encoded@ == base64_standard_encoding(b.spec_bytes()),
{
    let bytes = b.as_bytes();
    base64_encode(bytes)
}

/// Decodes a base64 text (standard alphabet, padded) into the string whose
/// UTF-8 bytes it holds.
pub fn decode(s: &str) -> (decoded: Result<String, SignalDecodeError>)
    requires
        base64_decoded_len_fits(s.spec_bytes().len() as int),
    ensures
        decoded is Ok <==> decoded_text(s@) is Some,
        decoded matches Ok(t) ==> decoded_text(s@) == Some(t@),
        decoded matches Err(SignalDecodeError::Base64(_)) <==> base64_standard_decoding(s@) is None,
        forall|original: Seq<char>|
            #[trigger] encoded_text(original) == s@ ==> decoded is Ok && decoded->Ok_0@
                == original,
        forall|bytes: Seq<u8>|
            #[trigger] base64_standard_encoding(bytes) == s@ ==> (decoded is Ok <==> valid_utf8(
                bytes,
            )),
        decoded is Ok ==> base64_standard_decoding(s@) == Some(encode_utf8(decoded->Ok_0@)),
        forall|original: Seq<char>|
            #[trigger] base64_standard_encoding(encode_utf8(original)) == s@ ==> decoded is Ok
                && decoded->Ok_0@ == original,
{
    proof {
        assert forall|original: Seq<char>| #[trigger] encoded_text(original) == s@ implies
            valid_utf8(encode_utf8(original)) && decode_utf8(encode_utf8(original)) == original by {
            encode_utf8_valid_utf8(original);
            encode_utf8_decode_utf8(original);
        }
        assert forall|original: Seq<char>| #[trigger] base64_standard_encoding(encode_utf8(original))
            == s@ implies encoded_text(original) == s@ by {
            lemma_encoded_text_is_base64_of_utf8(original);
        }
        if let Some(bytes) = base64_standard_decoding(s@) {
            if valid_utf8(bytes) {
                decode_utf8_encode_utf8(bytes);
            }
        }
    }
    match base64_decode(s) {
        Ok(bytes) => match string_from_utf8(bytes) {
            Ok(text) => Ok(text),
            Err(e) => Err(SignalDecodeError::Utf8(e)),
        },
        Err(e) => Err(SignalDecodeError::Base64(e)),
    }
}


/// Unicode `White_Space`, the characters that `char::is_whitespace`
/// accepts and that `str::trim` removes.
pub open spec fn is_white_space(c: char) -> bool {
    let u = c as u32;
    ||| 0x09 <= u <= 0x0d
    ||| u == 0x20
    ||| u == 0x85
    ||| u == 0xa0
    ||| u == 0x1680
    ||| 0x2000 <= u <= 0x200a
    ||| u == 0x2028
    ||| u == 0x2029
    ||| u == 0x202f
    ||| u == 0x205f
    ||| u == 0x3000
}

/// The text without its leading white space.
pub open spec fn trim_start(s: Seq<char>) -> Seq<char>
    decreases s.len(),
{
    if s.len() > 0 && is_white_space(s[0]) {
        trim_start(s.drop_first())
    } else {
        s
    }
}

/// The text without its trailing white space.
pub open spec fn trim_end(s: Seq<char>) -> Seq<char>
    decreases s.len(),
{
    if s.len() > 0 && is_white_space(s.last()) {
        trim_end(s.drop_last())
    } else {
        s
    }
}

/// The text without leading and trailing white space.
pub open spec fn trimmed(s: Seq<char>) -> Seq<char> {
    trim_end(trim_start(s))
}

proof fn lemma_trim_start_front(s: Seq<char>)
    ensures
        trim_start(s).len() <= s.len(),
        trim_start(s).len() > 0 ==> !is_white_space(trim_start(s)[0]),
        trim_start(s) == s.subrange(s.len() - trim_start(s).len(), s.len() as int),
    decreases s.len(),
{
    if s.len() > 0 && is_white_space(s[0]) {
        lemma_trim_start_front(s.drop_first());
        let t = trim_start(s.drop_first());
        assert(s.drop_first().subrange(s.len() - 1 - t.len(), s.len() - 1) =~= s.subrange(
            s.len() - t.len(),
            s.len() as int,
        ));
    } else {
        assert(s.subrange(0, s.len() as int) =~= s);
    }
}

proof fn lemma_trim_end_back(s: Seq<char>)
    ensures
        trim_end(s).len() <= s.len(),
        trim_end(s).len() > 0 ==> !is_white_space(trim_end(s).last()),
        trim_end(s) == s.subrange(0, trim_end(s).len() as int),
    decreases s.len(),
{
    if s.len() > 0 && is_white_space(s.last()) {
        lemma_trim_end_back(s.drop_last());
        let t = trim_end(s.drop_last());
        assert(s.drop_last().subrange(0, t.len() as int) =~= s.subrange(0, t.len() as int));
    } else {
        assert(s.subrange(0, s.len() as int) =~= s);
    }
}

/// A trimmed text neither starts nor ends with white space, so trimming it
/// again changes nothing.
pub proof fn lemma_trimmed_is_trim_free(s: Seq<char>)
    ensures
        trimmed(s).len() > 0 ==> !is_white_space(trimmed(s)[0]) && !is_white_space(
            trimmed(s).last(),
        ),
        trimmed(trimmed(s)) == trimmed(s),
{
    let a = trim_start(s);
    let b = trim_end(a);
    lemma_trim_start_front(s);
    lemma_trim_end_back(a);
    if b.len() > 0 {
        assert(b[0] == a[0]);
    }
    assert(trim_start(b) == b);
    assert(trim_end(b) == b);
}

fn white_space(c: char) -> (b: bool)
    ensures
        b == is_white_space(c),
{
    let u = c as u32;
    (0x09 <= u && u <= 0x0d) || u == 0x20 || u == 0x85 || u == 0xa0 || u == 0x1680 || (0x2000 <= u
        && u <= 0x200a) || u == 0x2028 || u == 0x2029 || u == 0x202f || u == 0x205f || u == 0x3000
}

proof fn lemma_trim_start_skip(s: Seq<char>, k: int)
    requires
        0 <= k <= s.len(),
        forall|i: int| 0 <= i < k ==> is_white_space(#[trigger] s[i]),
    ensures
        trim_start(s) == trim_start(s.subrange(k, s.len() as int)),
    decreases k,
{
    if k > 0 {
        let t = s.drop_first();
        assert forall|i: int| 0 <= i < k - 1 implies is_white_space(#[trigger] t[i]) by {
            assert(t[i] == s[i + 1]);
        }
        lemma_trim_start_skip(t, k - 1);
        assert(t.subrange(k - 1, t.len() as int) =~= s.subrange(k, s.len() as int));
    } else {
        assert(s.subrange(0, s.len() as int) =~= s);
    }
}

proof fn lemma_trim_end_take(s: Seq<char>, k: int)
    requires
        0 <= k <= s.len(),
        forall|i: int| k <= i < s.len() ==> is_white_space(#[trigger] s[i]),
    ensures
        trim_end(s) == trim_end(s.subrange(0, k)),
    decreases s.len() - k,
{
    if k < s.len() {
        let t = s.drop_last();
        assert forall|i: int| k <= i < t.len() implies is_white_space(#[trigger] t[i]) by {
            assert(t[i] == s[i]);
        }
        lemma_trim_end_take(t, k);
        assert(t.subrange(0, k) =~= s.subrange(0, k));
    } else {
        assert(s.subrange(0, k) =~= s);
    }
}

/// The computing part of reading a line from the terminal: the line with
/// its leading and trailing white space (the line break among it) removed.
pub fn trim_line(line: &str) -> (trimmed_line: String)
    ensures
        trimmed_line@ == trimmed(line@),
{
    let n = line.unicode_len();
    let mut start: usize = 0;
    while start < n && white_space(line.get_char(start))
        invariant
            n == line@.len(),
            start <= n,
            forall|i: int| 0 <= i < start ==> is_white_space(#[trigger] line@[i]),
        decreases n - start,
    {
        start = start + 1;
    }
    let ghost rest = line@.subrange(start as int, n as int);
    proof {
        lemma_trim_start_skip(line@, start as int);
        if rest.len() > 0 {
            assert(rest[0] == line@[start as int]);
        }
        assert(trim_start(line@) == rest);
    }
    let mut end: usize = n;
    while end > start && white_space(line.get_char(end - 1))
        invariant
            n == line@.len(),
            start <= end <= n,
            rest == line@.subrange(start as int, n as int),
            forall|i: int| end - start <= i < rest.len() ==> is_white_space(#[trigger] rest[i]),
        decreases end - start,
    {
        assert(rest[end - 1 - start] == line@[end - 1]);
        end = end - 1;
    }
    proof {
        let kept = rest.subrange(0, end - start);
        lemma_trim_end_take(rest, end - start);
        if kept.len() > 0 {
            assert(kept.last() == line@[end - 1]);
        }
        assert(kept =~= line@.subrange(start as int, end as int));
    }
    line.substring_char(start, end).to_owned()
}

} // verus!

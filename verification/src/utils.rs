//! Identifiers and percent-encoding.

use vstd::prelude::*;
use vstd::string::*;
use vstd::utf8::*;

use crate::error::AppError;

verus! {

/// `std::string::FromUtf8Error`, the error of `String::from_utf8`.
#[verifier::external_type_specification]
#[verifier::external_body]
pub struct ExFromUtf8Error(std::string::FromUtf8Error);

/// Two string slices are equal exactly when they hold the same characters.
pub assume_specification[ <str as PartialEq>::eq ](a: &str, b: &str) -> (r: bool)
    ensures
        r == (a@ == b@),
;

/// `String::push` appends one character.
pub assume_specification[ String::push ](s: &mut String, ch: char)
    ensures
        final(s)@ == old(s)@.push(ch),
;

/// `String::from_utf8` succeeds exactly on well-formed UTF-8 and then yields
/// the text that the bytes encode.
pub assume_specification[ String::from_utf8 ](vec: Vec<u8>) -> (r: Result<
    String,
    std::string::FromUtf8Error,
>)
    ensures
        r is Ok <==> valid_utf8(vec@),
        r matches Ok(s) ==> s@ == decode_utf8(vec@),
;

/// Appends `bytes` to `out`.
pub fn append_bytes(out: &mut Vec<u8>, bytes: &[u8])
    ensures
        final(out)@ == old(out)@ + bytes@,
{
    let mut i: usize = 0;
    while i < bytes.len()
        invariant
            i <= bytes@.len(),
            out@ == old(out)@ + bytes@.take(i as int),
        decreases bytes@.len() - i,
    {
        out.push(bytes[i]);
        assert(bytes@.take(i + 1) =~= bytes@.take(i as int).push(bytes@[i as int]));
        i += 1;
    }
    assert(bytes@.take(i as int) =~= bytes@);
}

/// The characters of `text`, in order.
pub fn chars_of(text: &str) -> (chars: Vec<char>)
    ensures
        chars@ == text@,
{
    let mut chars: Vec<char> = Vec::new();
    for c in it: text.chars()
        invariant
            it.seq() == text@,
            chars@ == it.seq().take(it.index() as int),
    {
        chars.push(c);
    }
    chars
}

/// The first `n` characters of `text`, or all of it where it has fewer.
pub open spec fn leading(text: Seq<char>, n: int) -> Seq<char> {
    if text.len() <= n {
        text
    } else {
        text.take(n)
    }
}

/// The first `n` characters of `text`, or all of it where it has fewer.
pub fn leading_chars(text: &str, n: usize) -> (head: String)
    ensures
        head@ == leading(text@, n as int),
{
    let len = text.unicode_len();
    if len <= n {
        text.to_owned()
    } else {
        text.substring_char(0, n).to_owned()
    }
}

/// The characters a time-sortable identifier is written in: digits and
/// upper-case letters.
pub open spec fn is_uid_char(c: char) -> bool {
    ('0' <= c <= '9') || ('A' <= c <= 'Z')
}

/// The shape of a time-sortable identifier: 26 characters, all of them digits
/// or upper-case letters.
pub open spec fn is_uid_text(s: Seq<char>) -> bool {
    &&& s.len() == 26
    &&& forall|i: int| 0 <= i < s.len() ==> is_uid_char(#[trigger] s[i])
}

/// Generates a new identifier that sorts by creation time: a ULID, made by
/// `ulid::Ulid::new` and rendered by `Ulid::to_string`. The value depends on
/// the clock and on a random source; what is claimed is the shape of the
/// text, which the encoder always produces: 26 characters of Crockford's
/// base-32 alphabet.
#[verifier::external_body]
pub fn time_sortable_uid() -> (uid: String)
    ensures
        is_uid_text(uid@),
{
    ulid::Ulid::new().to_string()
}

/// Bytes that percent-encoding leaves as they are: ASCII letters, digits,
/// `-`, `.`, `_` and `~`.
pub open spec fn is_unreserved(b: u8) -> bool {
    ||| 0x41 <= b <= 0x5A
    ||| 0x61 <= b <= 0x7A
    ||| 0x30 <= b <= 0x39
    ||| b == 0x2D
    ||| b == 0x2E
    ||| b == 0x5F
    ||| b == 0x7E
}

/// The upper-case hexadecimal digit for a value below 16.
pub open spec fn hex_digit(n: int) -> char {
    if n < 10 {
        (0x30 + n) as char
    } else {
        (0x37 + n) as char
    }
}

/// How one byte is written in percent-encoding.
pub open spec fn encoded_byte(b: u8) -> Seq<char> {
    if is_unreserved(b) {
        seq![b as char]
    } else {
        seq!['%', hex_digit(b as int / 16), hex_digit(b as int % 16)]
    }
}

/// The percent-encoding of a byte string: the encodings of its bytes, in order.
pub open spec fn url_encoded(bytes: Seq<u8>) -> Seq<char>
    decreases bytes.len(),
{
    if bytes.len() == 0 {
        Seq::empty()
    } else {
        url_encoded(bytes.drop_last()) + encoded_byte(bytes.last())
    }
}

fn hex_digit_of(n: u8) -> (c: char)
    requires
        n < 16,
    ensures
        c == hex_digit(n as int),
{
    if n < 10 {
        (0x30u8 + n) as char
    } else {
        (0x37u8 + n) as char
    }
}

fn unreserved(b: u8) -> (r: bool)
    ensures
        r == is_unreserved(b),
{
    (0x41 <= b && b <= 0x5A) || (0x61 <= b && b <= 0x7A) || (0x30 <= b && b <= 0x39) || b == 0x2D
        || b == 0x2E || b == 0x5F || b == 0x7E
}

/// Percent-encodes the UTF-8 bytes of `input`.
pub fn url_encode(input: &str) -> (encoded: String)
    ensures
        encoded@ == url_encoded(input.spec_bytes()),
{
    let bytes = input.as_bytes();
    let mut encoded = String::new();
    let mut i: usize = 0;
    while i < bytes.len()
        invariant
            i <= bytes@.len(),
            encoded@ == url_encoded(bytes@.take(i as int)),
        decreases bytes.len() - i,
    {
        let byte: u8 = bytes[i];
        proof {
            assert(bytes@.take(i + 1).drop_last() =~= bytes@.take(i as int));
            assert(bytes@.take(i + 1).last() == byte);
        }
        if unreserved(byte) {
            encoded.push(byte as char);
        } else {
            encoded.push('%');
            encoded.push(hex_digit_of(byte / 16));
            encoded.push(hex_digit_of(byte % 16));
        }
        assert(encoded@ =~= url_encoded(bytes@.take(i as int)) + encoded_byte(byte));
        i += 1;
    }
    assert(bytes@.take(i as int) =~= bytes@);
    encoded
}

/// The value of one hexadecimal digit, in either case.
pub open spec fn hex_value(b: u8) -> Option<u8> {
    if 0x30 <= b <= 0x39 {
        Some((b - 0x30) as u8)
    } else if 0x41 <= b <= 0x46 {
        Some((b - 0x37) as u8)
    } else if 0x61 <= b <= 0x66 {
        Some((b - 0x57) as u8)
    } else {
        None
    }
}

/// The byte that the two characters after a `%` stand for: two hexadecimal
/// digits, or a plus sign followed by a single digit.
pub open spec fn hex_pair_value(first: u8, second: u8) -> Option<u8> {
    if first == 0x2B {
        hex_value(second)
    } else {
        match (hex_value(first), hex_value(second)) {
            (Some(high), Some(low)) => Some((high * 16 + low) as u8),
            _ => None,
        }
    }
}

/// `rest` with `head` in front of it, where `rest` exists.
pub open spec fn prepended(head: Seq<u8>, rest: Option<Seq<u8>>) -> Option<Seq<u8>> {
    match rest {
        Some(tail) => Some(head + tail),
        None => None,
    }
}

/// The bytes that a percent-encoded byte string stands for. `%` and the two
/// characters after it give one byte, `+` gives a space, and every other byte
/// stands for itself. `None` where a `%` is not followed by two characters
/// that name a byte.
pub open spec fn percent_decoded(bytes: Seq<u8>) -> Option<Seq<u8>>
    decreases bytes.len(),
{
    if bytes.len() == 0 {
        Some(Seq::empty())
    } else if bytes[0] == 0x25 {
        if bytes.len() < 3 {
            None
        } else {
            match hex_pair_value(bytes[1], bytes[2]) {
                Some(value) => prepended(seq![value], percent_decoded(bytes.skip(3))),
                None => None,
            }
        }
    } else if bytes[0] == 0x2B {
        prepended(seq![0x20u8], percent_decoded(bytes.skip(1)))
    } else {
        prepended(seq![bytes[0]], percent_decoded(bytes.skip(1)))
    }
}

/// The text that percent-encoded text stands for: its UTF-8 bytes are
/// decoded as [`percent_decoded`] says and read back as UTF-8. `None` where
/// a `%` is malformed or the decoded bytes are not well-formed UTF-8.
pub open spec fn url_decoded(text: Seq<char>) -> Option<Seq<char>> {
    match percent_decoded(encode_utf8(text)) {
        Some(bytes) => if valid_utf8(bytes) {
            Some(decode_utf8(bytes))
        } else {
            None
        },
        None => None,
    }
}

/// The bytes of a text that holds ASCII characters only.
pub open spec fn ascii_bytes(chars: Seq<char>) -> Seq<u8> {
    Seq::new(chars.len(), |i: int| chars[i] as u8)
}

/// The encoding of one byte is ASCII text, and decodes to that byte.
proof fn lemma_encoded_byte_decodes(b: u8)
    ensures
        is_ascii_chars(encoded_byte(b)),
        percent_decoded(ascii_bytes(encoded_byte(b))) == Some(seq![b]),
{
    let text = encoded_byte(b);
    let bytes = ascii_bytes(text);
    if is_unreserved(b) {
        assert(text[0] == b as char);
        assert(bytes[0] == b);
        assert(bytes.skip(1) =~= Seq::empty());
        assert(percent_decoded(bytes.skip(1)) == Some(Seq::<u8>::empty()));
        assert(seq![b] + Seq::<u8>::empty() =~= seq![b]);
    } else {
        let high = b as int / 16;
        let low = b as int % 16;
        assert(0 <= high < 16 && 0 <= low < 16);
        assert(text[0] == '%' && text[1] == hex_digit(high) && text[2] == hex_digit(low));
        assert(bytes[0] == 0x25);
        assert(hex_value(bytes[1]) == Some(high as u8));
        assert(hex_value(bytes[2]) == Some(low as u8));
        assert(bytes[1] != 0x2B);
        assert(hex_pair_value(bytes[1], bytes[2]) == Some(b));
        assert(bytes.skip(3) =~= Seq::empty());
        assert(percent_decoded(bytes.skip(3)) == Some(Seq::<u8>::empty()));
        assert(seq![b] + Seq::<u8>::empty() =~= seq![b]);
    }
}

/// Bytes that decode on their own decode the same way in front of others.
proof fn lemma_percent_decoded_concat(x: Seq<u8>, y: Seq<u8>)
    requires
        percent_decoded(x) is Some,
    ensures
        percent_decoded(x + y) == prepended(percent_decoded(x)->0, percent_decoded(y)),
    decreases x.len(),
{
    let whole = x + y;
    if x.len() == 0 {
        assert(whole =~= y);
        if percent_decoded(y) is Some {
            assert(Seq::<u8>::empty() + percent_decoded(y)->0 =~= percent_decoded(y)->0);
        }
    } else {
        let step: int = if x[0] == 0x25 {
            3
        } else {
            1
        };
        assert(x.len() >= step);
        assert(whole[0] == x[0]);
        if step == 3 {
            assert(whole[1] == x[1] && whole[2] == x[2]);
        }
        assert(whole.skip(step) =~= x.skip(step) + y);
        lemma_percent_decoded_concat(x.skip(step), y);
        let head = if x[0] == 0x25 {
            seq![hex_pair_value(x[1], x[2])->0]
        } else if x[0] == 0x2B {
            seq![0x20u8]
        } else {
            seq![x[0]]
        };
        let rest = percent_decoded(x.skip(step))->0;
        if percent_decoded(y) is Some {
            assert(head + (rest + percent_decoded(y)->0) =~= (head + rest) + percent_decoded(
                y,
            )->0);
        }
    }
}

/// The encoding of a byte string is ASCII text, and decodes to the byte
/// string.
proof fn lemma_url_encoded_decodes(bytes: Seq<u8>)
    ensures
        is_ascii_chars(url_encoded(bytes)),
        percent_decoded(ascii_bytes(url_encoded(bytes))) == Some(bytes),
    decreases bytes.len(),
{
    if bytes.len() == 0 {
        assert(ascii_bytes(url_encoded(bytes)) =~= Seq::empty());
    } else {
        let front = bytes.drop_last();
        let last = bytes.last();
        lemma_url_encoded_decodes(front);
        lemma_encoded_byte_decodes(last);
        let a = url_encoded(front);
        let b = encoded_byte(last);
        assert(ascii_bytes(a + b) =~= ascii_bytes(a) + ascii_bytes(b));
        lemma_percent_decoded_concat(ascii_bytes(a), ascii_bytes(b));
        assert(front + seq![last] =~= bytes);
        assert forall|i: int| 0 <= i < (a + b).len() implies '\0' <= #[trigger] (a + b)[i]
            <= '\u{7f}' by {
            if i < a.len() {
                assert((a + b)[i] == a[i]);
            } else {
                assert((a + b)[i] == b[i - a.len()]);
            }
        }
    }
}

/// Decoding undoes encoding: the percent-encoding of a text's UTF-8 bytes
/// decodes to the text.
pub proof fn lemma_url_decode_undoes_url_encode(text: Seq<char>)
    ensures
        url_decoded(url_encoded(encode_utf8(text))) == Some(text),
{
    let bytes = encode_utf8(text);
    let encoded = url_encoded(bytes);
    lemma_url_encoded_decodes(bytes);
    is_ascii_chars_encode_utf8(encoded);
    assert(encode_utf8(encoded) =~= ascii_bytes(encoded));
    encode_utf8_valid_utf8(text);
    encode_utf8_decode_utf8(text);
}

fn hex_value_of(b: u8) -> (r: Option<u8>)
    ensures
        r == hex_value(b),
{
    if 0x30 <= b && b <= 0x39 {
        Some(b - 0x30)
    } else if 0x41 <= b && b <= 0x46 {
        Some(b - 0x37)
    } else if 0x61 <= b && b <= 0x66 {
        Some(b - 0x57)
    } else {
        None
    }
}

fn hex_pair_value_of(first: u8, second: u8) -> (r: Option<u8>)
    ensures
        r == hex_pair_value(first, second),
{
    if first == 0x2B {
        hex_value_of(second)
    } else {
        match (hex_value_of(first), hex_value_of(second)) {
            (Some(high), Some(low)) => Some(high * 16 + low),
            _ => None,
        }
    }
}

/// Decodes percent-encoded text.
///
/// Succeeds exactly when every `%` is followed by two characters that name a
/// byte and the decoded bytes are well-formed UTF-8; the result is then the
/// text those bytes encode. Every failure is a `BadRequest`.
pub fn url_decode(input: &str) -> (decoded: Result<String, AppError>)
    ensures
        decoded is Ok <==> url_decoded(input@) is Some,
        decoded matches Ok(text) ==> Some(text@) == url_decoded(input@),
        decoded matches Err(e) ==> e is BadRequest,
{
    let bytes = input.as_bytes();
    let mut out: Vec<u8> = Vec::new();
    let mut i: usize = 0;
    proof {
        assert(bytes@.skip(0) =~= bytes@);
        let all = percent_decoded(bytes@);
        if all is Some {
            assert(out@ + all->0 =~= all->0);
        }
    }
    while i < bytes.len()
        invariant
            i <= bytes@.len(),
            bytes@ == input.spec_bytes(),
            percent_decoded(bytes@) == prepended(out@, percent_decoded(bytes@.skip(i as int))),
        decreases bytes.len() - i,
    {
        let byte: u8 = bytes[i];
        let ghost rest = bytes@.skip(i as int);
        let ghost before = out@;
        assert(rest.len() == bytes@.len() - i && rest[0] == byte);
        if byte == 0x25 {
            if bytes.len() - i < 2 {
                return Err(
                    AppError::BadRequest(
                        "Invalid percent encoding: missing first hex digit".to_owned(),
                    ),
                );
            }
            if bytes.len() - i < 3 {
                return Err(
                    AppError::BadRequest(
                        "Invalid percent encoding: missing second hex digit".to_owned(),
                    ),
                );
            }
            assert(rest[1] == bytes@[i + 1] && rest[2] == bytes@[i + 2]);
            match hex_pair_value_of(bytes[i + 1], bytes[i + 2]) {
                Some(value) => {
                    out.push(value);
                    proof {
                        assert(rest.skip(3) =~= bytes@.skip(i + 3));
                        let tail = percent_decoded(bytes@.skip(i + 3));
                        if tail is Some {
                            assert(before + (seq![value] + tail->0) =~= out@ + tail->0);
                        }
                    }
                    i += 3;
                },
                None => {
                    return Err(
                        AppError::BadRequest("Parse int error: Invalid hex sequence".to_owned()),
                    );
                },
            }
        } else {
            let plain: u8 = if byte == 0x2B {
                0x20
            } else {
                byte
            };
            out.push(plain);
            proof {
                assert(rest.skip(1) =~= bytes@.skip(i + 1));
                let tail = percent_decoded(bytes@.skip(i + 1));
                if tail is Some {
                    assert(before + (seq![plain] + tail->0) =~= out@ + tail->0);
                }
            }
            i += 1;
        }
    }
    proof {
        assert(bytes@.skip(i as int).len() == 0);
        assert(out@ + Seq::<u8>::empty() =~= out@);
    }
    match String::from_utf8(out) {
        Ok(text) => Ok(text),
        Err(_) => Err(AppError::BadRequest("Invalid UTF-8 sequence".to_owned())),
    }
}

} // verus!

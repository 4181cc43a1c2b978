//! Percent-encoded text, as `file` URLs have it.

use crate::text::from_utf8;
use vstd::prelude::*;
use vstd::utf8;

verus! {

/// The value of a hexadecimal digit.
pub open spec fn hex_value(b: u8) -> Option<u8> {
    if 48 <= b <= 57 {
        Some((b - 48) as u8)
    } else if 65 <= b <= 70 {
        Some((b - 55) as u8)
    } else if 97 <= b <= 102 {
        Some((b - 87) as u8)
    } else {
        None
    }
}

/// The byte that the two characters after a percent sign denote: two hexadecimal digits, or a
/// plus sign and one.
pub open spec fn hex_pair(high: u8, low: u8) -> Option<u8> {
    match hex_value(low) {
        Some(l) => match hex_value(high) {
            Some(h) => Some((h * 16 + l) as u8),
            None => if high == 43 {
                Some(l)
            } else {
                None
            },
        },
        None => None,
    }
}

/// The bytes that percent-encoded bytes denote: `%` (37) and the two bytes after it make one,
/// every other byte stands for itself.
pub open spec fn decoded_bytes(b: Seq<u8>) -> Option<Seq<u8>>
    decreases b.len(),
{
    if b.len() == 0 {
        Some(Seq::empty())
    } else if b[0] != 37 {
        match decoded_bytes(b.skip(1)) {
            Some(rest) => Some(seq![b[0]] + rest),
            None => None,
        }
    } else if b.len() < 3 {
        None
    } else {
        match (hex_pair(b[1], b[2]), decoded_bytes(b.skip(3))) {
            (Some(byte), Some(rest)) => Some(seq![byte] + rest),
            _ => None,
        }
    }
}

/// The text that a percent-encoded text denotes, if its bytes are UTF-8.
pub open spec fn decoded_text(s: Seq<char>) -> Option<Seq<char>> {
    match decoded_bytes(utf8::encode_utf8(s)) {
        Some(bytes) => if utf8::valid_utf8(bytes) {
            Some(utf8::decode_utf8(bytes))
        } else {
            None
        },
        None => None,
    }
}

fn read_hex(b: u8) -> (r: Option<u8>)
    ensures
        r == hex_value(b),
        r matches Some(v) ==> v < 16,
{
    if 48 <= b && b <= 57 {
        Some(b - 48)
    } else if 65 <= b && b <= 70 {
        Some(b - 55)
    } else if 97 <= b && b <= 102 {
        Some(b - 87)
    } else {
        None
    }
}

fn read_hex_pair(high: u8, low: u8) -> (r: Option<u8>)
    ensures
        r == hex_pair(high, low),
{
    match read_hex(low) {
        Some(l) => match read_hex(high) {
            Some(h) => Some(h * 16 + l),
            None => if high == 43 {
                Some(l)
            } else {
                None
            },
        },
        None => None,
    }
}

/// What `decoded_bytes` makes of the whole, once it has made `done` of the part before `rest`.
spec fn with_rest(done: Seq<u8>, rest: Seq<u8>) -> Option<Seq<u8>> {
    match decoded_bytes(rest) {
        Some(bytes) => Some(done + bytes),
        None => None,
    }
}

/// Decodes a percent-encoded text.
pub fn percent_decode(input: &str) -> (r: Option<String>)
    ensures
        match r {
            Some(text) => decoded_text(input@) == Some(text@),
            None => decoded_text(input@) is None,
        },
{
    let bytes = input.as_bytes();
    let n: usize = bytes.len();
    let mut decoded: Vec<u8> = Vec::new();
    let mut i: usize = 0;
    proof {
        assert(bytes@.skip(0) =~= bytes@);
        if let Some(all) = decoded_bytes(bytes@) {
            assert(decoded@ + all =~= all);
        }
    }
    while i < n
        invariant
            n == bytes@.len(),
            i <= n,
            bytes@ == utf8::encode_utf8(input@),
            with_rest(decoded@, bytes@.skip(i as int)) == decoded_bytes(bytes@),
        decreases n - i,
    {
        let ghost done = decoded@;
        let ghost rest = bytes@.skip(i as int);
        if bytes[i] == 37 {
            if n - i < 3 {
                return None;
            }
            match read_hex_pair(bytes[i + 1], bytes[i + 2]) {
                Some(byte) => decoded.push(byte),
                None => return None,
            }
            i = i + 3;
            proof {
                assert(rest.skip(3) =~= bytes@.skip(i as int));
            }
        } else {
            decoded.push(bytes[i]);
            i = i + 1;
            proof {
                assert(rest.skip(1) =~= bytes@.skip(i as int));
            }
        }
        proof {
            if let Some(tail) = decoded_bytes(bytes@.skip(i as int)) {
                assert(done + (seq![decoded@.last()] + tail) =~= decoded@ + tail);
            }
        }
    }
    proof {
        assert(decoded@ + Seq::<u8>::empty() =~= decoded@);
    }
    from_utf8(decoded)
}

/// The digit of a value below sixteen.
pub open spec fn hex_digit(v: u8) -> u8 {
    if v < 10 {
        (v + 48) as u8
    } else {
        (v + 55) as u8
    }
}

/// Every byte as a percent sign and two hexadecimal digits.
pub open spec fn encoded_bytes(b: Seq<u8>) -> Seq<u8>
    decreases b.len(),
{
    if b.len() == 0 {
        Seq::empty()
    } else {
        seq![37u8, hex_digit(b[0] / 16), hex_digit(b[0] % 16)] + encoded_bytes(b.skip(1))
    }
}

/// Decoding gives back what was encoded, whatever the bytes.
pub proof fn law_decoding_undoes_encoding(b: Seq<u8>)
    ensures
        decoded_bytes(encoded_bytes(b)) == Some(b),
    decreases b.len(),
{
    if b.len() == 0 {
        assert(b =~= Seq::<u8>::empty());
    } else {
        law_decoding_undoes_encoding(b.skip(1));
        let e = encoded_bytes(b);
        assert(e.skip(3) =~= encoded_bytes(b.skip(1)));
        assert(seq![b[0]] + b.skip(1) =~= b);
    }
}

proof fn lemma_plain_bytes(b: Seq<u8>)
    requires
        !b.contains(37),
    ensures
        decoded_bytes(b) == Some(b),
    decreases b.len(),
{
    if b.len() == 0 {
        assert(b =~= Seq::<u8>::empty());
    } else {
        assert(b.contains(b[0]));
        assert forall|i: int| 0 <= i < b.skip(1).len() implies b.skip(1)[i] != 37 by {
            assert(b.contains(b[i + 1]));
        }
        lemma_plain_bytes(b.skip(1));
        assert(seq![b[0]] + b.skip(1) =~= b);
    }
}

proof fn lemma_percent_byte(c: u32)
    by (bit_vector)
    ensures
        utf8::has_width_1_encoding(c) && c != 37 ==> utf8::leading_byte_width_1(c) != 37,
        utf8::leading_byte_width_2(c) != 37,
        utf8::leading_byte_width_3(c) != 37,
        utf8::leading_byte_width_4(c) != 37,
        utf8::last_continuation_byte(c) != 37,
        utf8::second_last_continuation_byte(c) != 37,
        utf8::third_last_continuation_byte(c) != 37,
{
}

proof fn lemma_no_percent(s: Seq<char>)
    requires
        !s.contains('%'),
    ensures
        !utf8::encode_utf8(s).contains(37),
    decreases s.len(),
{
    if s.len() > 0 {
        assert(s.contains(s[0]));
        assert forall|i: int| 0 <= i < s.drop_first().len() implies s.drop_first()[i] != '%' by {
            assert(s.contains(s[i + 1]));
        }
        lemma_no_percent(s.drop_first());
        utf8::char_is_scalar(s[0]);
        utf8::char_u32_cast(s[0], s[0] as u32);
        lemma_percent_byte(s[0] as u32);
        assert(s[0] as u32 != 37);
        let first = utf8::encode_scalar(s[0] as u32);
        let rest = utf8::encode_utf8(s.drop_first());
        assert(!first.contains(37));
        assert forall|i: int| 0 <= i < (first + rest).len() implies (first + rest)[i] != 37 by {
            if i < first.len() {
                assert(first.contains(first[i]));
            } else {
                assert(rest.contains(rest[i - first.len()]));
            }
        }
    }
}

/// A text without a percent sign stands for itself.
pub proof fn law_plain_text_stands_for_itself(s: Seq<char>)
    requires
        !s.contains('%'),
    ensures
        decoded_text(s) == Some(s),
{
    lemma_no_percent(s);
    lemma_plain_bytes(utf8::encode_utf8(s));
    utf8::encode_utf8_valid_utf8(s);
    utf8::encode_utf8_decode_utf8(s);
}

/// The percent-encoded form of a text.
pub open spec fn encoded_text(s: Seq<char>) -> Seq<char> {
    let bytes = encoded_bytes(utf8::encode_utf8(s));
    Seq::new(bytes.len(), |i: int| bytes[i] as char)
}

proof fn lemma_encoded_is_ascii(b: Seq<u8>)
    ensures
        forall|i: int| 0 <= i < encoded_bytes(b).len() ==> #[trigger] encoded_bytes(b)[i] < 128,
    decreases b.len(),
{
    if b.len() > 0 {
        lemma_encoded_is_ascii(b.skip(1));
        let head = seq![37u8, hex_digit(b[0] / 16), hex_digit(b[0] % 16)];
        let rest = encoded_bytes(b.skip(1));
        assert forall|i: int| 0 <= i < (head + rest).len() implies #[trigger] (head + rest)[i] < 128 by {
            if i >= 3 {
                assert(rest[i - 3] < 128);
            }
        }
    }
}

/// Decoding the percent-encoded form of a text gives the text back.
pub proof fn law_encoded_text_reads_back(s: Seq<char>)
    ensures
        decoded_text(encoded_text(s)) == Some(s),
{
    let bytes = encoded_bytes(utf8::encode_utf8(s));
    let text = encoded_text(s);
    lemma_encoded_is_ascii(utf8::encode_utf8(s));
    assert(utf8::is_ascii_chars(text)) by {
        assert forall|i: int| 0 <= i < text.len() implies '\0' <= #[trigger] text[i] <= '\u{7f}' by {
            assert(bytes[i] < 128);
        }
    }
    utf8::is_ascii_chars_encode_utf8(text);
    assert(utf8::encode_utf8(text) =~= bytes);
    law_decoding_undoes_encoding(utf8::encode_utf8(s));
    utf8::encode_utf8_valid_utf8(s);
    utf8::encode_utf8_decode_utf8(s);
}

/// `e` stands for the bytes `b`: each as itself, unless it is a percent sign, or as a percent sign
/// and two hexadecimal digits, in capitals or not.
pub open spec fn encodes(e: Seq<u8>, b: Seq<u8>) -> bool
    decreases b.len(),
{
    if b.len() == 0 {
        e.len() == 0
    } else {
        ||| e.len() >= 1 && e[0] == b[0] && b[0] != 37 && encodes(e.skip(1), b.skip(1))
        ||| e.len() >= 3 && e[0] == 37 && hex_value(e[1]) == Some((b[0] / 16) as u8) && hex_value(e[2])
            == Some((b[0] % 16) as u8) && encodes(e.skip(3), b.skip(1))
    }
}

proof fn lemma_encoding_decodes(e: Seq<u8>, b: Seq<u8>)
    requires
        encodes(e, b),
    ensures
        decoded_bytes(e) == Some(b),
    decreases b.len(),
{
    if b.len() == 0 {
        assert(b =~= Seq::<u8>::empty());
    } else {
        assert(seq![b[0]] + b.skip(1) =~= b);
        if e[0] != 37 {
            lemma_encoding_decodes(e.skip(1), b.skip(1));
        } else {
            lemma_encoding_decodes(e.skip(3), b.skip(1));
        }
    }
}

/// Decoding gives back any text of which some bytes are encoded and the others stand for
/// themselves, as long as its percent signs are among those that are encoded.
pub proof fn law_any_encoding_reads_back(encoded: Seq<char>, s: Seq<char>)
    requires
        encodes(utf8::encode_utf8(encoded), utf8::encode_utf8(s)),
    ensures
        decoded_text(encoded) == Some(s),
{
    lemma_encoding_decodes(utf8::encode_utf8(encoded), utf8::encode_utf8(s));
    utf8::encode_utf8_valid_utf8(s);
    utf8::encode_utf8_decode_utf8(s);
}

/// The digits of a value below sixteen are `0` to `9` and `a` to `f`, in capitals or not, and no
/// other byte is a digit.
pub proof fn law_hexadecimal_digits(v: u8, b: u8)
    ensures
        v < 10 ==> hex_value((v + 48) as u8) == Some(v),
        10 <= v < 16 ==> hex_value((v + 87) as u8) == Some(v) && hex_value((v + 55) as u8) == Some(v),
        !(48 <= b <= 57 || 65 <= b <= 70 || 97 <= b <= 102) ==> hex_value(b) is None,
{
}

/// A percent sign without two bytes behind it, or with a byte there that is no digit, makes the
/// whole unreadable, whatever precedes and follows it; but a plus sign may stand in place of a
/// first digit, and counts for nothing.
pub proof fn law_broken_escape_is_refused(e: Seq<u8>, b: Seq<u8>, high: u8, low: u8, rest: Seq<u8>)
    requires
        encodes(e, b),
    ensures
        decoded_bytes(e + seq![37u8]) is None,
        decoded_bytes(e + seq![37u8, high]) is None,
        hex_value(low) is None || hex_value(high) is None && high != 43 ==> decoded_bytes(
            e + seq![37u8, high, low] + rest,
        ) is None,
        hex_value(low) matches Some(l) ==> decoded_bytes(e + seq![37u8, 43u8, low] + rest) == (
        match decoded_bytes(rest) {
            Some(tail) => Some(b + seq![l] + tail),
            None => None,
        }),
    decreases b.len(),
{
    if b.len() == 0 {
        assert(e + seq![37u8] =~= seq![37u8]);
        assert(e + seq![37u8, high] =~= seq![37u8, high]);
        let whole = e + seq![37u8, high, low] + rest;
        assert(whole[0] == 37 && whole[1] == high && whole[2] == low);
        let signed = e + seq![37u8, 43u8, low] + rest;
        assert(signed[0] == 37 && signed[1] == 43 && signed[2] == low);
        assert(signed.skip(3) =~= rest);
        if let Some(l) = hex_value(low) {
            if let Some(tail) = decoded_bytes(rest) {
                assert(b + seq![l] + tail =~= seq![l] + tail);
            }
        }
    } else {
        let k: int = if e[0] == 37 {
            3
        } else {
            1
        };
        law_broken_escape_is_refused(e.skip(k), b.skip(1), high, low, rest);
        assert((e + seq![37u8]).skip(k) =~= e.skip(k) + seq![37u8]);
        assert((e + seq![37u8, high]).skip(k) =~= e.skip(k) + seq![37u8, high]);
        assert((e + seq![37u8, high, low] + rest).skip(k) =~= e.skip(k) + seq![37u8, high, low] + rest);
        assert((e + seq![37u8, 43u8, low] + rest).skip(k) =~= e.skip(k) + seq![37u8, 43u8, low] + rest);
        if let Some(l) = hex_value(low) {
            if let Some(tail) = decoded_bytes(rest) {
                assert(b + seq![l] + tail =~= seq![b[0]] + (b.skip(1) + seq![l] + tail));
            }
        }
    }
}

/// Bytes that do not make UTF-8 give no text.
pub proof fn law_only_utf8_is_text(encoded: Seq<char>, b: Seq<u8>)
    requires
        encodes(utf8::encode_utf8(encoded), b),
    ensures
        decoded_text(encoded) is Some <==> utf8::valid_utf8(b),
        utf8::valid_utf8(b) ==> decoded_text(encoded) == Some(utf8::decode_utf8(b)),
{
    lemma_encoding_decodes(utf8::encode_utf8(encoded), b);
}

} // verus!

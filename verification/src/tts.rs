//! Accent folding, URL encoding and the decisions behind a text-to-speech request.

use vstd::prelude::*;

use crate::digest::{md5_digest, md5_of};
use crate::text::{
    ascii_lower, ascii_lower_char, chars_of, contains_seq, contains_str, hex_lower,
    lemma_trim_by_range, lemma_trim_end_take, lemma_trim_start_skip, push_char, string_from_chars, to_hex_lower, trim,
    trim_by, trim_end_by, trim_start_by, trim_str,
};
use crate::unicode::{alphanumeric, is_alphanumeric, to_lowercase, unicode_lowercase};
use vstd::string::StringExecFns;
use vstd::utf8::{
    decode_utf8, encode_scalar, encode_utf8, has_width_1_encoding, is_ascii_chars, is_char_boundary,
    last_continuation_byte,
};

verus! {

/// The character that accent folding maps `c` to: Vietnamese vowels and `đ`,
/// with or without diacritics and in either case, become the plain lower-case
/// letter; every other character is kept.
pub open spec fn fold_accent(c: char) -> char {
    match c {
        'a' | 'á' | 'à' | 'ả' | 'ã' | 'ạ' | 'ă' | 'ắ' | 'ằ' | 'ẳ' | 'ẵ' | 'ặ' | 'â' | 'ấ' | 'ầ' | 'ẩ' | 'ẫ' | 'ậ' => 'a',
        'A' | 'Á' | 'À' | 'Ả' | 'Ã' | 'Ạ' | 'Ă' | 'Ắ' | 'Ằ' | 'Ẳ' | 'Ẵ' | 'Ặ' | 'Â' | 'Ấ' | 'Ầ' | 'Ẩ' | 'Ẫ' | 'Ậ' => 'a',
        'd' | 'đ' => 'd',
        'D' | 'Đ' => 'd',
        'e' | 'é' | 'è' | 'ẻ' | 'ẽ' | 'ẹ' | 'ê' | 'ế' | 'ề' | 'ể' | 'ễ' | 'ệ' => 'e',
        'E' | 'É' | 'È' | 'Ẻ' | 'Ẽ' | 'Ẹ' | 'Ê' | 'Ế' | 'Ề' | 'Ể' | 'Ễ' | 'Ệ' => 'e',
        'i' | 'í' | 'ì' | 'ỉ' | 'ĩ' | 'ị' => 'i',
        'I' | 'Í' | 'Ì' | 'Ỉ' | 'Ĩ' | 'Ị' => 'i',
        'o' | 'ó' | 'ò' | 'ỏ' | 'õ' | 'ọ' | 'ô' | 'ố' | 'ồ' | 'ổ' | 'ỗ' | 'ộ' | 'ơ' | 'ớ' | 'ờ' | 'ở' | 'ỡ' | 'ợ' => 'o',
        'O' | 'Ó' | 'Ò' | 'Ỏ' | 'Õ' | 'Ọ' | 'Ô' | 'Ố' | 'Ồ' | 'Ổ' | 'Ỗ' | 'Ộ' | 'Ơ' | 'Ớ' | 'Ờ' | 'Ở' | 'Ỡ' | 'Ợ' => 'o',
        'u' | 'ú' | 'ù' | 'ủ' | 'ũ' | 'ụ' | 'ư' | 'ứ' | 'ừ' | 'ử' | 'ữ' | 'ự' => 'u',
        'U' | 'Ú' | 'Ù' | 'Ủ' | 'Ũ' | 'Ụ' | 'Ư' | 'Ứ' | 'Ừ' | 'Ử' | 'Ữ' | 'Ự' => 'u',
        'y' | 'ý' | 'ỳ' | 'ỷ' | 'ỹ' | 'ỵ' => 'y',
        'Y' | 'Ý' | 'Ỳ' | 'Ỷ' | 'Ỹ' | 'Ỵ' => 'y',
        other => other,
    }
}

/// The folded form of a whole character sequence.
pub open spec fn fold_accents(s: Seq<char>) -> Seq<char> {
    s.map_values(|c: char| fold_accent(c))
}

/// Executable form of [`fold_accent`].
pub fn fold_accent_char(c: char) -> (r: char)
    ensures
        r == fold_accent(c),
{
    match c {
        'a' | 'á' | 'à' | 'ả' | 'ã' | 'ạ' | 'ă' | 'ắ' | 'ằ' | 'ẳ' | 'ẵ' | 'ặ' | 'â' | 'ấ' | 'ầ' | 'ẩ' | 'ẫ' | 'ậ' => 'a',
        'A' | 'Á' | 'À' | 'Ả' | 'Ã' | 'Ạ' | 'Ă' | 'Ắ' | 'Ằ' | 'Ẳ' | 'Ẵ' | 'Ặ' | 'Â' | 'Ấ' | 'Ầ' | 'Ẩ' | 'Ẫ' | 'Ậ' => 'a',
        'd' | 'đ' => 'd',
        'D' | 'Đ' => 'd',
        'e' | 'é' | 'è' | 'ẻ' | 'ẽ' | 'ẹ' | 'ê' | 'ế' | 'ề' | 'ể' | 'ễ' | 'ệ' => 'e',
        'E' | 'É' | 'È' | 'Ẻ' | 'Ẽ' | 'Ẹ' | 'Ê' | 'Ế' | 'Ề' | 'Ể' | 'Ễ' | 'Ệ' => 'e',
        'i' | 'í' | 'ì' | 'ỉ' | 'ĩ' | 'ị' => 'i',
        'I' | 'Í' | 'Ì' | 'Ỉ' | 'Ĩ' | 'Ị' => 'i',
        'o' | 'ó' | 'ò' | 'ỏ' | 'õ' | 'ọ' | 'ô' | 'ố' | 'ồ' | 'ổ' | 'ỗ' | 'ộ' | 'ơ' | 'ớ' | 'ờ' | 'ở' | 'ỡ' | 'ợ' => 'o',
        'O' | 'Ó' | 'Ò' | 'Ỏ' | 'Õ' | 'Ọ' | 'Ô' | 'Ố' | 'Ồ' | 'Ổ' | 'Ỗ' | 'Ộ' | 'Ơ' | 'Ớ' | 'Ờ' | 'Ở' | 'Ỡ' | 'Ợ' => 'o',
        'u' | 'ú' | 'ù' | 'ủ' | 'ũ' | 'ụ' | 'ư' | 'ứ' | 'ừ' | 'ử' | 'ữ' | 'ự' => 'u',
        'U' | 'Ú' | 'Ù' | 'Ủ' | 'Ũ' | 'Ụ' | 'Ư' | 'Ứ' | 'Ừ' | 'Ử' | 'Ữ' | 'Ự' => 'u',
        'y' | 'ý' | 'ỳ' | 'ỷ' | 'ỹ' | 'ỵ' => 'y',
        'Y' | 'Ý' | 'Ỳ' | 'Ỷ' | 'Ỹ' | 'Ỵ' => 'y',
        other => other,
    }
}

/// Replaces every Vietnamese vowel (and `đ`) by its plain lower-case letter.
pub fn remove_accents(input: &str) -> (output: String)
    ensures
        output@ == fold_accents(input@),
{
    let mut output = String::new();
    for c in it: input.chars()
        invariant
            it.seq() == input@,
            output@ == fold_accents(it.seq().take(it.index() as int)),
    {
        let mapped = fold_accent_char(c);
        proof {
            assert(it.seq().take(it.index() + 1) =~= it.seq().take(it.index() as int).push(c));
        }
        push_char(&mut output, mapped);
        assert(output@ =~= fold_accents(it.seq().take(it.index() + 1)));
    }
    output
}


/// Folding accents twice gives the same text as folding once.
pub proof fn lemma_fold_accents_idempotent(s: Seq<char>)
    ensures
        fold_accents(fold_accents(s)) == fold_accents(s),
{
    assert forall|i: int| 0 <= i < s.len() implies fold_accent(fold_accent(s[i])) == fold_accent(
        s[i],
    ) by {}
    assert(fold_accents(fold_accents(s)) =~= fold_accents(s));
}

/// Whether `c` is the letter `base` of Vietnamese writing, in either case,
/// plain or with any of its diacritics (tone marks, breve, circumflex, horn,
/// or the bar of `đ`). `base` is one of `a`, `d`, `e`, `i`, `o`, `u`, `y`.
pub open spec fn vietnamese_form(c: char, base: char) -> bool {
    match base {
        'a' => c == 'a' || c == 'á' || c == 'à' || c == 'ả' || c == 'ã' || c == 'ạ' || c == 'ă' || c == 'ắ' || c == 'ằ' || c == 'ẳ' || c == 'ẵ' || c == 'ặ' || c == 'â' || c == 'ấ' || c == 'ầ' || c == 'ẩ' || c == 'ẫ' || c == 'ậ' || c == 'A' || c == 'Á' || c == 'À' || c == 'Ả' || c == 'Ã' || c == 'Ạ' || c == 'Ă' || c == 'Ắ' || c == 'Ằ' || c == 'Ẳ' || c == 'Ẵ' || c == 'Ặ' || c == 'Â' || c == 'Ấ' || c == 'Ầ' || c == 'Ẩ' || c == 'Ẫ' || c == 'Ậ',
        'd' => c == 'd' || c == 'đ' || c == 'D' || c == 'Đ',
        'e' => c == 'e' || c == 'é' || c == 'è' || c == 'ẻ' || c == 'ẽ' || c == 'ẹ' || c == 'ê' || c == 'ế' || c == 'ề' || c == 'ể' || c == 'ễ' || c == 'ệ' || c == 'E' || c == 'É' || c == 'È' || c == 'Ẻ' || c == 'Ẽ' || c == 'Ẹ' || c == 'Ê' || c == 'Ế' || c == 'Ề' || c == 'Ể' || c == 'Ễ' || c == 'Ệ',
        'i' => c == 'i' || c == 'í' || c == 'ì' || c == 'ỉ' || c == 'ĩ' || c == 'ị' || c == 'I' || c == 'Í' || c == 'Ì' || c == 'Ỉ' || c == 'Ĩ' || c == 'Ị',
        'o' => c == 'o' || c == 'ó' || c == 'ò' || c == 'ỏ' || c == 'õ' || c == 'ọ' || c == 'ô' || c == 'ố' || c == 'ồ' || c == 'ổ' || c == 'ỗ' || c == 'ộ' || c == 'ơ' || c == 'ớ' || c == 'ờ' || c == 'ở' || c == 'ỡ' || c == 'ợ' || c == 'O' || c == 'Ó' || c == 'Ò' || c == 'Ỏ' || c == 'Õ' || c == 'Ọ' || c == 'Ô' || c == 'Ố' || c == 'Ồ' || c == 'Ổ' || c == 'Ỗ' || c == 'Ộ' || c == 'Ơ' || c == 'Ớ' || c == 'Ờ' || c == 'Ở' || c == 'Ỡ' || c == 'Ợ',
        'u' => c == 'u' || c == 'ú' || c == 'ù' || c == 'ủ' || c == 'ũ' || c == 'ụ' || c == 'ư' || c == 'ứ' || c == 'ừ' || c == 'ử' || c == 'ữ' || c == 'ự' || c == 'U' || c == 'Ú' || c == 'Ù' || c == 'Ủ' || c == 'Ũ' || c == 'Ụ' || c == 'Ư' || c == 'Ứ' || c == 'Ừ' || c == 'Ử' || c == 'Ữ' || c == 'Ự',
        'y' => c == 'y' || c == 'ý' || c == 'ỳ' || c == 'ỷ' || c == 'ỹ' || c == 'ỵ' || c == 'Y' || c == 'Ý' || c == 'Ỳ' || c == 'Ỷ' || c == 'Ỹ' || c == 'Ỵ',
        _ => false,
    }
}

/// Accent folding sends every written form of a Vietnamese letter, in either
/// case and with any diacritic, to its plain lower-case letter.
pub proof fn lemma_fold_vietnamese_forms(c: char, base: char)
    requires
        vietnamese_form(c, base),
    ensures
        fold_accent(c) == base,
{
}

/// A folded text holds no Vietnamese letter with a diacritic and no
/// upper-case Vietnamese letter: wherever a form of a Vietnamese letter
/// stands in it, that form is the plain lower-case letter.
pub proof fn lemma_folded_text_is_plain(s: Seq<char>, k: int, base: char)
    requires
        0 <= k < fold_accents(s).len(),
        vietnamese_form(fold_accents(s)[k], base),
    ensures
        fold_accents(s)[k] == base,
{
    let x = fold_accents(s)[k];
    assert(x == fold_accent(s[k]));
    lemma_fold_vietnamese_forms(x, base);
    assert(fold_accent(fold_accent(s[k])) == fold_accent(s[k]));
}

/// Bytes that a URL carries unescaped: ASCII letters, digits and `-`, `_`, `.`, `~`.
pub open spec fn is_unreserved(b: u8) -> bool {
    ||| (0x61 <= b && b <= 0x7a)
    ||| (0x41 <= b && b <= 0x5a)
    ||| (0x30 <= b && b <= 0x39)
    ||| b == 0x2d
    ||| b == 0x5f
    ||| b == 0x2e
    ||| b == 0x7e
}

/// Upper-case hexadecimal digit of a value below sixteen.
pub open spec fn hex_digit_upper(n: u8) -> char {
    if n < 10 {
        (0x30 + n) as char
    } else {
        (0x37 + n) as char
    }
}

/// The text that one byte becomes: itself when unreserved, else `%` and two
/// upper-case hexadecimal digits.
pub open spec fn url_encode_byte(b: u8) -> Seq<char> {
    if is_unreserved(b) {
        seq![b as char]
    } else {
        seq!['%', hex_digit_upper(b / 16), hex_digit_upper(b % 16)]
    }
}

/// Percent-encoding of a byte sequence.
pub open spec fn url_encode(bytes: Seq<u8>) -> Seq<char>
    decreases bytes.len(),
{
    if bytes.len() == 0 {
        seq![]
    } else {
        url_encode(bytes.drop_last()) + url_encode_byte(bytes.last())
    }
}

/// The value of an upper-case hexadecimal digit.
pub open spec fn hex_value(c: char) -> int {
    if '0' <= c && c <= '9' {
        c as int - 0x30
    } else {
        c as int - 0x37
    }
}

/// Reads percent-encoded text back into bytes.
pub open spec fn url_decode(s: Seq<char>) -> Seq<u8>
    decreases s.len(),
{
    if s.len() == 0 {
        Seq::empty()
    } else if s.len() >= 3 && s[s.len() - 3] == '%' {
        url_decode(s.take(s.len() - 3)).push(
            (hex_value(s[s.len() - 2]) * 16 + hex_value(s[s.len() - 1])) as u8,
        )
    } else {
        url_decode(s.drop_last()).push(s.last() as u8)
    }
}

proof fn lemma_percent_is_followed_by_two(b: Seq<u8>)
    ensures
        forall|k: int|
            0 <= k < url_encode(b).len() && #[trigger] url_encode(b)[k] == '%' ==> k + 2 < url_encode(
                b,
            ).len(),
    decreases b.len(),
{
    if b.len() > 0 {
        let p = b.drop_last();
        lemma_percent_is_followed_by_two(p);
        let ep = url_encode(p);
        let e = url_encode(b);
        assert(e == ep + url_encode_byte(b.last()));
        assert forall|k: int| 0 <= k < e.len() && #[trigger] e[k] == '%' implies k + 2 < e.len() by {
            if k < ep.len() {
                assert(e[k] == ep[k]);
            } else {
                let x = b.last();
                if is_unreserved(x) {
                    assert(e[k] == x as char);
                } else {
                    assert(k == ep.len() || e[k] == hex_digit_upper(x / 16) || e[k] == hex_digit_upper(
                        x % 16,
                    ));
                }
            }
        }
    }
}

/// Reading percent-encoded text back gives the bytes it came from.
pub proof fn lemma_url_decode_encode(b: Seq<u8>)
    ensures
        url_decode(url_encode(b)) == b,
    decreases b.len(),
{
    if b.len() > 0 {
        let p = b.drop_last();
        let x = b.last();
        lemma_url_decode_encode(p);
        lemma_percent_is_followed_by_two(p);
        let ep = url_encode(p);
        let e = url_encode(b);
        assert(e == ep + url_encode_byte(x));
        if is_unreserved(x) {
            assert(e.drop_last() =~= ep);
            if e.len() >= 3 {
                assert(e[e.len() - 3] == ep[ep.len() - 2]);
            }
            assert((x as char) as u8 == x);
        } else {
            assert(e.take(e.len() - 3) =~= ep);
            assert(hex_value(hex_digit_upper(x / 16)) * 16 + hex_value(hex_digit_upper(x % 16)) == x);
        }
        assert(b =~= p.push(x));
    }
}

/// Percent-encoding tells different byte sequences apart: the text it gives
/// can be read back into the bytes it came from.
pub proof fn lemma_url_encode_injective(a: Seq<u8>, b: Seq<u8>)
    requires
        url_encode(a) == url_encode(b),
    ensures
        a == b,
{
    lemma_url_decode_encode(a);
    lemma_url_decode_encode(b);
}

/// Whether a character may stand in a percent-encoded text: an unreserved
/// ASCII character, `%`, or an upper-case hexadecimal digit.
pub open spec fn url_safe_char(c: char) -> bool {
    ||| is_unreserved(c as u8) && (c as u32) < 128
    ||| c == '%'
}

/// Percent-encoded text only holds unreserved ASCII characters and `%`.
pub proof fn lemma_url_encode_safe(b: Seq<u8>)
    ensures
        forall|k: int| 0 <= k < url_encode(b).len() ==> url_safe_char(#[trigger] url_encode(b)[k]),
    decreases b.len(),
{
    if b.len() > 0 {
        let p = b.drop_last();
        lemma_url_encode_safe(p);
        let ep = url_encode(p);
        let e = url_encode(b);
        let x = b.last();
        assert(e == ep + url_encode_byte(x));
        assert forall|k: int| 0 <= k < e.len() implies url_safe_char(#[trigger] e[k]) by {
            if k < ep.len() {
                assert(e[k] == ep[k]);
            } else if is_unreserved(x) {
                assert(e[k] == x as char);
                assert((x as char) as u8 == x);
            } else if k > ep.len() {
                assert(e[k] == hex_digit_upper(x / 16) || e[k] == hex_digit_upper(x % 16));
            }
        }
    }
}

/// The number of bytes that percent-encoding escapes.
pub open spec fn reserved_count(b: Seq<u8>) -> nat
    decreases b.len(),
{
    if b.len() == 0 {
        0
    } else {
        reserved_count(b.drop_last()) + if is_unreserved(b.last()) {
            0nat
        } else {
            1nat
        }
    }
}

/// Percent-encoding works byte by byte: the encoding of two byte sequences
/// one after the other is their encodings one after the other.
pub proof fn lemma_url_encode_concat(a: Seq<u8>, b: Seq<u8>)
    ensures
        url_encode(a + b) == url_encode(a) + url_encode(b),
    decreases b.len(),
{
    if b.len() == 0 {
        assert(a + b =~= a);
        assert(url_encode(a) + url_encode(b) =~= url_encode(a));
    } else {
        lemma_url_encode_concat(a, b.drop_last());
        assert((a + b).drop_last() =~= a + b.drop_last());
        assert((a + b).last() == b.last());
        assert(url_encode(a + b) =~= url_encode(a) + url_encode(b));
    }
}

/// Percent-encoded text has one character per byte plus two more for every
/// escaped byte.
pub proof fn lemma_url_encode_len(b: Seq<u8>)
    ensures
        url_encode(b).len() == b.len() + 2 * reserved_count(b),
    decreases b.len(),
{
    if b.len() > 0 {
        lemma_url_encode_len(b.drop_last());
    }
}

/// Every byte is left as it is.
pub open spec fn all_unreserved(b: Seq<u8>) -> bool {
    forall|k: int| 0 <= k < b.len() ==> is_unreserved(#[trigger] b[k])
}

proof fn lemma_reserved_count_zero(b: Seq<u8>)
    ensures
        (reserved_count(b) == 0) == all_unreserved(b),
    decreases b.len(),
{
    if b.len() > 0 {
        let p = b.drop_last();
        lemma_reserved_count_zero(p);
        if all_unreserved(b) {
            assert forall|k: int| 0 <= k < p.len() implies is_unreserved(#[trigger] p[k]) by {
                assert(p[k] == b[k]);
            }
            assert(is_unreserved(b[b.len() - 1]));
        }
        if reserved_count(b) == 0 {
            assert forall|k: int| 0 <= k < b.len() implies is_unreserved(#[trigger] b[k]) by {
                if k < p.len() {
                    assert(p[k] == b[k]);
                }
            }
        }
    }
}

/// Percent-encoding leaves the bytes (as characters) unchanged exactly when
/// none of them needs escaping.
pub proof fn lemma_url_encode_unchanged(b: Seq<u8>)
    ensures
        (url_encode(b) == b.map_values(|x: u8| x as char)) == all_unreserved(b),
    decreases b.len(),
{
    lemma_url_encode_len(b);
    lemma_reserved_count_zero(b);
    if b.len() == 0 {
        assert(b.map_values(|x: u8| x as char) =~= url_encode(b));
    } else {
        let p = b.drop_last();
        lemma_url_encode_unchanged(p);
        let m = b.map_values(|x: u8| x as char);
        let mp = p.map_values(|x: u8| x as char);
        if all_unreserved(b) {
            assert(all_unreserved(p)) by {
                assert forall|k: int| 0 <= k < p.len() implies is_unreserved(#[trigger] p[k]) by {
                    assert(p[k] == b[k]);
                }
            }
            assert(is_unreserved(b[b.len() - 1]));
            assert(m =~= mp + seq![b.last() as char]);
            assert(url_encode(b) =~= m);
        } else {
            assert(url_encode(b).len() != m.len());
        }
    }
}

proof fn lemma_encode_utf8_concat(a: Seq<char>, b: Seq<char>)
    ensures
        encode_utf8(a + b) == encode_utf8(a) + encode_utf8(b),
    decreases a.len(),
{
    if a.len() == 0 {
        assert(a + b =~= b);
        assert(encode_utf8(a) + encode_utf8(b) =~= encode_utf8(b));
    } else {
        lemma_encode_utf8_concat(a.drop_first(), b);
        assert((a + b).drop_first() =~= a.drop_first() + b);
        assert((a + b)[0] == a[0]);
        assert(encode_utf8(a + b) =~= encode_utf8(a) + encode_utf8(b));
    }
}

proof fn lemma_low_bytes_ascii(s: Seq<char>)
    requires
        forall|k: int| 0 <= k < encode_utf8(s).len() ==> #[trigger] encode_utf8(s)[k] < 0x80,
    ensures
        is_ascii_chars(s),
    decreases s.len(),
{
    if s.len() > 0 {
        let e = encode_utf8(s);
        let head = encode_scalar(s[0] as u32);
        let t = s.drop_first();
        assert(e == head + encode_utf8(t));
        assert forall|k: int| 0 <= k < encode_utf8(t).len() implies #[trigger] encode_utf8(t)[k]
            < 0x80 by {
            assert(encode_utf8(t)[k] == e[head.len() + k]);
        }
        lemma_low_bytes_ascii(t);
        if !has_width_1_encoding(s[0] as u32) {
            let v = s[0] as u32;
            let c = last_continuation_byte(v);
            assert(c >= 0x80) by (bit_vector)
                requires
                    c == 0x80 | (v & 0x3F) as u8,
            ;
            assert(head[head.len() - 1] == c);
            assert(e[head.len() - 1] == c);
        }
        assert(has_width_1_encoding(s[0] as u32));
        let c0 = s[0];
        assert(c0 as u32 <= 0x7f);
        let u = c0 as u32;
        vstd::utf8::char_u32_cast(c0, u);
        assert(u as char == c0);
        assert(c0 <= '\u{7f}');
        assert forall|i: int| 0 <= i < s.len() implies '\0' <= #[trigger] s[i] <= '\u{7f}' by {
            if i > 0 {
                assert(is_ascii_chars(t));
                assert(s[i] == t[i - 1]);
            }
        }
    }
}

/// The laws of URL-encoding a text, as `urlencoding_encode` does: it
/// distributes over joining two texts, its length is the text's byte count
/// plus two for every escaped byte, and it gives the text back unchanged
/// exactly when no byte of the text needs escaping.
pub proof fn lemma_urlencoding_laws(a: Seq<char>, b: Seq<char>)
    ensures
        url_encode(encode_utf8(a + b)) == url_encode(encode_utf8(a)) + url_encode(encode_utf8(b)),
        url_encode(encode_utf8(a)).len() == encode_utf8(a).len() + 2 * reserved_count(
            encode_utf8(a),
        ),
        (url_encode(encode_utf8(a)) == a) == all_unreserved(encode_utf8(a)),
{
    lemma_encode_utf8_concat(a, b);
    lemma_url_encode_concat(encode_utf8(a), encode_utf8(b));
    let e = encode_utf8(a);
    lemma_url_encode_len(e);
    lemma_url_encode_unchanged(e);
    lemma_reserved_count_zero(e);
    if all_unreserved(e) {
        assert forall|k: int| 0 <= k < e.len() implies #[trigger] e[k] < 0x80 by {
            assert(is_unreserved(e[k]));
        }
        lemma_low_bytes_ascii(a);
        vstd::utf8::is_ascii_chars_encode_utf8(a);
        assert(e.map_values(|x: u8| x as char) =~= a) by {
            assert forall|k: int| 0 <= k < a.len() implies e.map_values(|x: u8| x as char)[k]
                == a[k] by {
                assert(a[k] as u8 == e[k]);
                assert('\0' <= a[k] <= '\u{7f}');
            }
        }
    } else if url_encode(e) == a {
        lemma_encode_utf8_len_ge(a);
    }
}

proof fn lemma_encode_utf8_len_ge(s: Seq<char>)
    ensures
        encode_utf8(s).len() >= s.len(),
    decreases s.len(),
{
    if s.len() > 0 {
        lemma_encode_utf8_len_ge(s.drop_first());
    }
}

fn hex_upper_char(n: u8) -> (c: char)
    requires
        n < 16,
    ensures
        c == hex_digit_upper(n),
{
    if n < 10 {
        (0x30u8 + n) as char
    } else {
        (0x37u8 + n) as char
    }
}

fn is_unreserved_byte(b: u8) -> (r: bool)
    ensures
        r == is_unreserved(b),
{
    (0x61 <= b && b <= 0x7a) || (0x41 <= b && b <= 0x5a) || (0x30 <= b && b <= 0x39) || b == 0x2d
        || b == 0x5f || b == 0x2e || b == 0x7e
}

/// Percent-encodes the UTF-8 bytes of `s` for use in a query string.
pub fn urlencoding_encode(s: &str) -> (out: String)
    ensures
        out@ == url_encode(vstd::utf8::encode_utf8(s@)),
{
    let bytes = s.as_bytes();
    let mut out = String::new();
    let n = bytes.len();
    for i in 0..n
        invariant
            n == bytes@.len(),
            bytes@ == vstd::utf8::encode_utf8(s@),
            out@ == url_encode(bytes@.take(i as int)),
    {
        let b = bytes[i];
        assert(bytes@.take(i + 1).drop_last() =~= bytes@.take(i as int));
        if is_unreserved_byte(b) {
            push_char(&mut out, b as char);
        } else {
            push_char(&mut out, '%');
            push_char(&mut out, hex_upper_char(b / 16));
            push_char(&mut out, hex_upper_char(b % 16));
        }
        assert(out@ =~= url_encode(bytes@.take(i + 1)));
    }
    assert(bytes@.take(n as int) =~= bytes@);
    out
}

/// The slug of an already folded text before its ends are cleaned: each
/// alphanumeric character, ASCII-lowered, and one `_` for every run of other
/// characters.
pub open spec fn slug_raw(s: Seq<char>) -> Seq<char>
    decreases s.len(),
{
    if s.len() == 0 {
        seq![]
    } else {
        let p = slug_raw(s.drop_last());
        let c = s.last();
        if alphanumeric(c) {
            p.push(ascii_lower(c))
        } else if p.len() > 0 && p.last() == '_' {
            p
        } else {
            p.push('_')
        }
    }
}

/// The predicate "is `_`" as a value.
pub open spec fn underscore() -> spec_fn(char) -> bool {
    |c: char| c == '_'
}

/// The slug used when a text has no alphanumeric character.
pub open spec fn default_slug() -> Seq<char> {
    seq!['a', 'm', '_', 't', 'h', 'a', 'n', 'h']
}

/// The slug of a text before it is cut to the file-name length.
pub open spec fn slug_body(text: Seq<char>) -> Seq<char> {
    let t = trim_by(slug_raw(fold_accents(text)), underscore());
    if t.len() == 0 {
        default_slug()
    } else {
        t
    }
}

/// Longest slug, in UTF-8 bytes, that becomes part of a file name.
pub const MAX_SLUG_BYTES: usize = 50;

/// Whether a slug of `s` characters can be cut at the file-name length
/// without splitting a character (slicing a `str` elsewhere panics).
pub open spec fn cuttable(s: Seq<char>) -> bool {
    let b = encode_utf8(s);
    b.len() <= MAX_SLUG_BYTES || is_char_boundary(b, MAX_SLUG_BYTES as int)
}

/// The text `s` cut to at most the file-name length in bytes.
pub open spec fn cut_to_name_length(s: Seq<char>) -> Seq<char> {
    let b = encode_utf8(s);
    if b.len() > MAX_SLUG_BYTES {
        decode_utf8(b.take(MAX_SLUG_BYTES as int))
    } else {
        s
    }
}

/// The file-name slug of a text.
pub open spec fn slug(text: Seq<char>) -> Seq<char> {
    cut_to_name_length(slug_body(text))
}

/// No two `_` follow each other.
pub open spec fn no_double_underscore(s: Seq<char>) -> bool {
    forall|k: int| 0 <= k < s.len() - 1 ==> !(#[trigger] s[k] == '_' && s[k + 1] == '_')
}

/// No ASCII upper-case letter occurs.
pub open spec fn no_ascii_upper(s: Seq<char>) -> bool {
    forall|k: int| 0 <= k < s.len() ==> !('A' <= #[trigger] s[k] && s[k] <= 'Z')
}

proof fn lemma_slug_raw_shape(s: Seq<char>)
    ensures
        no_double_underscore(slug_raw(s)),
        no_ascii_upper(slug_raw(s)),
        is_ascii_chars(s) ==> is_ascii_chars(slug_raw(s)),
    decreases s.len(),
{
    if s.len() > 0 {
        let t = s.drop_last();
        lemma_slug_raw_shape(t);
        let p = slug_raw(t);
        let r = slug_raw(s);
        let c = s.last();
        assert(is_ascii_chars(s) ==> is_ascii_chars(t)) by {
            if is_ascii_chars(s) {
                assert forall|i: int| 0 <= i < t.len() implies '\0' <= #[trigger] t[i] <= '\u{7f}' by {
                    assert(t[i] == s[i]);
                }
            }
        }
        assert forall|k: int| 0 <= k < p.len() && k < r.len() implies r[k] == p[k] by {}
        assert(is_ascii_chars(s) ==> '\0' <= c <= '\u{7f}');
    }
}

proof fn lemma_fold_accents_ascii(s: Seq<char>)
    requires
        is_ascii_chars(s),
    ensures
        is_ascii_chars(fold_accents(s)),
{
    assert forall|i: int| 0 <= i < fold_accents(s).len() implies '\0' <= #[trigger] fold_accents(
        s,
    )[i] <= '\u{7f}' by {
        assert(fold_accents(s)[i] == fold_accent(s[i]));
    }
}

/// A file-name slug is never empty, neither starts nor ends with `_`, has no
/// ASCII upper-case letter, and never has two `_` in a row.
pub proof fn lemma_slug_body_shape(text: Seq<char>)
    ensures
        slug_body(text).len() > 0,
        slug_body(text)[0] != '_',
        slug_body(text).last() != '_',
        no_ascii_upper(slug_body(text)),
        no_double_underscore(slug_body(text)),
{
    let raw = slug_raw(fold_accents(text));
    lemma_slug_raw_shape(fold_accents(text));
    let (i, j) = lemma_trim_by_range(raw, underscore());
    let t = raw.subrange(i, j);
    if i < j {
        assert(no_double_underscore(t)) by {
            {
                assert forall|k: int| 0 <= k < t.len() - 1 implies !(#[trigger] t[k] == '_' && t[k + 1] == '_') by {
                    assert(t[k] == raw[i + k] && t[k + 1] == raw[i + k + 1]);
                }
            }
        }
        assert forall|k: int| 0 <= k < t.len() implies !('A' <= #[trigger] t[k] && t[k] <= 'Z') by {
            assert(t[k] == raw[i + k]);
        }
        assert(t[0] == raw[i]);
        assert(t.last() == raw[j - 1]);
    } else {
        let d = default_slug();
        assert(d[0] == 'a' && d.last() == 'h');
        assert forall|k: int| 0 <= k < d.len() - 1 implies !(#[trigger] d[k] == '_' && d[k + 1] == '_') by {}
    }
}

proof fn lemma_ascii_char_boundary(s: Seq<char>, i: int)
    requires
        is_ascii_chars(s),
        0 <= i <= s.len(),
    ensures
        is_char_boundary(encode_utf8(s), i),
    decreases i,
{
    vstd::utf8::encode_utf8_valid_utf8(s);
    if i > 0 {
        let b = encode_utf8(s);
        vstd::utf8::encode_utf8_first_scalar(s);
        assert(vstd::utf8::has_width_1_encoding(s[0] as u32));
        assert(vstd::utf8::length_of_first_scalar(b) == 1);
        assert(vstd::utf8::pop_first_scalar(b) =~= encode_utf8(s.drop_first()));
        assert(is_ascii_chars(s.drop_first())) by {
            assert forall|k: int| 0 <= k < s.drop_first().len() implies '\0' <= #[trigger] s.drop_first()[k] <= '\u{7f}' by {
                assert(s.drop_first()[k] == s[k + 1]);
            }
        }
        vstd::utf8::is_ascii_chars_encode_utf8(s);
        lemma_ascii_char_boundary(s.drop_first(), i - 1);
    }
}

/// An ASCII text always gets a slug that can be cut to the file-name
/// length, so its request is served.
pub proof fn lemma_ascii_text_cuttable(text: Seq<char>)
    requires
        is_ascii_chars(text),
    ensures
        cuttable(slug_body(text)),
{
    lemma_fold_accents_ascii(text);
    lemma_slug_raw_shape(fold_accents(text));
    let raw = slug_raw(fold_accents(text));
    let (i, j) = lemma_trim_by_range(raw, underscore());
    let body = slug_body(text);
    assert(is_ascii_chars(body)) by {
        if i < j {
            assert forall|k: int| 0 <= k < body.len() implies '\0' <= #[trigger] body[k] <= '\u{7f}' by {
                assert(body[k] == raw[i + k]);
            }
        }
    }
    vstd::utf8::is_ascii_chars_encode_utf8(body);
    if encode_utf8(body).len() > MAX_SLUG_BYTES {
        lemma_ascii_char_boundary(body, MAX_SLUG_BYTES as int);
    }
}

/// `s` with every `_` taken out.
pub open spec fn without_underscores(s: Seq<char>) -> Seq<char>
    decreases s.len(),
{
    if s.len() == 0 {
        seq![]
    } else if s.last() == '_' {
        without_underscores(s.drop_last())
    } else {
        without_underscores(s.drop_last()).push(s.last())
    }
}

/// The alphanumeric characters of `s`, in order, ASCII-lowered.
pub open spec fn alnum_lowered(s: Seq<char>) -> Seq<char>
    decreases s.len(),
{
    if s.len() == 0 {
        seq![]
    } else if alphanumeric(s.last()) {
        alnum_lowered(s.drop_last()).push(ascii_lower(s.last()))
    } else {
        alnum_lowered(s.drop_last())
    }
}

/// Whether `c` is an ASCII letter or digit.
pub open spec fn ascii_letter_or_digit(c: char) -> bool {
    ('a' <= c && c <= 'z') || ('A' <= c && c <= 'Z') || ('0' <= c && c <= '9')
}

/// The ASCII letters and digits of `s`, in order, lower-cased.
pub open spec fn ascii_alnum_lowered(s: Seq<char>) -> Seq<char>
    decreases s.len(),
{
    if s.len() == 0 {
        seq![]
    } else if ascii_letter_or_digit(s.last()) {
        ascii_alnum_lowered(s.drop_last()).push(ascii_lower(s.last()))
    } else {
        ascii_alnum_lowered(s.drop_last())
    }
}

proof fn lemma_without_underscores_concat(a: Seq<char>, b: Seq<char>)
    ensures
        without_underscores(a + b) == without_underscores(a) + without_underscores(b),
    decreases b.len(),
{
    if b.len() == 0 {
        assert(a + b =~= a);
        assert(without_underscores(a) + without_underscores(b) =~= without_underscores(a));
    } else {
        lemma_without_underscores_concat(a, b.drop_last());
        assert((a + b).drop_last() =~= a + b.drop_last());
        assert((a + b).last() == b.last());
        if b.last() != '_' {
            assert(without_underscores(a + b) =~= without_underscores(a) + without_underscores(b));
        }
    }
}

proof fn lemma_without_underscores_trim(s: Seq<char>)
    ensures
        without_underscores(trim_by(s, underscore())) == without_underscores(s),
{
    lemma_without_underscores_trim_start(s);
    lemma_without_underscores_trim_end(trim_start_by(s, underscore()));
}

proof fn lemma_without_underscores_trim_start(s: Seq<char>)
    ensures
        without_underscores(trim_start_by(s, underscore())) == without_underscores(s),
    decreases s.len(),
{
    let p = underscore();
    if s.len() > 0 && p(s[0]) {
        lemma_without_underscores_trim_start(s.drop_first());
        let head = seq![s[0]];
        assert(s =~= head + s.drop_first());
        lemma_without_underscores_concat(head, s.drop_first());
        assert(s[0] == '_');
        assert(head.last() == '_');
        assert(head.drop_last() =~= Seq::<char>::empty());
        assert(without_underscores(head.drop_last()) =~= Seq::<char>::empty());
        assert(without_underscores(head) =~= Seq::<char>::empty());
        assert(without_underscores(head) + without_underscores(s.drop_first()) =~= without_underscores(
            s.drop_first(),
        ));
    }
}

proof fn lemma_without_underscores_trim_end(s: Seq<char>)
    ensures
        without_underscores(trim_end_by(s, underscore())) == without_underscores(s),
    decreases s.len(),
{
    let p = underscore();
    if s.len() > 0 && p(s.last()) {
        lemma_without_underscores_trim_end(s.drop_last());
    }
}

proof fn lemma_slug_raw_alnums(s: Seq<char>)
    ensures
        without_underscores(slug_raw(s)) == alnum_lowered(s),
    decreases s.len(),
{
    if s.len() > 0 {
        let t = s.drop_last();
        lemma_slug_raw_alnums(t);
        let p = slug_raw(t);
        let c = s.last();
        if alphanumeric(c) {
            assert(ascii_lower(c) != '_');
            assert(p.push(ascii_lower(c)).drop_last() =~= p);
        } else if !(p.len() > 0 && p.last() == '_') {
            assert(p.push('_').drop_last() =~= p);
        }
    }
}

proof fn lemma_no_underscore_ends(s: Seq<char>)
    requires
        s.len() > 0,
        s[0] != '_',
    ensures
        without_underscores(s).len() > 0,
    decreases s.len(),
{
    if s.len() > 1 {
        assert(s.drop_last()[0] == s[0]);
        lemma_no_underscore_ends(s.drop_last());
    }
}

/// The slug keeps every alphanumeric character of the folded text,
/// ASCII-lowered and in order, and adds nothing but `_`: with its `_` taken
/// out it is exactly those characters. A text without any is named
/// `am_thanh`.
pub proof fn lemma_slug_keeps_alphanumerics(text: Seq<char>)
    ensures
        alnum_lowered(fold_accents(text)).len() > 0 ==> without_underscores(slug_body(text))
            == alnum_lowered(fold_accents(text)),
        alnum_lowered(fold_accents(text)).len() == 0 ==> slug_body(text) == default_slug(),
{
    let raw = slug_raw(fold_accents(text));
    let t = trim_by(raw, underscore());
    lemma_slug_raw_alnums(fold_accents(text));
    lemma_without_underscores_trim(raw);
    if t.len() > 0 {
        lemma_slug_body_shape(text);
        assert(slug_body(text) == t);
        lemma_no_underscore_ends(t);
    }
}

proof fn lemma_ascii_fold_alnums(s: Seq<char>)
    requires
        is_ascii_chars(s),
    ensures
        alnum_lowered(fold_accents(s)) == ascii_alnum_lowered(s),
    decreases s.len(),
{
    if s.len() > 0 {
        let t = s.drop_last();
        assert(is_ascii_chars(t)) by {
            assert forall|i: int| 0 <= i < t.len() implies '\0' <= #[trigger] t[i] <= '\u{7f}' by {
                assert(t[i] == s[i]);
            }
        }
        lemma_ascii_fold_alnums(t);
        assert(fold_accents(s).drop_last() =~= fold_accents(t));
        let c = s.last();
        assert('\0' <= s[s.len() - 1] <= '\u{7f}');
        assert(fold_accents(s).last() == fold_accent(c));
        assert(alphanumeric(fold_accent(c)) == ascii_letter_or_digit(c));
        assert(ascii_letter_or_digit(c) ==> ascii_lower(fold_accent(c)) == ascii_lower(c));
    }
}

/// For ASCII text, the slug keeps every letter and digit of the text,
/// lower-cased and in order, and adds nothing but `_`: with its `_` taken
/// out it is exactly the text's letters and digits, so texts that differ in
/// a letter or a digit get different slugs.
pub proof fn lemma_ascii_slug_keeps_letters_and_digits(text: Seq<char>)
    requires
        is_ascii_chars(text),
    ensures
        ascii_alnum_lowered(text).len() > 0 ==> without_underscores(slug_body(text))
            == ascii_alnum_lowered(text),
        ascii_alnum_lowered(text).len() == 0 ==> slug_body(text) == default_slug(),
{
    lemma_ascii_fold_alnums(text);
    lemma_slug_keeps_alphanumerics(text);
}

/// A slug that can be cut is at most `MAX_SLUG_BYTES` bytes long.
pub proof fn lemma_slug_fits(text: Seq<char>)
    requires
        cuttable(slug_body(text)),
    ensures
        encode_utf8(slug(text)).len() <= MAX_SLUG_BYTES,
{
    let b = encode_utf8(slug_body(text));
    if b.len() > MAX_SLUG_BYTES {
        vstd::utf8::encode_utf8_valid_utf8(slug_body(text));
        vstd::utf8::valid_utf8_split(b, MAX_SLUG_BYTES as int);
        assert(b.subrange(0, MAX_SLUG_BYTES as int) =~= b.take(MAX_SLUG_BYTES as int));
        vstd::utf8::decode_utf8_encode_utf8(b.take(MAX_SLUG_BYTES as int));
    }
}

/// The slug of a folded text before its ends are cleaned, given for each
/// character whether it is alphanumeric (`marks[i]` for `s[i]`).
pub open spec fn slug_raw_marked(s: Seq<char>, marks: Seq<bool>) -> Seq<char>
    decreases s.len(),
{
    if s.len() == 0 {
        seq![]
    } else {
        let p = slug_raw_marked(s.drop_last(), marks.take(s.len() - 1));
        if marks[s.len() - 1] {
            p.push(ascii_lower(s.last()))
        } else if p.len() > 0 && p.last() == '_' {
            p
        } else {
            p.push('_')
        }
    }
}

/// Which characters of `s` are alphanumeric.
pub open spec fn alnum_marks(s: Seq<char>) -> Seq<bool> {
    s.map_values(|c: char| alphanumeric(c))
}

proof fn lemma_slug_raw_marked(s: Seq<char>)
    ensures
        slug_raw(s) == slug_raw_marked(s, alnum_marks(s)),
    decreases s.len(),
{
    if s.len() > 0 {
        lemma_slug_raw_marked(s.drop_last());
        assert(alnum_marks(s).take(s.len() - 1) =~= alnum_marks(s.drop_last()));
    }
}

/// The slug of a folded text before its ends are cleaned: each character
/// marked alphanumeric, ASCII-lowered, and one `_` for every run of the others.
pub fn slug_from_marks(folded: &Vec<char>, marks: &Vec<bool>) -> (out: Vec<char>)
    requires
        folded@.len() == marks@.len(),
    ensures
        out@ == slug_raw_marked(folded@, marks@),
{
    let mut out: Vec<char> = Vec::new();
    let n = folded.len();
    for i in 0..n
        invariant
            n == folded@.len(),
            n == marks@.len(),
            out@ == slug_raw_marked(folded@.take(i as int), marks@.take(i as int)),
    {
        let c = folded[i];
        assert(folded@.take(i + 1).drop_last() =~= folded@.take(i as int));
        assert(marks@.take(i + 1).take(i as int) =~= marks@.take(i as int));
        if marks[i] {
            out.push(ascii_lower_char(c));
        } else if out.len() > 0 && out[out.len() - 1] == '_' {
        } else {
            out.push('_');
        }
    }
    assert(folded@.take(n as int) =~= folded@);
    assert(marks@.take(n as int) =~= marks@);
    out
}

fn raw_slug_chars(folded: &Vec<char>) -> (out: Vec<char>)
    ensures
        out@ == slug_raw(folded@),
{
    let mut marks: Vec<bool> = Vec::new();
    let n = folded.len();
    for i in 0..n
        invariant
            n == folded@.len(),
            marks@ == alnum_marks(folded@).take(i as int),
    {
        marks.push(is_alphanumeric(folded[i]));
        assert(marks@ =~= alnum_marks(folded@).take(i + 1));
    }
    assert(alnum_marks(folded@).take(n as int) =~= alnum_marks(folded@));
    proof {
        lemma_slug_raw_marked(folded@);
    }
    slug_from_marks(folded, &marks)
}

fn strip_underscores(v: &Vec<char>) -> (r: Vec<char>)
    ensures
        r@ == trim_by(v@, underscore()),
{
    let n = v.len();
    let mut i: usize = 0;
    while i < n && v[i] == '_'
        invariant
            n == v@.len(),
            i <= n,
            forall|k: int| 0 <= k < i ==> #[trigger] v@[k] == '_',
        decreases n - i,
    {
        i = i + 1;
    }
    let mut j: usize = n;
    while j > i && v[j - 1] == '_'
        invariant
            n == v@.len(),
            i <= j <= n,
            forall|k: int| j <= k < n ==> #[trigger] v@[k] == '_',
        decreases j,
    {
        j = j - 1;
    }
    let mut r: Vec<char> = Vec::new();
    let mut k: usize = i;
    while k < j
        invariant
            n == v@.len(),
            i <= k <= j <= n,
            r@ == v@.subrange(i as int, k as int),
        decreases j - k,
    {
        r.push(v[k]);
        assert(r@ =~= v@.subrange(i as int, k + 1));
        k = k + 1;
    }
    proof {
        let p = underscore();
        assert forall|k: int| 0 <= k < i implies p(#[trigger] v@[k]) by {}
        lemma_trim_start_skip(v@, p, i as int);
        let t = v@.subrange(i as int, n as int);
        assert forall|k: int| j - i <= k < t.len() implies p(#[trigger] t[k]) by {
            assert(t[k] == v@[k + i]);
        }
        if j > i {
            assert(t[j - i - 1] == v@[j - 1]);
        }
        lemma_trim_end_take(t, p, j - i);
        assert(t.subrange(0, j - i) =~= v@.subrange(i as int, j as int));
    }
    r
}

/// The slug of `text` before it is cut to the file-name length: accents
/// folded, alphanumerics ASCII-lowered, other runs turned into one `_`, no
/// `_` at either end, and `am_thanh` when nothing is left.
pub fn slug_body_of(text: &str) -> (s: String)
    ensures
        s@ == slug_body(text@),
{
    let clean = remove_accents(text);
    let folded = chars_of(clean.as_str());
    let raw = raw_slug_chars(&folded);
    let trimmed = strip_underscores(&raw);
    if trimmed.len() == 0 {
        let d = "am_thanh";
        proof {
            reveal_strlit("am_thanh");
        }
        assert(d@ =~= default_slug());
        d.to_owned()
    } else {
        string_from_chars(&trimmed)
    }
}

/// Cuts a slug to its first `MAX_SLUG_BYTES` bytes when it is longer.
pub fn cut_slug(s: &str) -> (r: &str)
    requires
        cuttable(s@),
    ensures
        r@ == cut_to_name_length(s@),
{
    if s.as_bytes().len() > MAX_SLUG_BYTES {
        let (head, _) = s.split_at(MAX_SLUG_BYTES);
        proof {
            vstd::utf8::encode_utf8_decode_utf8(head@);
            assert(encode_utf8(head@) =~= encode_utf8(s@).take(MAX_SLUG_BYTES as int));
        }
        head
    } else {
        s
    }
}

/// The file-name slug of `text`.
pub fn safe_slug(text: &str) -> (s: String)
    requires
        cuttable(slug_body(text@)),
    ensures
        s@ == slug(text@),
{
    let body = slug_body_of(text);
    cut_slug(body.as_str()).to_owned()
}

/// Query parameters of a text-to-speech request.
pub struct TtsParams {
    pub text: Option<String>,
    pub voice: Option<String>,
    pub rate: Option<String>,
    pub pitch: Option<String>,
}

/// The two voices that can be asked for.
#[derive(Clone, Copy, Debug, PartialEq, Eq, Structural)]
pub enum Voice {
    Male,
    Female,
}

/// The voice that an already lower-cased voice name selects: the male one
/// when it mentions `male` but not `female`, else the female one.
pub open spec fn voice_of_lowered(l: Seq<char>) -> Voice {
    if contains_seq(l, seq!['m', 'a', 'l', 'e']) && !contains_seq(
        l,
        seq!['f', 'e', 'm', 'a', 'l', 'e'],
    ) {
        Voice::Male
    } else {
        Voice::Female
    }
}

/// The voice that a requested voice name selects, by its lower-cased form.
pub open spec fn voice_named(voice: Seq<char>) -> Voice {
    voice_of_lowered(unicode_lowercase(voice))
}

/// The suffix that file names carry for a voice.
pub open spec fn voice_suffix(v: Voice) -> Seq<char> {
    match v {
        Voice::Male => seq!['n', 'a', 'm'],
        Voice::Female => seq!['n', 'u'],
    }
}

/// Selects the voice for an already lower-cased voice name.
pub fn voice_from_lowered(lower: &str) -> (v: Voice)
    ensures
        v == voice_of_lowered(lower@),
{
    let male = "male";
    let female = "female";
    proof {
        reveal_strlit("male");
        reveal_strlit("female");
    }
    assert(male@ =~= seq!['m', 'a', 'l', 'e']);
    assert(female@ =~= seq!['f', 'e', 'm', 'a', 'l', 'e']);
    if contains_str(lower, male) && !contains_str(lower, female) {
        Voice::Male
    } else {
        Voice::Female
    }
}

/// Selects the voice for a requested voice name.
pub fn voice_of(voice: &str) -> (v: Voice)
    ensures
        v == voice_named(voice@),
        is_ascii_chars(voice@) ==> v == voice_of_lowered(voice@.map_values(|c: char| ascii_lower(c))),
{
    let lower = to_lowercase(voice);
    voice_from_lowered(lower.as_str())
}

impl Voice {
    /// `nam` for the male voice, `nu` for the female one.
    pub fn suffix(&self) -> (s: &'static str)
        ensures
            s@ == voice_suffix(*self),
    {
        proof {
            reveal_strlit("nam");
            reveal_strlit("nu");
        }
        match self {
            Voice::Male => "nam",
            Voice::Female => "nu",
        }
    }

    /// The neural voice that the speech service is asked for.
    pub fn edge_voice(&self) -> (s: &'static str)
        ensures
            s@ == edge_voice_name(*self),
    {
        match self {
            Voice::Male => "vi-VN-NamMinhNeural",
            Voice::Female => "vi-VN-HoaiMyNeural",
        }
    }
}

/// The neural voice that the speech service is asked for.
pub open spec fn edge_voice_name(v: Voice) -> Seq<char> {
    match v {
        Voice::Male => "vi-VN-NamMinhNeural"@,
        Voice::Female => "vi-VN-HoaiMyNeural"@,
    }
}

/// `s` with every `'` preceded by a backslash.
pub open spec fn escape_quotes(s: Seq<char>) -> Seq<char>
    decreases s.len(),
{
    if s.len() == 0 {
        seq![]
    } else if s.last() == '\'' {
        escape_quotes(s.drop_last()) + seq!['\\', '\'']
    } else {
        escape_quotes(s.drop_last()).push(s.last())
    }
}

/// Puts a backslash before every `'` of `s`.
pub fn escape_single_quotes(s: &str) -> (r: String)
    ensures
        r@ == escape_quotes(s@),
{
    let v = chars_of(s);
    let mut r = String::new();
    let n = v.len();
    for i in 0..n
        invariant
            n == v@.len(),
            v@ == s@,
            r@ == escape_quotes(v@.take(i as int)),
    {
        let c = v[i];
        assert(v@.take(i + 1).drop_last() =~= v@.take(i as int));
        if c == '\'' {
            push_char(&mut r, '\\');
            push_char(&mut r, '\'');
        } else {
            push_char(&mut r, c);
        }
        assert(r@ =~= escape_quotes(v@.take(i + 1)));
    }
    assert(v@.take(n as int) =~= v@);
    r
}

/// Fewest bytes that an audio file or download must have to be served.
pub const MIN_AUDIO_BYTES: u64 = 100;

/// Whether audio of `len` bytes is long enough to be served.
pub fn audio_is_usable(len: u64) -> (r: bool)
    ensures
        r == (len >= MIN_AUDIO_BYTES),
{
    len >= MIN_AUDIO_BYTES
}

/// Why a text-to-speech request is refused.
#[derive(Clone, Copy, Debug, PartialEq, Eq, Structural)]
pub enum TtsError {
    /// No text, or only white space.
    MissingText,
}

/// What serving a text-to-speech request needs: the text, the voice, the
/// cache file names to look for (in order), the speech-service settings and
/// the fallback download address.
pub struct TtsPlan {
    pub text: String,
    pub voice: Voice,
    pub file_name: String,
    pub candidates: Vec<String>,
    pub edge_voice: String,
    pub rate: String,
    pub pitch: String,
    pub google_url: String,
}

/// `slug_voice.mp3`: the name under which new audio is stored.
pub open spec fn audio_file_name(slug: Seq<char>, v: Voice) -> Seq<char> {
    slug + seq!['_'] + voice_suffix(v) + seq!['.', 'm', 'p', '3']
}

/// `tts_<digest in hex>_voice.mp3`: the cache name for a digest.
pub open spec fn digest_file_name(digest: Seq<u8>, v: Voice) -> Seq<char> {
    seq!['t', 't', 's', '_'] + hex_lower(digest) + seq!['_'] + voice_suffix(v) + seq![
        '.',
        'm',
        'p',
        '3',
    ]
}

/// `tts_<md5 of "text_voice">_voice.mp3`: the hashed cache name.
pub open spec fn hashed_file_name(text: Seq<char>, v: Voice) -> Seq<char> {
    digest_file_name(md5_of(encode_utf8(text + seq!['_'] + voice_suffix(v))), v)
}

/// The cache file names looked for, in order.
pub open spec fn cache_candidates(slug: Seq<char>, text: Seq<char>, v: Voice) -> Seq<Seq<char>> {
    seq![
        audio_file_name(slug, v),
        audio_file_name(slug, v),
        slug + seq!['.', 'm', 'p', '3'],
        hashed_file_name(text, v),
    ]
}

/// The address of the fallback speech download for a text.
pub open spec fn google_tts_url(text: Seq<char>) -> Seq<char> {
    "https://translate.google.com/translate_tts?ie=UTF-8&q="@ + url_encode(encode_utf8(text))
        + "&tl=vi&client=tw-ob"@
}

/// The text of a request when it has some, trimmed.
pub open spec fn requested_text(params: TtsParams) -> Option<Seq<char>> {
    match params.text {
        Some(t) => if trim(t@).len() > 0 {
            Some(trim(t@))
        } else {
            None
        },
        None => None,
    }
}

/// `value@`, or `default` when there is none.
pub open spec fn or_default(value: Option<String>, default: Seq<char>) -> Seq<char> {
    match value {
        Some(v) => v@,
        None => default,
    }
}

/// The voice a request asks for (the female one unless named otherwise).
pub open spec fn requested_voice(params: TtsParams) -> Voice {
    voice_named(or_default(params.voice, "edge-vi-female"@))
}

/// Whether a request can be planned without cutting its slug inside a
/// character (where the service would fail).
pub open spec fn tts_request_cuttable(params: TtsParams) -> bool {
    match requested_text(params) {
        Some(t) => cuttable(slug_body(t)),
        None => true,
    }
}

fn text_or(value: Option<String>, default: &str) -> (r: String)
    ensures
        r@ == or_default(value, default@),
{
    match value {
        Some(v) => v,
        None => default.to_owned(),
    }
}

/// The cache name for a digest and a voice.
pub fn digest_name(digest: &Vec<u8>, v: Voice) -> (r: String)
    ensures
        r@ == digest_file_name(digest@, v),
{
    let mut r = "tts_".to_owned();
    r.append(to_hex_lower(digest).as_str());
    r.append("_");
    r.append(v.suffix());
    r.append(".mp3");
    proof {
        reveal_strlit("tts_");
        reveal_strlit("_");
        reveal_strlit(".mp3");
    }
    assert("tts_"@ =~= seq!['t', 't', 's', '_']);
    assert(".mp3"@ =~= seq!['.', 'm', 'p', '3']);
    assert(r@ =~= digest_file_name(digest@, v));
    r
}

fn hashed_name(text: &str, v: Voice) -> (r: String)
    ensures
        r@ == hashed_file_name(text@, v),
{
    let mut keyed = text.to_owned();
    keyed.append("_");
    keyed.append(v.suffix());
    proof {
        reveal_strlit("_");
    }
    assert("_"@ =~= seq!['_']);
    assert(keyed@ =~= text@ + seq!['_'] + voice_suffix(v));
    let digest = md5_digest(keyed.as_str().as_bytes());
    digest_name(&digest, v)
}

/// Whether `res` is the answer to a text-to-speech request: refused when the
/// request has no text besides white space; otherwise a plan for the
/// trimmed text, the voice asked for, the slug-based and hashed cache names,
/// and the asked (or default) rate and pitch.
pub open spec fn is_tts_plan(params: TtsParams, res: Result<TtsPlan, TtsError>) -> bool {
    match requested_text(params) {
        None => res == Err::<TtsPlan, TtsError>(TtsError::MissingText),
        Some(t) => res matches Ok(plan) && {
            let v = requested_voice(params);
            let sl = slug(t);
            &&& plan.text@ == t
            &&& plan.voice == v
            &&& plan.file_name@ == audio_file_name(sl, v)
            &&& plan.candidates@.len() == 4
            &&& forall|i: int|
                0 <= i < 4 ==> #[trigger] plan.candidates@[i]@ == cache_candidates(sl, t, v)[i]
            &&& plan.edge_voice@ == edge_voice_name(v)
            &&& plan.rate@ == or_default(params.rate, "+0%"@)
            &&& plan.pitch@ == or_default(params.pitch, "+0Hz"@)
            &&& plan.google_url@ == google_tts_url(t)
        },
    }
}

/// Works out how to serve a text-to-speech request.
pub fn plan_tts(params: TtsParams) -> (res: Result<TtsPlan, TtsError>)
    requires
        tts_request_cuttable(params),
    ensures
        is_tts_plan(params, res),
{
    let raw = match params.text {
        Some(t) => t,
        None => {
            return Err(TtsError::MissingText);
        },
    };
    let text = trim_str(raw.as_str()).to_owned();
    if text.as_str().is_empty() {
        return Err(TtsError::MissingText);
    }
    let voice_name = text_or(params.voice, "edge-vi-female");
    let voice = voice_of(voice_name.as_str());
    let suffix = voice.suffix();
    let slug = safe_slug(text.as_str());
    let mut file_name = slug.clone();
    file_name.append("_");
    file_name.append(suffix);
    file_name.append(".mp3");
    let mut plain_name = slug.clone();
    plain_name.append(".mp3");
    let mut candidates: Vec<String> = Vec::new();
    candidates.push(file_name.clone());
    candidates.push(file_name.clone());
    candidates.push(plain_name);
    candidates.push(hashed_name(text.as_str(), voice));
    let mut google_url = "https://translate.google.com/translate_tts?ie=UTF-8&q=".to_owned();
    google_url.append(urlencoding_encode(text.as_str()).as_str());
    google_url.append("&tl=vi&client=tw-ob");
    proof {
        reveal_strlit("_");
        reveal_strlit(".mp3");
    }
    let plan = TtsPlan {
        text,
        voice,
        file_name,
        candidates,
        edge_voice: voice.edge_voice().to_owned(),
        rate: text_or(params.rate, "+0%"),
        pitch: text_or(params.pitch, "+0Hz"),
        google_url,
    };
    assert(plan.file_name@ =~= audio_file_name(slug@, voice));
    assert(plan.candidates@[2]@ =~= slug@ + seq!['.', 'm', 'p', '3']);
    Ok(plan)
}

/// Works out how to serve a text-to-speech request, or gives `None` where the
/// slug of the text would have to be cut inside a character.
pub fn checked_plan_tts(params: TtsParams) -> (res: Option<Result<TtsPlan, TtsError>>)
    ensures
        res is None <==> !tts_request_cuttable(params),
        res matches Some(r) ==> is_tts_plan(params, r),
{
    if let Some(t) = &params.text {
        let trimmed = trim_str(t.as_str());
        if !trimmed.is_empty() {
            let body = slug_body_of(trimmed);
            let b = body.as_str();
            if b.as_bytes().len() > MAX_SLUG_BYTES && !b.is_char_boundary(MAX_SLUG_BYTES) {
                return None;
            }
        }
    }
    Some(plan_tts(params))
}

impl TtsPlan {
    /// The Python program that asks the neural speech service to write the
    /// audio to `target`.
    pub fn edge_tts_script(&self, target: &str) -> (r: String)
        ensures
            r@ == "import edge_tts, asyncio; asyncio.run(edge_tts.Communicate('''"@ + escape_quotes(
                self.text@,
            ) + "''', '"@ + self.edge_voice@ + "', rate='"@ + self.rate@ + "', pitch='"@
                + self.pitch@ + "').save(r'"@ + target@ + "'))"@,
    {
        let mut r = "import edge_tts, asyncio; asyncio.run(edge_tts.Communicate('''".to_owned();
        r.append(escape_single_quotes(self.text.as_str()).as_str());
        r.append("''', '");
        r.append(self.edge_voice.as_str());
        r.append("', rate='");
        r.append(self.rate.as_str());
        r.append("', pitch='");
        r.append(self.pitch.as_str());
        r.append("').save(r'");
        r.append(target);
        r.append("'))");
        r
    }
}

} // verus!

//! What a Base64 reader makes of the credentials that arrive on the wire.

use crate::authentication::basic_credentials;
use vstd::prelude::*;
use vstd::utf8::*;

verus! {

/// The six bits that a character of the standard Base64 alphabet stands for.
pub open spec fn base64_value(c: char) -> Option<int> {
    if 'A' <= c <= 'Z' {
        Some(c as int - 'A' as int)
    } else if 'a' <= c <= 'z' {
        Some(c as int - 'a' as int + 26)
    } else if '0' <= c <= '9' {
        Some(c as int - '0' as int + 52)
    } else if c == '+' {
        Some(62)
    } else if c == '/' {
        Some(63)
    } else {
        None
    }
}

/// Reads the last group of a text, which ends in `=`: one byte or two. Bits that no byte takes
/// have to be zero.
pub open spec fn read_padded_group(text: Seq<char>) -> Option<Seq<u8>> {
    match (base64_value(text[0]), base64_value(text[1]), base64_value(text[2])) {
        (Some(a), Some(b), Some(c)) => if c % 4 == 0 {
            Some(seq![(a * 4 + b / 16) as u8, (b % 16 * 16 + c / 4) as u8])
        } else {
            None
        },
        (Some(a), Some(b), None) => if text[2] == '=' && b % 16 == 0 {
            Some(seq![(a * 4 + b / 16) as u8])
        } else {
            None
        },
        _ => None,
    }
}

/// Reads a group of four characters: three bytes.
pub open spec fn read_group(text: Seq<char>) -> Option<Seq<u8>> {
    match (
        base64_value(text[0]),
        base64_value(text[1]),
        base64_value(text[2]),
        base64_value(text[3]),
    ) {
        (Some(a), Some(b), Some(c), Some(d)) => Some(
            seq![
                (a * 4 + b / 16) as u8,
                (b % 16 * 16 + c / 4) as u8,
                (c % 4 * 64 + d) as u8,
            ],
        ),
        _ => None,
    }
}

/// Reads a text as padded Base64 in the standard alphabet (RFC 4648, section 4).
pub open spec fn read_base64(text: Seq<char>) -> Option<Seq<u8>>
    decreases text.len(),
{
    if text.len() == 0 {
        Some(seq![])
    } else if text.len() < 4 {
        None
    } else if text.len() == 4 && text[3] == '=' {
        read_padded_group(text)
    } else {
        match (read_group(text), read_base64(text.skip(4))) {
            (Some(bytes), Some(rest)) => Some(bytes + rest),
            _ => None,
        }
    }
}

/// The characters of the alphabet, in the order of their values.
pub proof fn law_the_alphabet_is_the_standard_one(bits: int)
    requires
        0 <= bits < 64,
    ensures
        basic_credentials::base64_digit(bits)
            == "ABCDEFGHIJKLMNOPQRSTUVWXYZabcdefghijklmnopqrstuvwxyz0123456789+/"@[bits],
{
    reveal_strlit("ABCDEFGHIJKLMNOPQRSTUVWXYZabcdefghijklmnopqrstuvwxyz0123456789+/");
}

proof fn lemma_digit_value(bits: int)
    requires
        0 <= bits < 64,
    ensures
        base64_value(basic_credentials::base64_digit(bits)) == Some(bits),
{
}

proof fn lemma_value_digit(c: char)
    ensures
        base64_value(c) matches Some(bits) ==> 0 <= bits < 64
            && basic_credentials::base64_digit(bits) == c,
{
}

proof fn lemma_read_group(a: u8, b: u8, c: u8, rest: Seq<char>)
    ensures
        read_group(
            seq![
                basic_credentials::base64_digit(a as int / 4),
                basic_credentials::base64_digit(a as int % 4 * 16 + b as int / 16),
                basic_credentials::base64_digit(b as int % 16 * 4 + c as int / 64),
                basic_credentials::base64_digit(c as int % 64),
            ] + rest,
        ) == Some(seq![a, b, c]),
{
    lemma_digit_value(a as int / 4);
    lemma_digit_value(a as int % 4 * 16 + b as int / 16);
    lemma_digit_value(b as int % 16 * 4 + c as int / 64);
    lemma_digit_value(c as int % 64);
}

/// Base64 is read back: a reader gets exactly the bytes that were written.
pub proof fn law_base64_is_read_back(bytes: Seq<u8>)
    ensures
        read_base64(basic_credentials::base64_text(bytes)) == Some(bytes),
    decreases bytes.len(),
{
    let text = basic_credentials::base64_text(bytes);
    if bytes.len() == 0 {
        assert(bytes =~= seq![]);
    } else if bytes.len() == 1 {
        let a = bytes[0];
        lemma_digit_value(a as int / 4);
        lemma_digit_value(a as int % 4 * 16);
        assert(bytes =~= seq![a]);
    } else if bytes.len() == 2 {
        let a = bytes[0];
        let b = bytes[1];
        lemma_digit_value(a as int / 4);
        lemma_digit_value(a as int % 4 * 16 + b as int / 16);
        lemma_digit_value(b as int % 16 * 4);
        assert(bytes =~= seq![a, b]);
    } else {
        let rest = basic_credentials::base64_text(bytes.skip(3));
        law_base64_is_read_back(bytes.skip(3));
        lemma_read_group(bytes[0], bytes[1], bytes[2], rest);
        lemma_digit_value(bytes[2] as int % 64);
        assert(text.skip(4) =~= rest);
        assert(bytes =~= seq![bytes[0], bytes[1], bytes[2]] + bytes.skip(3));
    }
}

proof fn lemma_padded_group_is_written(text: Seq<char>, bytes: Seq<u8>)
    requires
        text.len() == 4,
        text[3] == '=',
        read_padded_group(text) == Some(bytes),
    ensures
        text == basic_credentials::base64_text(bytes),
{
    lemma_value_digit(text[0]);
    lemma_value_digit(text[1]);
    lemma_value_digit(text[2]);
    assert(text =~= basic_credentials::base64_text(bytes));
}

proof fn lemma_group_is_written(text: Seq<char>, group: Seq<u8>, rest: Seq<u8>)
    requires
        text.len() >= 4,
        read_group(text) == Some(group),
        text.skip(4) == basic_credentials::base64_text(rest),
    ensures
        text == basic_credentials::base64_text(group + rest),
{
    lemma_value_digit(text[0]);
    lemma_value_digit(text[1]);
    lemma_value_digit(text[2]);
    lemma_value_digit(text[3]);
    let bytes = group + rest;
    assert(bytes.skip(3) =~= rest);
    assert(text =~= text.take(4) + text.skip(4));
    assert(text =~= basic_credentials::base64_text(bytes));
}

/// A text that reads as some bytes is the one text that is written for them.
pub proof fn law_base64_is_written_in_one_way(text: Seq<char>, bytes: Seq<u8>)
    requires
        read_base64(text) == Some(bytes),
    ensures
        text == basic_credentials::base64_text(bytes),
    decreases text.len(),
{
    if text.len() == 0 {
        assert(text =~= basic_credentials::base64_text(bytes));
    } else if text.len() == 4 && text[3] == '=' {
        lemma_padded_group_is_written(text, bytes);
    } else {
        let group = read_group(text)->0;
        let rest = read_base64(text.skip(4))->0;
        law_base64_is_written_in_one_way(text.skip(4), rest);
        lemma_group_is_written(text, group, rest);
    }
}

/// Base64 takes four characters for each three bytes or part of them, all of them from its
/// alphabet or padding.
pub proof fn law_base64_has_its_length(bytes: Seq<u8>)
    ensures
        basic_credentials::base64_text(bytes).len() == (bytes.len() + 2) / 3 * 4,
        forall|i: int|
            0 <= i < basic_credentials::base64_text(bytes).len() ==> base64_value(
                #[trigger] basic_credentials::base64_text(bytes)[i],
            ) is Some || basic_credentials::base64_text(bytes)[i] == '=',
    decreases bytes.len(),
{
    assert forall|bits: int| 0 <= bits < 64 implies base64_value(
        #[trigger] basic_credentials::base64_digit(bits),
    ) is Some by {
        lemma_digit_value(bits);
    }
    if bytes.len() > 3 {
        law_base64_has_its_length(bytes.skip(3));
        let rest = basic_credentials::base64_text(bytes.skip(3));
        let text = basic_credentials::base64_text(bytes);
        assert(text.skip(4) =~= rest);
        assert forall|i: int| 4 <= i < text.len() implies base64_value(#[trigger] text[i]) is Some
            || text[i] == '=' by {
            assert(text[i] == rest[i - 4]);
        }
    } else if bytes.len() == 3 {
        assert(bytes.skip(3) =~= seq![]);
    }
}

/// The credentials of a client are the Base64 of the name, a colon and the password: a reader gets
/// back those bytes, and no other text reads as them.
pub proof fn law_credentials_read_as_the_pair(
    username: Seq<char>,
    password: Seq<char>,
    text: Seq<char>,
)
    ensures
        read_base64(basic_credentials::credential(username, password)) == Some(
            encode_utf8(username + seq![':'] + password),
        ),
        read_base64(text) == Some(encode_utf8(username + seq![':'] + password)) <==> text
            == basic_credentials::credential(username, password),
{
    let bytes = encode_utf8(username + seq![':'] + password);
    law_base64_is_read_back(bytes);
    if read_base64(text) == Some(bytes) {
        law_base64_is_written_in_one_way(text, bytes);
    }
}

/// Decoded credentials are the pair as text: the name, the first colon where the name holds none,
/// and the password.
pub proof fn law_credentials_decode_to_the_pair(username: Seq<char>, password: Seq<char>)
    ensures
        read_base64(basic_credentials::credential(username, password)) matches Some(bytes)
            && valid_utf8(bytes) && {
            let pair = decode_utf8(bytes);
            &&& pair.len() == username.len() + 1 + password.len()
            &&& pair.take(username.len() as int) == username
            &&& pair[username.len() as int] == ':'
            &&& pair.skip(username.len() as int + 1) == password
        },
{
    let pair = username + seq![':'] + password;
    law_credentials_read_as_the_pair(username, password, seq![]);
    encode_utf8_valid_utf8(pair);
    encode_utf8_decode_utf8(pair);
    assert(pair.take(username.len() as int) =~= username);
    assert(pair.skip(username.len() as int + 1) =~= password);
}

} // verus!

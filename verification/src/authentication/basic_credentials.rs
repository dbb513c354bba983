//! The credentials of a `Proxy-Authorization` header: the Base64 form of `username:password`.

use base64::engine::general_purpose::STANDARD;
use base64::Engine;
use crate::authentication::base64_reading;
use vstd::prelude::*;
use vstd::string::*;
use vstd::utf8::*;

verus! {

/// The character of the standard Base64 alphabet (RFC 4648, section 4) for a group of six bits.
pub open spec fn base64_digit(bits: int) -> char
    recommends
        0 <= bits < 64,
{
    if bits < 26 {
        ('A' as int + bits) as char
    } else if bits < 52 {
        ('a' as int + (bits - 26)) as char
    } else if bits < 62 {
        ('0' as int + (bits - 52)) as char
    } else if bits == 62 {
        '+'
    } else {
        '/'
    }
}

/// The standard Base64 form of `bytes`, with padding: each three bytes make four groups of six
/// bits, and the last one or two bytes are filled up with zero bits and `=`.
pub open spec fn base64_text(bytes: Seq<u8>) -> Seq<char>
    decreases bytes.len(),
{
    let a = bytes[0] as int;
    let b = bytes[1] as int;
    let c = bytes[2] as int;
    if bytes.len() == 0 {
        seq![]
    } else if bytes.len() == 1 {
        seq![base64_digit(a / 4), base64_digit(a % 4 * 16), '=', '=']
    } else if bytes.len() == 2 {
        seq![
            base64_digit(a / 4),
            base64_digit(a % 4 * 16 + b / 16),
            base64_digit(b % 16 * 4),
            '=',
        ]
    } else {
        seq![
            base64_digit(a / 4),
            base64_digit(a % 4 * 16 + b / 16),
            base64_digit(b % 16 * 4 + c / 64),
            base64_digit(c % 64),
        ] + base64_text(bytes.skip(3))
    }
}

/// What a client with this name and password is asked to prove: `username:password`.
pub open spec fn user_pass(username: Seq<char>, password: Seq<char>) -> Seq<char> {
    username + seq![':'] + password
}

/// The credentials of a client as they arrive on the wire.
pub open spec fn credential(username: Seq<char>, password: Seq<char>) -> Seq<char> {
    base64_text(encode_utf8(user_pass(username, password)))
}

/// Six bits and their character determine each other, and no character is the padding.
proof fn lemma_base64_digit()
    ensures
        forall|x: int| 0 <= x < 64 ==> #[trigger] base64_digit(x) != '=',
        forall|x: int, y: int|
            0 <= x < 64 && 0 <= y < 64 && #[trigger] base64_digit(x) == #[trigger] base64_digit(y)
                ==> x == y,
{
}

/// Base64 loses nothing: two byte strings with the same Base64 form are the same.
pub proof fn law_base64_is_injective(left: Seq<u8>, right: Seq<u8>)
    requires
        base64_text(left) == base64_text(right),
    ensures
        left == right,
    decreases left.len(),
{
    lemma_base64_digit();
    let x = base64_text(left);
    let y = base64_text(right);
    if left.len() > 0 && right.len() > 0 {
        assert(x[0] == y[0] && x[1] == y[1] && x[2] == y[2] && x[3] == y[3]);
        if left.len() >= 3 && right.len() >= 3 {
            assert(x.skip(4) =~= base64_text(left.skip(3)));
            assert(y.skip(4) =~= base64_text(right.skip(3)));
            law_base64_is_injective(left.skip(3), right.skip(3));
            assert(left =~= seq![left[0], left[1], left[2]] + left.skip(3));
            assert(right =~= seq![right[0], right[1], right[2]] + right.skip(3));
        } else {
            assert(left =~= right);
        }
    } else {
        assert(left.len() > 0 ==> x.len() >= 4);
        assert(right.len() > 0 ==> y.len() >= 4);
        assert(left =~= right);
    }
}

/// Two clients have the same credentials exactly when they have the same `username:password`.
pub proof fn law_credentials_are_faithful(
    username: Seq<char>,
    password: Seq<char>,
    other_username: Seq<char>,
    other_password: Seq<char>,
)
    ensures
        credential(username, password) == credential(other_username, other_password)
            <==> user_pass(username, password) == user_pass(other_username, other_password),
{
    let text = user_pass(username, password);
    let other = user_pass(other_username, other_password);
    if credential(username, password) == credential(other_username, other_password) {
        law_base64_is_injective(encode_utf8(text), encode_utf8(other));
        encode_utf8_decode_utf8(text);
        encode_utf8_decode_utf8(other);
    }
}

/// The pair is the name, one colon and the password, in that order and with nothing else.
pub proof fn law_the_pair_is_name_colon_password(username: Seq<char>, password: Seq<char>)
    ensures
        user_pass(username, password).len() == username.len() + 1 + password.len(),
        user_pass(username, password).take(username.len() as int) == username,
        user_pass(username, password)[username.len() as int] == ':',
        user_pass(username, password).skip(username.len() as int + 1) == password,
{
    let pair = user_pass(username, password);
    assert(pair.take(username.len() as int) =~= username);
    assert(pair.skip(username.len() as int + 1) =~= password);
}

/// Where usernames hold no colon, the credentials settle both the username and the password.
pub proof fn law_credentials_settle_the_client(
    username: Seq<char>,
    password: Seq<char>,
    other_username: Seq<char>,
    other_password: Seq<char>,
)
    requires
        !username.contains(':'),
        !other_username.contains(':'),
        credential(username, password) == credential(other_username, other_password),
    ensures
        username == other_username,
        password == other_password,
{
    law_credentials_are_faithful(username, password, other_username, other_password);
    let text = user_pass(username, password);
    let other = user_pass(other_username, other_password);
    let n = username.len() as int;
    let m = other_username.len() as int;
    assert(text[n] == ':' && other[m] == ':');
    if n < m {
        assert(other[n] == other_username[n]);
    } else if m < n {
        assert(text[m] == username[m]);
    }
    assert(username =~= text.take(n));
    assert(other_username =~= other.take(m));
    assert(password =~= text.skip(n + 1));
    assert(other_password =~= other.skip(m + 1));
}

/// Encodes with `base64::Engine::encode` of `base64::engine::general_purpose::STANDARD`.
///
/// Trusted: the text is the padded Base64 form of the bytes in the standard alphabet. The length
/// of the text always fits in `usize`, since no slice holds more than `isize::MAX` bytes. Running
/// out of memory is left out of account, as it is for every growing `Vec` or `String`.
#[verifier::external_body]
fn base64_encode(bytes: &[u8]) -> (text: String)
    ensures
        text@ == base64_text(bytes@),
{
    STANDARD.encode(bytes)
}

/// The credentials with which a client of this name and password is recognised.
pub(crate) fn encode_credentials(username: &str, password: &str) -> (text: String)
    ensures
        text@ == credential(username@, password@),
        base64_reading::read_base64(text@) == Some(
            encode_utf8(username@ + seq![':'] + password@),
        ),
{
    let mut pair = username.to_owned();
    pair.append(":");
    pair.append(password);
    proof {
        reveal_strlit(":");
        assert(pair@ =~= user_pass(username@, password@));
        base64_reading::law_credentials_read_as_the_pair(username@, password@, seq![]);
    }
    base64_encode(pair.as_str().as_bytes())
}

} // verus!

//! The admin secret: random bytes in URL-safe Base64 text, created once and kept.

use vstd::prelude::*;
use rand::RngCore;
use base64::Engine;
use crate::path::join_path;
use crate::text::{
    chars_of, lemma_trim_end_last, map_char, push_str, replace_char, string_of, trim_end, trim_end_char,
};

verus! {

/// The character of a 6-bit value in the standard Base64 alphabet
/// `A`-`Z`, `a`-`z`, `0`-`9`, `+`, `/`.
pub open spec fn base64_digit(v: int) -> char {
    if v < 26 {
        (65 + v) as char
    } else if v < 52 {
        (97 + v - 26) as char
    } else if v < 62 {
        (48 + v - 52) as char
    } else if v == 62 {
        '+'
    } else {
        '/'
    }
}

/// Standard Base64 with `=` padding: each group of three bytes becomes four
/// characters, one per six bits from the most significant; a last group of two
/// bytes becomes three characters and `=`, of one byte two characters and `==`.
pub open spec fn base64_standard(bytes: Seq<u8>) -> Seq<char>
    decreases bytes.len(),
{
    if bytes.len() == 0 {
        seq![]
    } else if bytes.len() == 1 {
        seq![base64_digit((bytes[0] as int) / 4), base64_digit(((bytes[0] as int) % 4) * 16), '=', '=']
    } else if bytes.len() == 2 {
        seq![
            base64_digit((bytes[0] as int) / 4),
            base64_digit(((bytes[0] as int) % 4) * 16 + (bytes[1] as int) / 16),
            base64_digit(((bytes[1] as int) % 16) * 4),
            '=',
        ]
    } else {
        seq![
            base64_digit((bytes[0] as int) / 4),
            base64_digit(((bytes[0] as int) % 4) * 16 + (bytes[1] as int) / 16),
            base64_digit(((bytes[1] as int) % 16) * 4 + (bytes[2] as int) / 64),
            base64_digit((bytes[2] as int) % 64),
        ] + base64_standard(bytes.subrange(3, bytes.len() as int))
    }
}

/// A character of the standard Base64 alphabet: `A`-`Z`, `a`-`z`, `0`-`9`, `+` and `/`.
pub open spec fn is_base64_char(c: char) -> bool {
    ('A' <= c <= 'Z') || ('a' <= c <= 'z') || ('0' <= c <= '9') || c == '+' || c == '/'
}

/// A character of the URL-safe Base64 alphabet: `A`-`Z`, `a`-`z`, `0`-`9`, `-` and `_`.
pub open spec fn is_url_safe_char(c: char) -> bool {
    ('A' <= c <= 'Z') || ('a' <= c <= 'z') || ('0' <= c <= '9') || c == '-' || c == '_'
}

/// The number of `=` that pad the Base64 text of `n` bytes to whole groups of four.
pub open spec fn padding_len(n: nat) -> nat {
    ((3 - n % 3) % 3) as nat
}

/// Calls `base64::engine::general_purpose::STANDARD.encode`; claimed: the result
/// is the standard, padded Base64 text of the bytes. The crate panics when the
/// output length does not fit a `usize`, which `requires` rules out.
#[verifier::external_body]
fn base64_encode(bytes: &[u8]) -> (s: String)
    requires
        bytes@.len() / 3 * 4 + 4 <= usize::MAX,
    ensures
        s@ == base64_standard(bytes@),
{
    base64::engine::general_purpose::STANDARD.encode(bytes)
}

/// Every 6-bit value has a character of the standard alphabet.
proof fn lemma_base64_digit(v: int)
    requires
        0 <= v < 64,
    ensures
        is_base64_char(base64_digit(v)),
{
}

/// Standard Base64 text has four characters per started group of three bytes:
/// characters of the alphabet, then the padding `=`.
pub proof fn lemma_base64_shape(bytes: Seq<u8>)
    ensures
        base64_standard(bytes).len() == 4 * ((bytes.len() + 2) / 3),
        forall|i: int|
            0 <= i < base64_standard(bytes).len() - padding_len(bytes.len()) ==> is_base64_char(
                #[trigger] base64_standard(bytes)[i],
            ),
        forall|i: int|
            base64_standard(bytes).len() - padding_len(bytes.len()) <= i < base64_standard(bytes).len()
                ==> #[trigger] base64_standard(bytes)[i] == '=',
    decreases bytes.len(),
{
    let s = base64_standard(bytes);
    if bytes.len() >= 1 {
        lemma_base64_digit((bytes[0] as int) / 4);
    }
    if bytes.len() == 1 {
        lemma_base64_digit(((bytes[0] as int) % 4) * 16);
    } else if bytes.len() == 2 {
        lemma_base64_digit(((bytes[0] as int) % 4) * 16 + (bytes[1] as int) / 16);
        lemma_base64_digit(((bytes[1] as int) % 16) * 4);
    } else if bytes.len() >= 3 {
        lemma_base64_digit(((bytes[0] as int) % 4) * 16 + (bytes[1] as int) / 16);
        lemma_base64_digit(((bytes[1] as int) % 16) * 4 + (bytes[2] as int) / 64);
        lemma_base64_digit((bytes[2] as int) % 64);
        let rest = bytes.subrange(3, bytes.len() as int);
        lemma_base64_shape(rest);
        let t = base64_standard(rest);
        assert(padding_len(rest.len()) == padding_len(bytes.len()));
        assert forall|i: int| 4 <= i < s.len() implies #[trigger] s[i] == t[i - 4] by {}
    }
}

/// Calls `rand::rng().fill_bytes` on a zeroed buffer of `n` bytes. The bytes are
/// random, so only their number is stated. (`rand` panics when the operating
/// system provides no entropy at all.)
#[verifier::external_body]
fn random_bytes(n: usize) -> (v: Vec<u8>)
    ensures
        v@.len() == n,
{
    let mut buf = vec![0u8; n];
    rand::rng().fill_bytes(&mut buf);
    buf
}

/// Base64 text made URL-safe: trailing `=` dropped, `+` turned into `-` and `/` into `_`.
pub open spec fn url_safe(encoded: Seq<char>) -> Seq<char> {
    map_char(map_char(trim_end_char(encoded, '='), '+', '-'), '/', '_')
}

/// The secret text of the given bytes: their URL-safe Base64 text without padding.
pub open spec fn secret_text(bytes: Seq<u8>) -> Seq<char> {
    url_safe(base64_standard(bytes))
}

/// The length of the secret text of `n` bytes: four characters per three bytes, rounded up.
pub open spec fn secret_len(n: nat) -> nat {
    (4 * n + 2) / 3
}

/// The secret text of `bytes`: URL-safe characters only, four per three bytes rounded up.
pub fn secret_from_bytes(bytes: &[u8]) -> (s: String)
    requires
        bytes@.len() / 3 * 4 + 4 <= usize::MAX,
    ensures
        s@ == secret_text(bytes@),
        s@.len() == secret_len(bytes@.len()),
        forall|i: int| 0 <= i < s@.len() ==> is_url_safe_char(#[trigger] s@[i]),
{
    let b64 = base64_encode(bytes);
    let v = chars_of(b64.as_str());
    let ghost n = bytes@.len();
    proof {
        lemma_base64_shape(bytes@);
    }
    let ghost keep = v@.len() - padding_len(n);
    proof {
        lemma_trim_padding(v@, keep);
    }
    let v = trim_end(&v, '=');
    let w = replace_char(&v, '+', '-');
    let u = replace_char(&w, '/', '_');
    assert forall|i: int| 0 <= i < u@.len() implies is_url_safe_char(#[trigger] u@[i]) by {
        assert(is_base64_char(v@[i]));
        assert(w@[i] == (if v@[i] == '+' { '-' } else { v@[i] }));
    }
    assert(keep == secret_len(n)) by {
        assert(n % 3 == 0 || n % 3 == 1 || n % 3 == 2);
    }
    string_of(&u)
}

proof fn lemma_trim_padding(s: Seq<char>, keep: int)
    requires
        0 <= keep <= s.len(),
        forall|i: int| 0 <= i < keep ==> is_base64_char(#[trigger] s[i]),
        forall|i: int| keep <= i < s.len() ==> #[trigger] s[i] == '=',
    ensures
        trim_end_char(s, '=') == s.subrange(0, keep),
    decreases s.len(),
{
    if s.len() > keep {
        assert(s.drop_last().subrange(0, keep) =~= s.subrange(0, keep));
        lemma_trim_padding(s.drop_last(), keep);
    } else {
        assert(s.subrange(0, keep) =~= s);
        if s.len() > 0 {
            assert(is_base64_char(s[s.len() - 1]));
        }
    }
}

/// A fresh secret made of `bytes` random bytes.
pub fn gen_secret(bytes: usize) -> (s: String)
    requires
        bytes / 3 * 4 + 4 <= usize::MAX,
    ensures
        exists|b: Seq<u8>| b.len() == bytes && s@ == secret_text(b),
        s@.len() == secret_len(bytes as nat),
        forall|i: int| 0 <= i < s@.len() ==> is_url_safe_char(#[trigger] s@[i]),
{
    let buf = random_bytes(bytes);
    let s = secret_from_bytes(buf.as_slice());
    assert(buf@.len() == bytes && s@ == secret_text(buf@));
    s
}

/// The admin secret to use: the one already stored, or a newly made one that must now be stored.
pub enum AdminSecret {
    Stored(String),
    Created(String),
}

impl AdminSecret {
    /// The secret text, wherever it came from.
    pub fn secret(self) -> (s: String)
        ensures
            match self {
                AdminSecret::Stored(t) => s == t,
                AdminSecret::Created(t) => s == t,
            },
    {
        match self {
            AdminSecret::Stored(t) => t,
            AdminSecret::Created(t) => t,
        }
    }
}

/// Keeps a stored admin secret, or makes a new one of 13 random bytes when none is stored.
pub fn get_or_create_admin_secret(stored: Option<String>) -> (r: AdminSecret)
    ensures
        stored matches Some(s) ==> r == AdminSecret::Stored(s),
        stored is None ==> (r matches AdminSecret::Created(t) && t@.len() == 18 && (exists|b: Seq<u8>|
            b.len() == 13 && t@ == secret_text(b)) && forall|i: int|
            0 <= i < t@.len() ==> is_url_safe_char(#[trigger] t@[i])),
{
    match stored {
        Some(secret) => AdminSecret::Stored(secret),
        None => AdminSecret::Created(gen_secret(13)),
    }
}

/// `{var}/{name}/.secret.{secret}`: the file whose presence grants a login.
pub open spec fn secret_file_text(var: Seq<char>, name: Seq<char>, secret: Seq<char>) -> Seq<char> {
    join_path(join_path(var, name), ".secret."@ + secret)
}

/// Where the login file for `name` with the given secret is created.
pub fn secret_file_path(var: &str, name: &str, secret: &str) -> (r: String)
    ensures
        r@ == secret_file_text(var@, name@, secret@),
{
    let dir = crate::path::join(var, name);
    let mut v = chars_of(".secret.");
    push_str(&mut v, secret);
    crate::path::join(dir.as_str(), string_of(&v).as_str())
}

/// Secret text is safe in URLs and file names: it holds no `+` and no `/`,
/// and it does not end with `=`.
pub proof fn law_secret_text_is_url_safe(bytes: Seq<u8>)
    ensures
        !secret_text(bytes).contains('+'),
        !secret_text(bytes).contains('/'),
        secret_text(bytes).len() > 0 ==> secret_text(bytes).last() != '=',
{
    let t = trim_end_char(base64_standard(bytes), '=');
    lemma_trim_end_last(base64_standard(bytes), '=');
    let a = map_char(t, '+', '-');
    let s = map_char(a, '/', '_');
    assert forall|i: int| 0 <= i < s.len() implies s[i] != '+' && s[i] != '/' by {
        assert(a[i] == (if t[i] == '+' { '-' } else { t[i] }));
    }
    if s.len() > 0 {
        assert(t.last() != '=');
        assert(a[a.len() - 1] == (if t[t.len() - 1] == '+' { '-' } else { t[t.len() - 1] }));
    }
}

/// Secret text is the standard Base64 text of the bytes without its `=`
/// padding, character by character, with `+` written `-` and `/` written `_`.
pub proof fn law_secret_text_is_url_safe_base64(bytes: Seq<u8>)
    ensures
        secret_text(bytes).len() == base64_standard(bytes).len() - padding_len(bytes.len()),
        forall|i: int|
            0 <= i < secret_text(bytes).len() ==> #[trigger] secret_text(bytes)[i] == (if base64_standard(
                bytes,
            )[i] == '+' {
                '-'
            } else if base64_standard(bytes)[i] == '/' {
                '_'
            } else {
                base64_standard(bytes)[i]
            }),
{
    let b = base64_standard(bytes);
    lemma_base64_shape(bytes);
    let keep = b.len() - padding_len(bytes.len());
    assert(0 <= keep) by {
        assert(bytes.len() % 3 == 0 || bytes.len() % 3 == 1 || bytes.len() % 3 == 2);
    }
    lemma_trim_padding(b, keep);
    let t = trim_end_char(b, '=');
    let a = map_char(t, '+', '-');
    let s2 = map_char(a, '/', '_');
    assert forall|i: int| 0 <= i < s2.len() implies #[trigger] s2[i] == (if b[i] == '+' {
        '-'
    } else if b[i] == '/' {
        '_'
    } else {
        b[i]
    }) by {
        assert(t[i] == b[i]);
        assert(a[i] == (if t[i] == '+' { '-' } else { t[i] }));
    }
}

} // verus!

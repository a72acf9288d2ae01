//! Who may hand in results: bearer tokens and signed web hooks.
use crate::text;
use headers::authorization::Bearer;
use headers::{Authorization, Header};
use http::HeaderValue;
use ring::hmac;
use vstd::prelude::*;
use vstd::string::*;
use vstd::utf8::*;

verus! {

/// Whether a byte of a header is a visible ASCII character, a space or a tab.
pub open spec fn is_visible(b: u8) -> bool {
    32 <= b < 127 || b == 9
}

/// The text of a header's value, if all of it is visible.
pub open spec fn header_text(value: Seq<u8>) -> Option<Seq<char>> {
    if forall|i: int| 0 <= i < value.len() ==> is_visible(#[trigger] value[i]) {
        Some(Seq::new(value.len(), |i: int| value[i] as char))
    } else {
        None
    }
}

/// Calls `http::HeaderValue::to_str` on a header whose value is `value`. It yields the text if
/// the value holds nothing but visible ASCII characters, spaces and tabs. Bytes that no header
/// can hold (`HeaderValue::from_bytes` refuses them) are not among those either.
#[verifier::external_body]
fn header_to_str(value: &[u8]) -> (res: Option<String>)
    ensures
        match res {
            Some(s) => header_text(value@) == Some(s@),
            None => header_text(value@) is None,
        },
{
    HeaderValue::from_bytes(value).ok()?.to_str().ok().map(String::from)
}

/// The token of an `Authorization` header of the scheme `Bearer`: the visible text behind the
/// scheme's name and one space.
pub open spec fn bearer_token(value: Seq<u8>) -> Option<Seq<char>> {
    match header_text(value) {
        Some(s) => if text::occurs_at(s, "Bearer "@, 0) {
            Some(s.skip(7))
        } else {
            None
        },
        None => None,
    }
}

/// Calls `headers::Authorization::<Bearer>::decode` on a header whose value is `value`, and
/// `token` on what it yields. A value decodes if it starts with `Bearer` and a space and all of
/// it is visible text; the token is what stands behind the space.
#[verifier::external_body]
fn decode_authorization(value: &[u8]) -> (res: Option<String>)
    ensures
        match res {
            Some(token) => bearer_token(value@) == Some(token@),
            None => bearer_token(value@) is None,
        },
{
    let value = HeaderValue::from_bytes(value).ok()?;
    let auth = Authorization::<Bearer>::decode(&mut Some(&value).into_iter()).ok()?;
    Some(auth.0.token().to_string())
}

/// The token of an `Authorization` header, if the header decodes.
pub fn decode_bearer(value: &[u8]) -> (res: Option<String>)
    ensures
        match res {
            Some(token) => bearer_token(value@) == Some(token@),
            None => bearer_token(value@) is None,
        },
{
    decode_authorization(value)
}

/// Whether a request with this `Authorization` header carries the secret.
pub open spec fn carries_secret(authorization: Option<Seq<u8>>, secret: Seq<char>) -> bool {
    authorization matches Some(value) && bearer_token(value) == Some(secret)
}

/// The view of an optional header.
pub open spec fn header_view(header: Option<&[u8]>) -> Option<Seq<u8>> {
    match header {
        Some(value) => Some(value@),
        None => None,
    }
}

/// Whether the site's secret is there to check a bearer token against, and the token decodes.
pub open spec fn can_check_auth(authorization: Option<Seq<u8>>, secret: Option<&str>) -> bool {
    authorization matches Some(value) ==> bearer_token(value) is Some && secret is Some
}

/// Whether the site's secret is there to check a bearer token against, and the token decodes.
pub fn is_auth_checkable(authorization: Option<&[u8]>, secret: Option<&str>) -> (res: bool)
    ensures
        res == can_check_auth(header_view(authorization), secret),
{
    match authorization {
        Some(value) => decode_bearer(value).is_some() && secret.is_some(),
        None => true,
    }
}

/// Whether the request carries the site's secret as its bearer token.
pub fn check_auth(authorization: Option<&[u8]>, secret: Option<&str>) -> (ok: bool)
    requires
        can_check_auth(header_view(authorization), secret),
    ensures
        ok == (authorization is Some && carries_secret(
            header_view(authorization),
            secret.unwrap()@,
        )),
{
    match authorization {
        Some(value) => {
            let token: String = decode_bearer(value).unwrap();
            text::same_text(token.as_str(), secret.unwrap())
        },
        None => false,
    }
}

/// Whether a byte is a hexadecimal digit.
pub open spec fn is_hex_digit(b: u8) -> bool {
    48 <= b <= 57 || 65 <= b <= 70 || 97 <= b <= 102
}

/// The value of a hexadecimal digit.
pub open spec fn hex_digit(b: u8) -> int {
    if b <= 57 {
        b - 48
    } else if b <= 70 {
        b - 55
    } else {
        b - 87
    }
}

/// The bytes that hexadecimal text stands for, two digits each.
pub open spec fn hex_bytes(s: Seq<u8>) -> Option<Seq<u8>> {
    if s.len() % 2 == 0 && forall|i: int| 0 <= i < s.len() ==> is_hex_digit(#[trigger] s[i]) {
        Some(
            Seq::new(
                s.len() / 2,
                |i: int| (hex_digit(s[2 * i]) * 16 + hex_digit(s[2 * i + 1])) as u8,
            ),
        )
    } else {
        None
    }
}

/// Calls `hex::decode`. It decodes an even number of hexadecimal digits in either case, two to a
/// byte and the upper half first, and nothing else.
#[verifier::external_body]
fn hex_decode(s: &str) -> (res: Option<Vec<u8>>)
    ensures
        match res {
            Some(bytes) => hex_bytes(encode_utf8(s@)) == Some(bytes@),
            None => hex_bytes(encode_utf8(s@)) is None,
        },
{
    hex::decode(s).ok()
}

/// How many bytes an HMAC-SHA1 has.
pub const HMAC_LEN: usize = 20;

/// The HMAC-SHA1 of `data` under `key`, as `ring::hmac` computes it.
pub uninterp spec fn hmac_sha1(key: Seq<u8>, data: Seq<u8>) -> Seq<u8>;

/// How many bytes an HMAC can be taken of: the length in bits is counted in 64 bits.
pub open spec fn can_be_signed(data: Seq<u8>) -> bool {
    data.len() <= 0x1fff_ffff_ffff_ff00
}

/// Calls `ring::hmac::verify` with a key made by `ring::hmac::Key::new` for HMAC-SHA1. It
/// computes the HMAC of `data`, which is as long as a SHA-1 digest, and succeeds if that equals
/// `tag`.
#[verifier::external_body]
fn hmac_verify(key: &[u8], data: &[u8], tag: &[u8]) -> (ok: bool)
    requires
        can_be_signed(key@),
        can_be_signed(data@),
    ensures
        ok == (tag@ == hmac_sha1(key@, data@)),
        ok ==> tag@.len() == HMAC_LEN,
{
    let key = hmac::Key::new(hmac::HMAC_SHA1_FOR_LEGACY_USE_ONLY, key);
    hmac::verify(&key, data, tag).is_ok()
}

/// The tag that a signature header claims: the hexadecimal text behind its first five bytes,
/// which say `sha1=`.
pub open spec fn claimed_tag(header: Seq<char>) -> Option<Seq<u8>> {
    let bytes = encode_utf8(header);
    if is_char_boundary(bytes, 5) {
        hex_bytes(bytes.subrange(5, bytes.len() as int))
    } else {
        None
    }
}

/// Whether `header` signs `body` with the secret; `None` if it claims no tag at all. A tag that is
/// cut short, or too long, signs nothing.
pub fn verify_gh_sig(secret: &str, header: &str, body: &[u8]) -> (res: Option<bool>)
    requires
        can_be_signed(encode_utf8(secret@)),
        can_be_signed(body@),
    ensures
        match (res, claimed_tag(header@)) {
            (Some(ok), Some(tag)) => ok == (tag == hmac_sha1(encode_utf8(secret@), body@)),
            (None, None) => true,
            _ => false,
        },
        claimed_tag(header@) matches Some(tag) && tag.len() != HMAC_LEN ==> res == Some(false),
{
    if !header.is_char_boundary(5) {
        return None;
    }
    proof {
        encode_utf8_valid_utf8(header@);
        lemma_boundary_in_range(encode_utf8(header@), 5);
    }
    let (_, sha) = header.split_at(5);
    match hex_decode(sha) {
        Some(tag) => Some(hmac_verify(secret.as_bytes(), body, tag.as_slice())),
        None => None,
    }
}

proof fn lemma_boundary_in_range(bytes: Seq<u8>, at: int)
    requires
        valid_utf8(bytes),
        is_char_boundary(bytes, at),
    ensures
        0 <= at <= bytes.len(),
{
}

/// Whether the signature header of a web hook, if it is text, signs `body` with the secret.
pub open spec fn is_signed(signature: Option<Seq<u8>>, secret: Seq<char>, body: Seq<u8>) -> bool {
    match signature {
        Some(value) => match header_text(value) {
            Some(header) => claimed_tag(header) == Some(hmac_sha1(encode_utf8(secret), body)),
            None => false,
        },
        None => false,
    }
}

/// Whether the signature header of a web hook claims a tag that is as long as an HMAC.
pub open spec fn claims_whole_tag(signature: Option<Seq<u8>>) -> bool {
    match signature {
        Some(value) => match header_text(value) {
            Some(header) => claimed_tag(header) matches Some(tag) && tag.len() == HMAC_LEN,
            None => false,
        },
        None => false,
    }
}

/// The hexadecimal digit whose value is `value`.
pub open spec fn hex_char(value: int) -> u8 {
    (if value < 10 {
        48 + value
    } else {
        87 + value
    }) as u8
}

/// Bytes as hexadecimal text, two digits each and the upper half first.
pub open spec fn hex_text(bytes: Seq<u8>) -> Seq<u8> {
    Seq::new(
        2 * bytes.len(),
        |i: int|
            hex_char(
                if i % 2 == 0 {
                    bytes[i / 2] as int / 16
                } else {
                    bytes[i / 2] as int % 16
                },
            ),
    )
}

/// The value of a signature header that claims `tag`.
pub open spec fn signature_of(tag: Seq<u8>) -> Seq<u8> {
    seq![0x73u8, 0x68, 0x61, 0x31, 0x3d] + hex_text(tag)
}

/// The value of an `Authorization` header that carries `token`.
pub open spec fn bearer_of(token: Seq<u8>) -> Seq<u8> {
    seq![0x42u8, 0x65, 0x61, 0x72, 0x65, 0x72, 0x20] + token
}

/// Hexadecimal text stands for the bytes that it was made from.
pub proof fn lemma_hex_text(bytes: Seq<u8>)
    ensures
        hex_bytes(hex_text(bytes)) == Some(bytes),
        forall|i: int|
            0 <= i < hex_text(bytes).len() ==> is_hex_digit(#[trigger] hex_text(bytes)[i]),
{
}

/// The text of visible bytes is encoded by these bytes.
proof fn lemma_visible_text(value: Seq<u8>)
    requires
        header_text(value) is Some,
    ensures
        encode_utf8(header_text(value)->0) == value,
{
    is_ascii_chars_encode_utf8(header_text(value)->0);
}

/// A signature header that is made for a tag claims that tag.
pub proof fn lemma_signature_claims_its_tag(tag: Seq<u8>)
    ensures
        header_text(signature_of(tag)) is Some,
        claimed_tag(header_text(signature_of(tag))->0) == Some(tag),
        claims_whole_tag(Some(signature_of(tag))) <==> tag.len() == HMAC_LEN,
{
    let value = signature_of(tag);
    lemma_hex_text(tag);
    lemma_visible_text(value);
    let header = header_text(value)->0;
    encode_utf8_valid_utf8(header);
    if value.len() == 5 {
        is_char_boundary_start_end_of_seq(value);
    } else {
        let b = value[5];
        assert(!is_continuation_byte(b)) by {
            assert(b < 128 ==> !is_continuation_byte(b)) by (bit_vector);
        }
        is_char_boundary_iff_not_is_continuation_byte(value, 5);
    }
}

/// A web hook whose signature header claims `tag` is accepted if `tag` is the HMAC of its body
/// under the site's secret, and only then.
pub proof fn lemma_signature_decides(secret: Seq<char>, body: Seq<u8>, tag: Seq<u8>)
    ensures
        is_signed(Some(signature_of(tag)), secret, body) <==> tag == hmac_sha1(
            encode_utf8(secret),
            body,
        ),
{
    lemma_signature_claims_its_tag(tag);
}

/// What stands in the first five bytes of a signature header makes no difference.
pub proof fn lemma_prefix_does_not_count(
    prefix: Seq<u8>,
    tag: Seq<u8>,
    secret: Seq<char>,
    body: Seq<u8>,
)
    requires
        prefix.len() == 5,
        forall|i: int| 0 <= i < 5 ==> 32 <= #[trigger] prefix[i] < 127,
    ensures
        is_signed(Some(prefix + hex_text(tag)), secret, body) <==> tag == hmac_sha1(
            encode_utf8(secret),
            body,
        ),
{
    let value = prefix + hex_text(tag);
    lemma_hex_text(tag);
    lemma_visible_text(value);
    encode_utf8_valid_utf8(header_text(value)->0);
    if value.len() == 5 {
        is_char_boundary_start_end_of_seq(value);
    } else {
        let b = value[5];
        assert(!is_continuation_byte(b)) by {
            assert(b < 128 ==> !is_continuation_byte(b)) by (bit_vector);
        }
        is_char_boundary_iff_not_is_continuation_byte(value, 5);
    }
    assert(value.subrange(5, value.len() as int) =~= hex_text(tag));
}

/// A request whose `Authorization` header carries a visible token is accepted if the token is
/// the site's secret, and only then.
pub proof fn lemma_token_decides(token: Seq<u8>, secret: Seq<char>)
    requires
        header_text(token) is Some,
    ensures
        carries_secret(Some(bearer_of(token)), secret) <==> header_text(token) == Some(secret),
{
    let value = bearer_of(token);
    let s = header_text(value)->0;
    reveal_strlit("Bearer ");
    assert(s.subrange(0, 7) =~= "Bearer "@);
    assert(s.skip(7) =~= header_text(token)->0);
}

/// Whether the site's secret is there to check a signature with.
pub open spec fn can_check_signature(signature: Option<Seq<u8>>, secret: Option<&str>) -> bool {
    (signature matches Some(value) && header_text(value) is Some) ==> (secret matches Some(secret)
        && can_be_signed(encode_utf8(secret@)))
}

/// Whether the site's secret is there to check a signature with.
pub fn is_signature_checkable(signature: Option<&[u8]>, secret: Option<&str>) -> (res: bool)
    ensures
        res == can_check_signature(header_view(signature), secret),
{
    match signature {
        Some(value) => match header_to_str(value) {
            Some(_) => match secret {
                Some(secret) => secret.as_bytes().len() as u64 <= 0x1fff_ffff_ffff_ff00,
                None => false,
            },
            None => true,
        },
        None => true,
    }
}

/// A signature is found good exactly if its tag is the HMAC of the body under the secret.
pub proof fn lemma_signature_is_verified(
    secret: &str,
    header: &str,
    body: &[u8],
    tag: Seq<u8>,
    res: Option<bool>,
)
    requires
        header_text(signature_of(tag)) == Some(header@),
        call_ensures(verify_gh_sig, (secret, header, body), res),
    ensures
        res == Some(tag == hmac_sha1(encode_utf8(secret@), body@)),
{
    lemma_signature_claims_its_tag(tag);
}

/// A visible token is found good exactly if it is the secret; without a token nobody is.
pub proof fn lemma_token_is_checked(
    authorization: Option<&[u8]>,
    secret: &str,
    token: Seq<u8>,
    ok: bool,
)
    requires
        header_text(token) is Some,
        authorization is Some ==> authorization->0@ == bearer_of(token),
        call_ensures(check_auth, (authorization, Some(secret)), ok),
    ensures
        ok <==> authorization is Some && header_text(token) == Some(secret@),
{
    lemma_token_decides(token, secret@);
}

/// Whether a web hook is signed with the site's secret. One whose signature is missing, is no
/// signature, or is not as long as an HMAC is not.
pub fn verify_gh(secret: Option<&str>, signature: Option<&[u8]>, body: &[u8]) -> (ok: bool)
    requires
        can_check_signature(header_view(signature), secret),
        can_be_signed(body@),
    ensures
        ok == (secret is Some && is_signed(header_view(signature), secret.unwrap()@, body@)),
        !claims_whole_tag(header_view(signature)) ==> !ok,
{
    let header: String = match signature {
        Some(value) => match header_to_str(value) {
            Some(header) => header,
            None => {
                return false;
            },
        },
        None => {
            return false;
        },
    };
    match verify_gh_sig(secret.unwrap(), header.as_str(), body) {
        Some(ok) => ok,
        None => false,
    }
}

} // verus!

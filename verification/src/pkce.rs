//! The PKCE side of the user authorization: random state and code verifier,
//! the code challenge derived from the verifier, and the check of what the
//! redirect brings back.

use vstd::prelude::*;
use vstd::string::*;
use vstd::utf8::*;
use crate::auth::{authorize_address, authorize_url, ClientID, TokenRes, UserAuth};
use crate::strings::push_char;

verus! {

/// The characters a random string is drawn from, in the order in which an
/// index picks them.
pub open spec fn rand_alphabet() -> Seq<char> {
    "ABCDEFGHIJKLMNOPQRSTUVWXYZabcdefghijklmnopqrstuvwxyz0123456789"@
}

/// True where every character of `s` is drawn from `rand_alphabet()`.
pub open spec fn drawn_from_alphabet(s: Seq<char>) -> bool {
    forall|i: int| 0 <= i < s.len() ==> rand_alphabet().contains(#[trigger] s[i])
}

/// The alphabet is the 26 upper-case letters, the 26 lower-case letters and
/// the 10 digits, each in its usual order.
pub proof fn lemma_rand_alphabet()
    ensures
        rand_alphabet().len() == 62,
        forall|i: int| 0 <= i < 26 ==> #[trigger] rand_alphabet()[i] as int == 'A' as int + i,
        forall|i: int| 26 <= i < 52 ==> #[trigger] rand_alphabet()[i] as int == 'a' as int + (i - 26),
        forall|i: int| 52 <= i < 62 ==> #[trigger] rand_alphabet()[i] as int == '0' as int + (i - 52),
{
    reveal_strlit("ABCDEFGHIJKLMNOPQRSTUVWXYZabcdefghijklmnopqrstuvwxyz0123456789");
}

#[verifier::external_type_specification]
#[verifier::external_body]
pub struct ExThreadRng(rand::rngs::ThreadRng);

/// `rand::thread_rng`: the thread's random generator. Nothing is claimed of it.
#[verifier::external_body]
fn thread_rng() -> rand::rngs::ThreadRng {
    rand::thread_rng()
}

/// `Rng::gen_range` over `0..bound`. Claims only that the index lies in the
/// range; which index comes out is chance. The range must not be empty, since
/// `gen_range` panics on an empty one.
#[verifier::external_body]
fn random_index(rng: &mut rand::rngs::ThreadRng, bound: usize) -> (r: usize)
    requires
        bound > 0,
    ensures
        r < bound,
{
    rand::Rng::gen_range(rng, 0..bound)
}

/// The character that a random index picks.
pub fn alphabet_char(index: usize) -> (c: char)
    requires
        index < rand_alphabet().len(),
    ensures
        c == rand_alphabet()[index as int],
{
    let possible = "ABCDEFGHIJKLMNOPQRSTUVWXYZabcdefghijklmnopqrstuvwxyz0123456789";
    proof {
        reveal_strlit("ABCDEFGHIJKLMNOPQRSTUVWXYZabcdefghijklmnopqrstuvwxyz0123456789");
    }
    possible.get_char(index)
}

/// A random string of `len` characters (none where `len` is not positive),
/// each drawn from `rand_alphabet()`.
pub fn gen_rand_string(len: i32) -> (r: String)
    ensures
        r@.len() == if len > 0 { len as int } else { 0 },
        drawn_from_alphabet(r@),
{
    proof {
        reveal_strlit("ABCDEFGHIJKLMNOPQRSTUVWXYZabcdefghijklmnopqrstuvwxyz0123456789");
    }
    let mut rng = thread_rng();
    let mut text = String::new();
    let mut i: i32 = 0;
    while i < len
        invariant
            0 <= i,
            len > 0 ==> i <= len,
            len <= 0 ==> i == 0,
            text@.len() == i,
            drawn_from_alphabet(text@),
            rand_alphabet().len() == 62,
        decreases len - i,
    {
        let index = random_index(&mut rng, 62);
        let c = alphabet_char(index);
        let ghost before = text@;
        push_char(&mut text, c);
        proof {
            assert forall|j: int| 0 <= j < text@.len() implies rand_alphabet().contains(#[trigger] text@[j]) by {
                if j < before.len() {
                    assert(text@[j] == before[j]);
                } else {
                    assert(rand_alphabet()[index as int] == c);
                }
            }
        }
        i = i + 1;
    }
    text
}

/// The SHA-256 digest of a byte sequence.
pub uninterp spec fn sha256(data: Seq<u8>) -> Seq<u8>;

/// `sha2::Sha256` over `data`, finalized. Claims that the digest is `sha256`
/// of the data and, as the hash's output size says, 32 bytes long.
#[verifier::external_body]
fn sha256_digest(data: &[u8]) -> (r: Vec<u8>)
    ensures
        r@ == sha256(data@),
        r@.len() == 32,
{
    <sha2::Sha256 as sha2::Digest>::digest(data).to_vec()
}

/// The character of the URL-safe base64 alphabet for the six-bit value `v`.
pub open spec fn url_safe_char(v: int) -> char {
    if v < 26 {
        ('A' as int + v) as char
    } else if v < 52 {
        ('a' as int + (v - 26)) as char
    } else if v < 62 {
        ('0' as int + (v - 52)) as char
    } else if v == 62 {
        '-'
    } else {
        '_'
    }
}

/// Base64 with the URL-safe alphabet and no padding (RFC 4648, section 5):
/// each three bytes give four characters, two bytes left over give three, one
/// byte left over gives two.
pub open spec fn base64_url(b: Seq<u8>) -> Seq<char>
    decreases b.len(),
{
    if b.len() == 0 {
        Seq::empty()
    } else if b.len() == 1 {
        seq![url_safe_char((b[0] as int) / 4), url_safe_char(((b[0] as int) % 4) * 16)]
    } else if b.len() == 2 {
        seq![
            url_safe_char((b[0] as int) / 4),
            url_safe_char(((b[0] as int) % 4) * 16 + (b[1] as int) / 16),
            url_safe_char(((b[1] as int) % 16) * 4),
        ]
    } else {
        seq![
            url_safe_char((b[0] as int) / 4),
            url_safe_char(((b[0] as int) % 4) * 16 + (b[1] as int) / 16),
            url_safe_char(((b[1] as int) % 16) * 4 + (b[2] as int) / 64),
            url_safe_char((b[2] as int) % 64),
        ] + base64_url(b.skip(3))
    }
}

/// `base64`'s `URL_SAFE_NO_PAD` engine, `encode`. Claims that the result is
/// the URL-safe, unpadded base64 text of the bytes. The input is kept short
/// enough for the encoded length to fit in `usize`, where `encode` panics.
#[verifier::external_body]
fn encode_base64_url(bytes: &[u8]) -> (r: String)
    requires
        bytes@.len() <= usize::MAX / 2,
    ensures
        r@ == base64_url(bytes@),
{
    base64::Engine::encode(&base64::engine::general_purpose::URL_SAFE_NO_PAD, bytes)
}

/// The PKCE code challenge of a code verifier: the URL-safe base64 text of the
/// SHA-256 digest of its UTF-8 bytes.
pub open spec fn code_challenge(verifier: Seq<char>) -> Seq<char> {
    base64_url(sha256(encode_utf8(verifier)))
}

/// The characters of the URL-safe base64 alphabet.
pub open spec fn url_safe(c: char) -> bool {
    ('A' <= c <= 'Z') || ('a' <= c <= 'z') || ('0' <= c <= '9') || c == '-' || c == '_'
}

/// Unpadded base64 of `n` bytes has `(4n + 2) / 3` characters, all URL-safe.
pub proof fn lemma_base64_url_shape(b: Seq<u8>)
    ensures
        base64_url(b).len() == (4 * b.len() + 2) / 3,
        forall|i: int| 0 <= i < base64_url(b).len() ==> url_safe(#[trigger] base64_url(b)[i]),
    decreases b.len(),
{
    if b.len() >= 3 {
        lemma_base64_url_shape(b.skip(3));
        let head = seq![
            url_safe_char((b[0] as int) / 4),
            url_safe_char(((b[0] as int) % 4) * 16 + (b[1] as int) / 16),
            url_safe_char(((b[1] as int) % 16) * 4 + (b[2] as int) / 64),
            url_safe_char((b[2] as int) % 64),
        ];
        assert(base64_url(b) == head + base64_url(b.skip(3)));
        assert forall|i: int| 0 <= i < base64_url(b).len() implies url_safe(#[trigger] base64_url(b)[i]) by {
            if i >= 4 {
                assert(base64_url(b)[i] == base64_url(b.skip(3))[i - 4]);
            }
        }
    }
}

proof fn lemma_url_safe_char_injective(x: int, y: int)
    requires
        0 <= x < 64,
        0 <= y < 64,
        url_safe_char(x) == url_safe_char(y),
    ensures
        x == y,
{
    assert(url_safe_char(x) as int == url_safe_char(y) as int);
    if x < 26 {
        assert(url_safe_char(x) as int == 65 + x);
    } else if x < 52 {
        assert(url_safe_char(x) as int == 97 + x - 26);
    } else if x < 62 {
        assert(url_safe_char(x) as int == 48 + x - 52);
    }
    if y < 26 {
        assert(url_safe_char(y) as int == 65 + y);
    } else if y < 52 {
        assert(url_safe_char(y) as int == 97 + y - 26);
    } else if y < 62 {
        assert(url_safe_char(y) as int == 48 + y - 52);
    }
}

/// Base64 loses nothing: different byte sequences have different encodings.
pub proof fn lemma_base64_url_injective(a: Seq<u8>, b: Seq<u8>)
    requires
        base64_url(a) == base64_url(b),
    ensures
        a == b,
    decreases a.len(),
{
    lemma_base64_url_shape(a);
    lemma_base64_url_shape(b);
    assert(a.len() == b.len()) by {
        if a.len() < b.len() {
            assert((4 * a.len() + 2) / 3 < (4 * b.len() + 2) / 3);
        } else if a.len() > b.len() {
            assert((4 * b.len() + 2) / 3 < (4 * a.len() + 2) / 3);
        }
    }
    let ea = base64_url(a);
    let eb = base64_url(b);
    if a.len() >= 1 {
        let (a0, b0) = (a[0] as int, b[0] as int);
        assert(ea[0] == eb[0]);
        assert(ea[0] == url_safe_char(a0 / 4));
        assert(eb[0] == url_safe_char(b0 / 4));
        lemma_url_safe_char_injective(a0 / 4, b0 / 4);
        if a.len() == 1 {
            assert(ea[1] == eb[1]);
            lemma_url_safe_char_injective((a0 % 4) * 16, (b0 % 4) * 16);
            assert(a =~= b);
        } else {
            let (a1, b1) = (a[1] as int, b[1] as int);
            assert(ea[1] == eb[1]);
            lemma_url_safe_char_injective((a0 % 4) * 16 + a1 / 16, (b0 % 4) * 16 + b1 / 16);
            if a.len() == 2 {
                assert(ea[2] == eb[2]);
                lemma_url_safe_char_injective((a1 % 16) * 4, (b1 % 16) * 4);
                assert(a =~= b);
            } else {
                let (a2, b2) = (a[2] as int, b[2] as int);
                assert(ea[2] == eb[2]);
                assert(ea[3] == eb[3]);
                lemma_url_safe_char_injective((a1 % 16) * 4 + a2 / 64, (b1 % 16) * 4 + b2 / 64);
                lemma_url_safe_char_injective(a2 % 64, b2 % 64);
                assert(base64_url(a.skip(3)) =~= ea.skip(4));
                assert(base64_url(b.skip(3)) =~= eb.skip(4));
                lemma_base64_url_injective(a.skip(3), b.skip(3));
                assert(a =~= b) by {
                    assert forall|i: int| 0 <= i < a.len() implies a[i] == b[i] by {
                        if i >= 3 {
                            assert(a[i] == a.skip(3)[i - 3]);
                            assert(b[i] == b.skip(3)[i - 3]);
                        }
                    }
                }
            }
        }
    } else {
        assert(a =~= b);
    }
}

/// The code challenge pins down the digest of the whole verifier: two
/// verifiers with the same challenge have the same SHA-256 digest of all of
/// their bytes.
pub proof fn lemma_code_challenge_determines_digest(v1: Seq<char>, v2: Seq<char>)
    requires
        code_challenge(v1) == code_challenge(v2),
    ensures
        sha256(encode_utf8(v1)) == sha256(encode_utf8(v2)),
{
    lemma_base64_url_injective(sha256(encode_utf8(v1)), sha256(encode_utf8(v2)));
}

/// The code challenge of `verifier` (`get_encoded_hash`).
pub fn get_encoded_hash(verifier: &String) -> (r: String)
    ensures
        r@ == code_challenge(verifier@),
        r@ == base64_url(sha256(encode_utf8(verifier@))),
        r@.len() == 43,
        forall|i: int| 0 <= i < r@.len() ==> url_safe(#[trigger] r@[i]),
{
    let digest = sha256_digest(verifier.as_str().as_bytes());
    let r = encode_base64_url(digest.as_slice());
    proof {
        lemma_base64_url_shape(digest@);
    }
    r
}

/// What starting a user authorization produces: the state and code verifier
/// it drew, the challenge sent with it, and the address of the authorization
/// page.
pub struct AuthRequest {
    pub state: String,
    pub code_verifier: String,
    pub code_challenge: String,
    pub url: String,
}

/// Starts a user authorization: draws a state of 16 and a code verifier of 128
/// random characters, derives the code challenge and builds the address of
/// the authorization page.
pub fn prepare_user_auth(client_id: &ClientID) -> (r: AuthRequest)
    ensures
        r.state@.len() == 16,
        drawn_from_alphabet(r.state@),
        r.code_verifier@.len() == 128,
        drawn_from_alphabet(r.code_verifier@),
        r.code_challenge@ == code_challenge(r.code_verifier@),
        r.url@ == authorize_address(client_id@, r.state@, r.code_challenge@),
{
    let state = gen_rand_string(16);
    let code_verifier = gen_rand_string(128);
    let code_challenge = get_encoded_hash(&code_verifier);
    let url = authorize_url(client_id, state.as_str(), code_challenge.as_str());
    AuthRequest { state, code_verifier, code_challenge, url }
}

/// Accepts what the redirect brought back only where its state is the one
/// sent; the accepted authorization carries the code verifier.
pub fn complete_user_auth(received: UserAuth, sent_state: &String, code_verifier: String) -> (r: Option<UserAuth>)
    ensures
        r is Some <==> received.state@ == sent_state@,
        r matches Some(auth) ==> {
            &&& auth.code@ == received.code@
            &&& auth.state@ == received.state@
            &&& auth.code_verifier@ == code_verifier@
        },
{
    if received.state != *sent_state {
        return None;
    }
    Some(UserAuth { code_verifier, ..received })
}

/// How to come by a token.
pub enum TokenStart {
    /// Refresh the stored refresh token, held in this token.
    Refresh(TokenRes),
    /// Ask the user to authorize the client.
    Authorize,
}

/// A stored refresh token is refreshed; without one, the user is asked.
pub fn token_start(stored_refresh_token: Option<String>) -> (r: TokenStart)
    ensures
        match stored_refresh_token {
            Some(t) => r matches TokenStart::Refresh(token) && token@.refresh_token == t@
                && token@.access_token == Seq::<char>::empty() && token@.token_type == Seq::<char>::empty()
                && token@.expires_in == 0,
            None => r is Authorize,
        },
{
    match stored_refresh_token {
        Some(t) => TokenStart::Refresh(TokenRes::from_refresh_token(t)),
        None => TokenStart::Authorize,
    }
}

} // verus!

//! Sessions: a signed token (HS256, in the JWT layout) carried in the
//! `wallet_session` cookie.
use vstd::prelude::*;

use base64::engine::general_purpose::URL_SAFE_NO_PAD;
use base64::Engine;
use hmac::{Hmac, KeyInit, Mac};
use sha2::Sha256;
use vstd::string::StringExecFns;
use vstd::utf8::encode_utf8;

use crate::errors::{AppError, ErrorModel};
use crate::models::UserRecord;
use crate::store::{find_user_by_id, user_by_id, MemoryStore};
use crate::text::{chars_of, string_of, trim_bounds, trim_end_spec, trim_spec, trim_start_spec};
use crate::utils::{join_on, lemma_split_after_sep, lemma_split_without_sep, split_chars, split_on, split_then_join};

verus! {

// ---------------------------------------------------------------------------
// Outside crates
// ---------------------------------------------------------------------------
#[verifier::external_type_specification]
#[verifier::external_body]
pub struct ExInvalidLength(hmac::digest::InvalidLength);

#[verifier::external_type_specification]
#[verifier::external_body]
pub struct ExDecodeError(base64::DecodeError);

/// HMAC-SHA256 of `message` under `key`, as the `hmac` and `sha2` crates
/// compute it.
pub uninterp spec fn hmac_sha256(key: Seq<u8>, message: Seq<u8>) -> Seq<u8>;

/// The unpadded URL-safe base64 text of `data`, as the `base64` crate's
/// `URL_SAFE_NO_PAD` engine writes it.
pub uninterp spec fn base64url_encode(data: Seq<u8>) -> Seq<char>;

/// What the `URL_SAFE_NO_PAD` engine decodes `text` to, or `None` where it
/// refuses the text.
pub uninterp spec fn base64url_decode(text: Seq<char>) -> Option<Seq<u8>>;

/// The characters of the URL-safe base64 alphabet.
pub open spec fn is_base64url_char(c: char) -> bool {
    ||| 'A' <= c <= 'Z'
    ||| 'a' <= c <= 'z'
    ||| '0' <= c <= '9'
    ||| c == '-'
    ||| c == '_'
}

/// Computes HMAC-SHA256 with `Hmac::<Sha256>::new_from_slice`, `update` and
/// `finalize`. The result is named `hmac_sha256`; `new_from_slice` accepts
/// keys of any length for HMAC (its source never returns `Err`), so the
/// result is always `Ok`.
#[verifier::external_body]
fn hmac_sha256_tag(key: &[u8], message: &[u8]) -> (r: Result<Vec<u8>, hmac::digest::InvalidLength>)
    ensures
        r is Ok,
        r matches Ok(tag) ==> tag@ == hmac_sha256(key@, message@),
        r matches Ok(tag) ==> tag@.len() == 32,
{
    let mut mac = <Hmac<Sha256> as KeyInit>::new_from_slice(key)?;
    mac.update(message);
    Ok(mac.finalize().into_bytes().to_vec())
}

/// Calls `URL_SAFE_NO_PAD.encode`. Its text, named `base64url_encode`, is
/// made of the URL-safe alphabet (`A-Z a-z 0-9 - _`, the alphabet in the
/// crate's `alphabet::URL_SAFE`) and decodes back to `data`. The crate
/// panics when the encoded length overflows `usize`; `requires` leaves that
/// out.
#[verifier::external_body]
fn base64url_encode_bytes(data: &[u8]) -> (text: String)
    requires
        data@.len() <= usize::MAX / 2,
    ensures
        text@ == base64url_encode(data@),
        forall|i: int| 0 <= i < text@.len() ==> is_base64url_char(#[trigger] text@[i]),
        base64url_decode(text@) == Some(data@),
{
    URL_SAFE_NO_PAD.encode(data)
}

/// Calls `URL_SAFE_NO_PAD.decode`: `Ok` exactly when `base64url_decode`
/// gives bytes, and then those bytes.
#[verifier::external_body]
fn base64url_decode_text(text: &str) -> (r: Result<Vec<u8>, base64::DecodeError>)
    ensures
        r matches Ok(v) ==> base64url_decode(text@) == Some(v@),
        r is Err ==> base64url_decode(text@) is None,
{
    URL_SAFE_NO_PAD.decode(text)
}

// ---------------------------------------------------------------------------
// Tokens
// ---------------------------------------------------------------------------
/// The characters a session token is made of: the URL-safe base64 alphabet
/// and the `.` between its parts.
pub open spec fn is_token_char(c: char) -> bool {
    is_base64url_char(c) || c == '.'
}

/// The JSON header of every session token, `{"alg":"HS256","typ":"JWT"}`,
/// as bytes.
pub open spec fn session_header() -> Seq<u8> {
    seq![123u8, 34, 97, 108, 103, 34, 58, 34, 72, 83, 50, 53, 54, 34, 44, 34, 116, 121, 112, 34, 58, 34, 74, 87, 84, 34, 125]
}

/// The base64 text of the signature of `message` under `secret`.
pub open spec fn signature_text(secret: Seq<char>, message: Seq<char>) -> Seq<char> {
    base64url_encode(hmac_sha256(encode_utf8(secret), encode_utf8(message)))
}

/// The token for the claims `claims_json` under `secret`:
/// `header.payload.signature`, each part in base64, the signature taken over
/// `header.payload`.
pub open spec fn session_token(claims_json: Seq<u8>, secret: Seq<char>) -> Seq<char> {
    let message = base64url_encode(session_header()) + seq!['.'] + base64url_encode(
        claims_json,
    );
    message + seq!['.'] + signature_text(secret, message)
}

/// What checking a token gives: the claims JSON when the token has three
/// parts, its signature is the one `secret` gives, and its payload decodes;
/// `Unauthorized` otherwise.
pub open spec fn verified_claims(token: Seq<char>, secret: Seq<char>) -> Result<Seq<u8>, ErrorModel> {
    let parts = split_on(token, '.');
    if parts.len() != 3 {
        Err(ErrorModel::Unauthorized)
    } else if signature_text(secret, parts[0] + seq!['.'] + parts[1]) != parts[2] {
        Err(ErrorModel::Unauthorized)
    } else {
        match base64url_decode(parts[1]) {
            Some(p) => Ok(p),
            None => Err(ErrorModel::Unauthorized),
        }
    }
}

/// The text `left.right`.
pub fn join_with_dot(left: &str, right: &str) -> (joined: String)
    ensures
        joined@ == left@ + seq!['.'] + right@,
{
    let mut joined = String::from_str(left);
    joined.push('.');
    joined.append(right);
    joined
}

/// Only signed tokens are accepted: a token that `secret` accepts is a
/// header and a payload joined by `.`, then `.` and the signature that
/// `secret` gives for those two; and the claims given back are what the
/// payload decodes to.
pub proof fn accepted_tokens_are_signed(token: Seq<char>, secret: Seq<char>)
    ensures
        verified_claims(token, secret) matches Ok(claims) ==> exists|header: Seq<char>, payload: Seq<char>|
            #![trigger signature_text(secret, header + seq!['.'] + payload), base64url_decode(payload)]
            base64url_decode(payload) == Some(claims) && token == header + seq!['.'] + payload + seq!['.']
                + signature_text(secret, header + seq!['.'] + payload),
{
    if verified_claims(token, secret) is Ok {
        let parts = split_on(token, '.');
        split_then_join(token, '.');
        let p2 = parts.drop_last();
        let p1 = p2.drop_last();
        assert(p1 =~= seq![parts[0]]);
        assert(join_on(p1, '.') == parts[0]);
        assert(p2.last() == parts[1]);
        assert(join_on(p2, '.') == join_on(p1, '.') + seq!['.'] + parts[1]);
        assert(join_on(parts, '.') == join_on(p2, '.') + seq!['.'] + parts[2]);
        assert(join_on(parts, '.') =~= parts[0] + seq!['.'] + parts[1] + seq!['.'] + parts[2]);
        assert(base64url_decode(parts[1]) == Some(verified_claims(token, secret)->Ok_0));
    }
}

/// HMAC-SHA256 of `message` under `secret`.
fn sign(message: &[u8], secret: &[u8]) -> (r: Result<Vec<u8>, AppError>)
    ensures
        r matches Ok(tag) && tag@ == hmac_sha256(secret@, message@) && tag@.len() == 32,
{
    match hmac_sha256_tag(secret, message) {
        Ok(tag) => Ok(tag),
        Err(_) => Err(AppError::Internal),
    }
}

/// Splitting `a.b.c` on `.`, where no part holds a `.`, gives the parts.
proof fn lemma_split_three(a: Seq<char>, b: Seq<char>, c: Seq<char>)
    requires
        forall|i: int| 0 <= i < a.len() ==> #[trigger] a[i] != '.',
        forall|i: int| 0 <= i < b.len() ==> #[trigger] b[i] != '.',
        forall|i: int| 0 <= i < c.len() ==> #[trigger] c[i] != '.',
    ensures
        split_on(a + seq!['.'] + b + seq!['.'] + c, '.') == seq![a, b, c],
{
    lemma_split_without_sep(a, '.');
    lemma_split_after_sep(a, b, '.');
    assert(a + seq!['.'] + b =~= a.push('.') + b);
    lemma_split_after_sep(a + seq!['.'] + b, c, '.');
    assert(a + seq!['.'] + b + seq!['.'] + c =~= (a + seq!['.'] + b).push('.') + c);
    assert(seq![a].push(b).push(c) =~= seq![a, b, c]);
}

/// Signs the claims `claims_json` (JSON bytes) with `secret` into a session
/// token. The token is accepted by `verify_session_token` under the same
/// secret, which gives back the same claims, and it is made of the URL-safe
/// base64 alphabet and `.` only, so it travels in a cookie as it is.
pub fn create_session_cookie(claims_json: &[u8], secret: &str) -> (r: Result<String, AppError>)
    requires
        claims_json@.len() <= usize::MAX / 2,
    ensures
        r matches Ok(token) && token@ == session_token(claims_json@, secret@)
            && verified_claims(token@, secret@) == Ok::<Seq<u8>, ErrorModel>(claims_json@)
            && forall|i: int| 0 <= i < token@.len() ==> is_token_char(#[trigger] token@[i]),
{
    let header_json: Vec<u8> = vec![123u8, 34, 97, 108, 103, 34, 58, 34, 72, 83, 50, 53, 54, 34, 44, 34, 116, 121, 112, 34, 58, 34, 74, 87, 84, 34, 125];
    assert(header_json@ =~= session_header());
    let header = base64url_encode_bytes(header_json.as_slice());
    let payload = base64url_encode_bytes(claims_json);
    let message = join_with_dot(header.as_str(), payload.as_str());
    let tag = sign(message.as_str().as_bytes(), secret.as_bytes())?;
    let signature = base64url_encode_bytes(tag.as_slice());
    let token = join_with_dot(message.as_str(), signature.as_str());
    proof {
        let (a, b, c) = (header@, payload@, signature@);
        assert forall|i: int| 0 <= i < a.len() implies #[trigger] a[i] != '.' by {
            assert(is_base64url_char(a[i]));
        }
        assert forall|i: int| 0 <= i < b.len() implies #[trigger] b[i] != '.' by {
            assert(is_base64url_char(b[i]));
        }
        assert forall|i: int| 0 <= i < c.len() implies #[trigger] c[i] != '.' by {
            assert(is_base64url_char(c[i]));
        }
        assert(token@ =~= a + seq!['.'] + b + seq!['.'] + c);
        assert(message@ =~= a + seq!['.'] + b);
        lemma_split_three(a, b, c);
        assert forall|i: int| 0 <= i < token@.len() implies is_token_char(#[trigger] token@[i]) by {
            if i < a.len() {
                assert(token@[i] == a[i]);
            } else if i == a.len() {
            } else if i < a.len() + 1 + b.len() {
                assert(token@[i] == b[i - a.len() - 1]);
            } else if i == a.len() + 1 + b.len() {
            } else {
                assert(token@[i] == c[i - a.len() - 2 - b.len()]);
            }
        }
    }
    Ok(token)
}

fn vec_to_string(v: &Vec<char>) -> (s: String)
    ensures
        s@ == v@,
{
    let s = string_of(v, 0, v.len());
    assert(v@.subrange(0, v@.len() as int) =~= v@);
    s
}

/// Checks a session token against `secret`, as `verified_claims` says, and
/// gives back the claims as JSON bytes.
pub fn verify_session_token(token: &str, secret: &str) -> (r: Result<Vec<u8>, AppError>)
    ensures
        match verified_claims(token@, secret@) {
            Ok(claims) => r matches Ok(v) && v@ == claims,
            Err(e) => r matches Err(x) && x@ == e,
        },
{
    let chars = chars_of(token);
    let parts = split_chars(&chars, '.');
    if parts.len() != 3 {
        return Err(AppError::Unauthorized);
    }
    let header = vec_to_string(&parts[0]);
    let payload = vec_to_string(&parts[1]);
    let signature = vec_to_string(&parts[2]);
    let message = join_with_dot(header.as_str(), payload.as_str());
    assert(message@ =~= split_on(token@, '.')[0] + seq!['.'] + split_on(token@, '.')[1]);
    let tag = sign(message.as_str().as_bytes(), secret.as_bytes())?;
    let expected = base64url_encode_bytes(tag.as_slice());
    if expected != signature {
        return Err(AppError::Unauthorized);
    }
    match base64url_decode_text(payload.as_str()) {
        Ok(claims) => Ok(claims),
        Err(_) => Err(AppError::Unauthorized),
    }
}

// ---------------------------------------------------------------------------
// Claims
// ---------------------------------------------------------------------------
/// Seconds a session lasts: twelve hours.
pub open spec fn session_lifetime() -> int {
    43200
}

/// What a session token says: the user's id (`sub`), username and name,
/// and when it expires (`exp`, Unix seconds).
#[derive(Debug)]
pub struct Claims {
    pub sub: i64,
    pub username: String,
    pub name: String,
    pub exp: i64,
}

impl Claims {
    /// The claims of a session of `user` opened at `now` (Unix seconds).
    pub fn for_user(user: &UserRecord, now: i64) -> (c: Claims)
        requires
            now + session_lifetime() <= i64::MAX,
        ensures
            c.sub == user.id,
            c.username == user.username,
            c.name == user.name,
            c.exp == now + session_lifetime(),
    {
        Claims { sub: user.id, username: user.username.clone(), name: user.name.clone(), exp: now + 43200 }
    }
}

/// Accepts claims that have not expired at `now`: a session is refused once
/// `exp` is in the past.
pub fn check_expiry(claims: Claims, now: i64) -> (r: Result<Claims, AppError>)
    ensures
        claims.exp < now ==> (r matches Err(e) && e@ == ErrorModel::Unauthorized),
        claims.exp >= now ==> r == Ok::<Claims, AppError>(claims),
{
    if claims.exp < now {
        Err(AppError::Unauthorized)
    } else {
        Ok(claims)
    }
}

/// The user a session with subject `sub` expiring at `exp` belongs to at
/// `now`, or why it is refused.
pub open spec fn session_user_spec(users: Seq<UserRecord>, sub: i64, exp: int, now: int) -> Result<
    UserRecord,
    ErrorModel,
> {
    if exp < now {
        Err(ErrorModel::Unauthorized)
    } else {
        match user_by_id(users, sub) {
            Some(u) => Ok(u),
            None => Err(ErrorModel::Unauthorized),
        }
    }
}

/// The user a session belongs to, from the claims of its token, at `now`
/// (Unix seconds): `Unauthorized` once the claims have expired, or when they
/// name no user of the store.
pub fn session_user(store: &MemoryStore, claims: Claims, now: i64) -> (r: Result<UserRecord, AppError>)
    ensures
        match session_user_spec(store@.users, claims.sub, claims.exp as int, now as int) {
            Ok(u) => r == Ok::<UserRecord, AppError>(u),
            Err(e) => r matches Err(x) && x@ == e,
        },
{
    let claims = match check_expiry(claims, now) {
        Ok(c) => c,
        Err(e) => {
            return Err(e);
        },
    };
    match find_user_by_id(store, claims.sub) {
        Some(u) => Ok(u),
        None => Err(AppError::Unauthorized),
    }
}

/// A session lasts twelve hours: the claims made for a user of the store
/// at `opened` are accepted, and give that user, at every moment up to
/// twelve hours later, and refused after that.
pub proof fn session_lasts_twelve_hours(users: Seq<UserRecord>, u: UserRecord, opened: int, now: int)
    requires
        user_by_id(users, u.id) == Some(u),
    ensures
        now <= opened + session_lifetime() ==> session_user_spec(users, u.id, opened + session_lifetime(), now)
            == Ok::<UserRecord, ErrorModel>(u),
        now > opened + session_lifetime() ==> session_user_spec(users, u.id, opened + session_lifetime(), now)
            == Err::<UserRecord, ErrorModel>(ErrorModel::Unauthorized),
{
}

// ---------------------------------------------------------------------------
// Cookies
// ---------------------------------------------------------------------------
pub open spec fn session_cookie_prefix() -> Seq<char> {
    "wallet_session="@
}

/// The first piece of a `Cookie` header (pieces split on `;` and trimmed)
/// that starts with `wallet_session=`, without that prefix.
pub open spec fn cookie_session_token(pieces: Seq<Seq<char>>) -> Option<Seq<char>>
    decreases pieces.len(),
{
    if pieces.len() == 0 {
        None
    } else {
        let piece = trim_spec(pieces[0]);
        if session_cookie_prefix().is_prefix_of(piece) {
            Some(piece.skip(session_cookie_prefix().len() as int))
        } else {
            cookie_session_token(pieces.drop_first())
        }
    }
}

/// A session cookie reads back as it was set: when the browser sends back
/// `wallet_session=<token>` in its `Cookie` header, the session token found
/// there is `token`, for every token made of the URL-safe base64 alphabet and
/// `.` (as every token that `create_session_cookie` makes is).
pub proof fn session_cookie_read_back(token: Seq<char>)
    requires
        forall|i: int| 0 <= i < token.len() ==> is_token_char(#[trigger] token[i]),
    ensures
        cookie_session_token(split_on(session_cookie_prefix() + token, ';')) == Some(token),
{
    reveal_strlit("wallet_session=");
    let prefix = session_cookie_prefix();
    let s = prefix + token;
    assert forall|i: int| 0 <= i < s.len() implies #[trigger] s[i] != ';' by {
        if i >= prefix.len() {
            assert(s[i] == token[i - prefix.len()]);
            assert(is_token_char(token[i - prefix.len()]));
        }
    }
    lemma_split_without_sep(s, ';');
    assert(s[0] == 'w');
    assert(trim_start_spec(s) == s);
    if token.len() > 0 {
        assert(s.last() == token[token.len() - 1]);
        assert(is_token_char(token[token.len() - 1]));
    } else {
        assert(s.last() == '=');
    }
    assert(trim_end_spec(s) == s);
    assert(prefix.is_prefix_of(s)) by {
        assert(prefix =~= s.subrange(0, prefix.len() as int));
    }
    assert(s.skip(prefix.len() as int) =~= token);
    let pieces = seq![s];
    assert(pieces[0] == s);
    assert(trim_spec(pieces[0]) == s);
}

/// Whether `v[lo..hi]` starts with `prefix`.
fn starts_with_at(v: &Vec<char>, lo: usize, hi: usize, prefix: &Vec<char>) -> (b: bool)
    requires
        lo <= hi <= v.len(),
    ensures
        b == prefix@.is_prefix_of(v@.subrange(lo as int, hi as int)),
{
    if hi - lo < prefix.len() {
        return false;
    }
    let mut k: usize = 0;
    while k < prefix.len()
        invariant
            lo <= hi <= v.len(),
            prefix.len() <= hi - lo,
            k <= prefix.len(),
            forall|j: int| 0 <= j < k ==> prefix@[j] == #[trigger] v@[lo + j],
        decreases prefix.len() - k,
    {
        if prefix[k] != v[lo + k] {
            assert(v@.subrange(lo as int, hi as int)[k as int] == v@[lo + k]);
            return false;
        }
        k = k + 1;
    }
    assert forall|j: int| 0 <= j < prefix@.len() implies prefix@[j] == v@.subrange(lo as int, hi as int).take(
        prefix@.len() as int,
    )[j] by {
        assert(prefix@[j] == v@[lo + j]);
    }
    assert(prefix@ =~= v@.subrange(lo as int, hi as int).take(prefix@.len() as int));
    true
}

/// The session token in a `Cookie` header, if it carries one.
pub fn session_token_from_cookie(cookie_header: &str) -> (r: Option<String>)
    ensures
        match cookie_session_token(split_on(cookie_header@, ';')) {
            Some(t) => r matches Some(s) && s@ == t,
            None => r is None,
        },
{
    let prefix = chars_of("wallet_session=");
    let chars = chars_of(cookie_header);
    let pieces = split_chars(&chars, ';');
    let ghost all = split_on(cookie_header@, ';');
    let mut i: usize = 0;
    assert(all.skip(0) =~= all);
    while i < pieces.len()
        invariant
            prefix@ == session_cookie_prefix(),
            all == split_on(cookie_header@, ';'),
            pieces.len() == all.len(),
            forall|k: int| 0 <= k < pieces.len() ==> (#[trigger] pieces@[k])@ == all[k],
            i <= pieces.len(),
            cookie_session_token(all) == cookie_session_token(all.skip(i as int)),
        decreases pieces.len() - i,
    {
        assert(all.skip(i as int).drop_first() =~= all.skip(i + 1));
        assert(all.skip(i as int)[0] == all[i as int]);
        let piece = &pieces[i];
        assert(piece@ == all[i as int]);
        let (lo, hi) = trim_bounds(piece);
        if starts_with_at(piece, lo, hi, &prefix) {
            let token = string_of(piece, lo + prefix.len(), hi);
            assert(token@ =~= piece@.subrange(lo as int, hi as int).skip(prefix@.len() as int));
            assert(trim_spec(all.skip(i as int)[0]) == piece@.subrange(lo as int, hi as int));
            assert(cookie_session_token(all.skip(i as int)) == Some(
                piece@.subrange(lo as int, hi as int).skip(session_cookie_prefix().len() as int),
            ));
            return Some(token);
        }
        i = i + 1;
    }
    None
}

/// The `Set-Cookie` value that opens a session for twelve hours.
pub fn session_set_cookie(token: &str) -> (cookie: String)
    ensures
        cookie@ == "wallet_session="@ + token@ + "; Path=/; HttpOnly; SameSite=Lax; Max-Age=43200"@,
{
    let mut cookie = String::from_str("wallet_session=");
    cookie.append(token);
    cookie.append("; Path=/; HttpOnly; SameSite=Lax; Max-Age=43200");
    cookie
}

/// The `Set-Cookie` value that ends the session.
pub fn session_clear_cookie() -> (cookie: &'static str)
    ensures
        cookie@ == "wallet_session=; Path=/; HttpOnly; SameSite=Lax; Max-Age=0"@,
{
    "wallet_session=; Path=/; HttpOnly; SameSite=Lax; Max-Age=0"
}

} // verus!

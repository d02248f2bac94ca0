//! Spotify authorization: the client id, the token, the PKCE user
//! authorization, and the form parameters of each token request.

use vstd::prelude::*;
use vstd::string::*;
use crate::strings::{lemma_split_concat, lemma_split_single, split_on};

verus! {

/// The application's client id, as read from `client_id.json`.
#[derive(Debug)]
pub struct ClientID {
    client_id: String,
}

impl View for ClientID {
    type V = Seq<char>;

    closed spec fn view(&self) -> Seq<char> {
        self.client_id@
    }
}

impl ClientID {
    /// A client id holding `client_id`.
    pub fn from_id(client_id: String) -> (r: ClientID)
        ensures
            r@ == client_id@,
    {
        ClientID { client_id }
    }

    /// The client id.
    pub fn get(&self) -> (r: &str)
        ensures
            r@ == self@,
    {
        self.client_id.as_str()
    }
}

/// What a token holds.
pub struct TokenView {
    pub access_token: Seq<char>,
    pub token_type: Seq<char>,
    pub expires_in: i32,
    pub refresh_token: Seq<char>,
}

/// A token answer of the accounts service.
#[derive(Debug)]
pub struct TokenRes {
    access_token: String,
    token_type: String,
    expires_in: i32,
    refresh_token: String,
}

impl View for TokenRes {
    type V = TokenView;

    closed spec fn view(&self) -> TokenView {
        TokenView {
            access_token: self.access_token@,
            token_type: self.token_type@,
            expires_in: self.expires_in,
            refresh_token: self.refresh_token@,
        }
    }
}

impl TokenRes {
    /// A token made of the four fields of an answer.
    pub fn from_parts(
        access_token: String,
        token_type: String,
        expires_in: i32,
        refresh_token: String,
    ) -> (r: TokenRes)
        ensures
            r@.access_token == access_token@,
            r@.token_type == token_type@,
            r@.expires_in == expires_in,
            r@.refresh_token == refresh_token@,
    {
        TokenRes { access_token, token_type, expires_in, refresh_token }
    }

    /// The refresh token that this token carries.
    pub fn stored_refresh_token(&self) -> (r: &str)
        ensures
            r@ == self@.refresh_token,
    {
        self.refresh_token.as_str()
    }

    /// The value of the `Authorization` header: the token type, a space,
    /// and the access token.
    pub fn get_token(&self) -> (r: String)
        ensures
            r@ == self@.token_type + " "@ + self@.access_token,
    {
        let r = self.token_type.clone().concat(" ");
        r.concat(self.access_token.as_str())
    }
}

/// What the redirect of a user authorization brings back, and the PKCE
/// code verifier that belongs to it.
#[derive(Debug)]
pub struct UserAuth {
    pub code: String,
    pub state: String,
    pub code_verifier: String,
}

/// Where the accounts service sends the browser back to.
pub const REDIRECT_URI: &'static str = "http://localhost:8080";

/// The views of form parameters.
pub open spec fn pair_views(v: Seq<(String, String)>) -> Seq<(Seq<char>, Seq<char>)> {
    v.map_values(|p: (String, String)| (p.0@, p.1@))
}

fn param(key: &str, value: &str) -> (r: (String, String))
    ensures
        r.0@ == key@,
        r.1@ == value@,
{
    (String::from_str(key), String::from_str(value))
}

/// The form of a refresh request.
pub open spec fn refresh_form(refresh_token: Seq<char>, client_id: Seq<char>) -> Seq<(Seq<char>, Seq<char>)> {
    seq![
        ("grant_type"@, "refresh_token"@),
        ("refresh_token"@, refresh_token),
        ("client_id"@, client_id),
    ]
}

/// The form of a request that trades an authorization code for a token.
pub open spec fn token_form(code: Seq<char>, client_id: Seq<char>, code_verifier: Seq<char>) -> Seq<(Seq<char>, Seq<char>)> {
    seq![
        ("grant_type"@, "authorization_code"@),
        ("code"@, code),
        ("redirect_uri"@, REDIRECT_URI@),
        ("client_id"@, client_id),
        ("code_verifier"@, code_verifier),
    ]
}

/// The query of the authorization page.
pub open spec fn authorize_form(client_id: Seq<char>, state: Seq<char>, code_challenge: Seq<char>) -> Seq<(Seq<char>, Seq<char>)> {
    seq![
        ("response_type"@, "code"@),
        ("client_id"@, client_id),
        ("scope"@, "user-read-playback-state user-read-currently-playing"@),
        ("redirect_uri"@, REDIRECT_URI@),
        ("state"@, state),
        ("code_challenge_method"@, "S256"@),
        ("code_challenge"@, code_challenge),
    ]
}

/// The value sent under `key`: that of the first pair with this key.
pub open spec fn form_value(form: Seq<(Seq<char>, Seq<char>)>, key: Seq<char>) -> Option<Seq<char>>
    decreases form.len(),
{
    if form.len() == 0 {
        None
    } else if form[0].0 == key {
        Some(form[0].1)
    } else {
        form_value(form.drop_first(), key)
    }
}

/// The value under a key is that of the first pair with the key.
proof fn lemma_form_value_at(form: Seq<(Seq<char>, Seq<char>)>, key: Seq<char>, i: int)
    requires
        0 <= i < form.len(),
        form[i].0 == key,
        forall|j: int| 0 <= j < i ==> form[j].0 != key,
    ensures
        form_value(form, key) == Some(form[i].1),
    decreases i,
{
    if i > 0 {
        let rest = form.drop_first();
        assert forall|j: int| 0 <= j < i - 1 implies rest[j].0 != key by {
            assert(rest[j] == form[j + 1]);
        }
        lemma_form_value_at(rest, key, i - 1);
        assert(form[0].0 != key);
    }
}

/// A refresh request sends the refresh token and the client id as given.
pub proof fn lemma_refresh_form_values(refresh_token: Seq<char>, client_id: Seq<char>)
    ensures
        refresh_form(refresh_token, client_id).len() == 3,
        form_value(refresh_form(refresh_token, client_id), "grant_type"@) == Some("refresh_token"@),
        form_value(refresh_form(refresh_token, client_id), "refresh_token"@) == Some(refresh_token),
        form_value(refresh_form(refresh_token, client_id), "client_id"@) == Some(client_id),
{
    reveal_strlit("grant_type");
    reveal_strlit("refresh_token");
    reveal_strlit("client_id");
    let f = refresh_form(refresh_token, client_id);
    let k = seq!["grant_type"@, "refresh_token"@, "client_id"@];
    assert forall|i: int, j: int| 0 <= j < i < 3 implies #[trigger] k[j] != #[trigger] k[i] by {
        assert(k[j].len() != k[i].len());
    }
    assert forall|i: int| 0 <= i < 3 implies #[trigger] f[i].0 == k[i] by {}
    lemma_form_value_at(f, k[0], 0);
    lemma_form_value_at(f, k[1], 1);
    lemma_form_value_at(f, k[2], 2);
}

/// A token request sends the code, the client id and the code verifier as
/// given, with the fixed grant type and redirect address.
pub proof fn lemma_token_form_values(code: Seq<char>, client_id: Seq<char>, code_verifier: Seq<char>)
    ensures
        token_form(code, client_id, code_verifier).len() == 5,
        form_value(token_form(code, client_id, code_verifier), "grant_type"@) == Some("authorization_code"@),
        form_value(token_form(code, client_id, code_verifier), "code"@) == Some(code),
        form_value(token_form(code, client_id, code_verifier), "redirect_uri"@) == Some(REDIRECT_URI@),
        form_value(token_form(code, client_id, code_verifier), "client_id"@) == Some(client_id),
        form_value(token_form(code, client_id, code_verifier), "code_verifier"@) == Some(code_verifier),
{
    reveal_strlit("grant_type");
    reveal_strlit("code");
    reveal_strlit("redirect_uri");
    reveal_strlit("client_id");
    reveal_strlit("code_verifier");
    let f = token_form(code, client_id, code_verifier);
    let k = seq!["grant_type"@, "code"@, "redirect_uri"@, "client_id"@, "code_verifier"@];
    assert forall|i: int, j: int| 0 <= j < i < 5 implies #[trigger] k[j] != #[trigger] k[i] by {
        assert(k[j].len() != k[i].len());
    }
    assert forall|i: int| 0 <= i < 5 implies #[trigger] f[i].0 == k[i] by {}
    lemma_form_value_at(f, k[0], 0);
    lemma_form_value_at(f, k[1], 1);
    lemma_form_value_at(f, k[2], 2);
    lemma_form_value_at(f, k[3], 3);
    lemma_form_value_at(f, k[4], 4);
}

/// The authorization page is asked with the client id, the state and the code
/// challenge as given, and the fixed response type, scope, redirect address
/// and challenge method.
pub proof fn lemma_authorize_form_values(client_id: Seq<char>, state: Seq<char>, code_challenge: Seq<char>)
    ensures
        authorize_form(client_id, state, code_challenge).len() == 7,
        form_value(authorize_form(client_id, state, code_challenge), "response_type"@) == Some("code"@),
        form_value(authorize_form(client_id, state, code_challenge), "client_id"@) == Some(client_id),
        form_value(authorize_form(client_id, state, code_challenge), "scope"@)
            == Some("user-read-playback-state user-read-currently-playing"@),
        form_value(authorize_form(client_id, state, code_challenge), "redirect_uri"@) == Some(REDIRECT_URI@),
        form_value(authorize_form(client_id, state, code_challenge), "state"@) == Some(state),
        form_value(authorize_form(client_id, state, code_challenge), "code_challenge_method"@) == Some("S256"@),
        form_value(authorize_form(client_id, state, code_challenge), "code_challenge"@) == Some(code_challenge),
{
    reveal_strlit("response_type");
    reveal_strlit("client_id");
    reveal_strlit("scope");
    reveal_strlit("redirect_uri");
    reveal_strlit("state");
    reveal_strlit("code_challenge_method");
    reveal_strlit("code_challenge");
    let f = authorize_form(client_id, state, code_challenge);
    let k = seq![
        "response_type"@,
        "client_id"@,
        "scope"@,
        "redirect_uri"@,
        "state"@,
        "code_challenge_method"@,
        "code_challenge"@,
    ];
    assert forall|i: int, j: int| 0 <= j < i < 7 implies #[trigger] k[j] != #[trigger] k[i] by {
        if j == 2 && i == 4 {
            assert(k[j][1] != k[i][1]);
        } else {
            assert(k[j].len() != k[i].len());
        }
    }
    assert forall|i: int| 0 <= i < 7 implies #[trigger] f[i].0 == k[i] by {}
    lemma_form_value_at(f, k[0], 0);
    lemma_form_value_at(f, k[1], 1);
    lemma_form_value_at(f, k[2], 2);
    lemma_form_value_at(f, k[3], 3);
    lemma_form_value_at(f, k[4], 4);
    lemma_form_value_at(f, k[5], 5);
    lemma_form_value_at(f, k[6], 6);
}

impl TokenRes {
    /// The token to start from where a refresh token was stored: the refresh
    /// token and nothing else.
    pub fn from_refresh_token(refresh_token: String) -> (r: TokenRes)
        ensures
            r@.access_token == Seq::<char>::empty(),
            r@.token_type == Seq::<char>::empty(),
            r@.expires_in == 0,
            r@.refresh_token == refresh_token@,
    {
        TokenRes { access_token: String::new(), token_type: String::new(), expires_in: 0, refresh_token }
    }

    /// The form that asks for a fresh token with this token's refresh token.
    pub fn refresh_token_params(&self, client_id: &ClientID) -> (r: Vec<(String, String)>)
        ensures
            pair_views(r@) == refresh_form(self@.refresh_token, client_id@),
            pair_views(r@) == seq![
                ("grant_type"@, "refresh_token"@),
                ("refresh_token"@, self@.refresh_token),
                ("client_id"@, client_id@),
            ],
    {
        let mut r: Vec<(String, String)> = Vec::new();
        r.push(param("grant_type", "refresh_token"));
        r.push(param("refresh_token", self.refresh_token.as_str()));
        r.push(param("client_id", client_id.get()));
        proof {
            assert(pair_views(r@) =~= refresh_form(self@.refresh_token, client_id@));
        }
        r
    }
}

/// The form that trades the code of `user_auth` for a token.
pub fn token_request_params(user_auth: &UserAuth, client_id: &ClientID) -> (r: Vec<(String, String)>)
    ensures
        pair_views(r@) == token_form(user_auth.code@, client_id@, user_auth.code_verifier@),
        pair_views(r@) == seq![
            ("grant_type"@, "authorization_code"@),
            ("code"@, user_auth.code@),
            ("redirect_uri"@, REDIRECT_URI@),
            ("client_id"@, client_id@),
            ("code_verifier"@, user_auth.code_verifier@),
        ],
{
    let mut r: Vec<(String, String)> = Vec::new();
    r.push(param("grant_type", "authorization_code"));
    r.push(param("code", user_auth.code.as_str()));
    r.push(param("redirect_uri", REDIRECT_URI));
    r.push(param("client_id", client_id.get()));
    r.push(param("code_verifier", user_auth.code_verifier.as_str()));
    proof {
        assert(pair_views(r@) =~= token_form(user_auth.code@, client_id@, user_auth.code_verifier@));
    }
    r
}

/// The query of the authorization page for `client_id`, `state` and
/// `code_challenge`.
pub fn authorize_params(client_id: &ClientID, state: &str, code_challenge: &str) -> (r: Vec<(String, String)>)
    ensures
        pair_views(r@) == authorize_form(client_id@, state@, code_challenge@),
        pair_views(r@) == seq![
            ("response_type"@, "code"@),
            ("client_id"@, client_id@),
            ("scope"@, "user-read-playback-state user-read-currently-playing"@),
            ("redirect_uri"@, REDIRECT_URI@),
            ("state"@, state@),
            ("code_challenge_method"@, "S256"@),
            ("code_challenge"@, code_challenge@),
        ],
{
    let mut r: Vec<(String, String)> = Vec::new();
    r.push(param("response_type", "code"));
    r.push(param("client_id", client_id.get()));
    r.push(param("scope", "user-read-playback-state user-read-currently-playing"));
    r.push(param("redirect_uri", REDIRECT_URI));
    r.push(param("state", state));
    r.push(param("code_challenge_method", "S256"));
    r.push(param("code_challenge", code_challenge));
    proof {
        assert(pair_views(r@) =~= authorize_form(client_id@, state@, code_challenge@));
    }
    r
}

/// A query string as `querystring::stringify` writes it: each pair as
/// `key=value&`, in order, nothing escaped.
pub open spec fn query_string(params: Seq<(Seq<char>, Seq<char>)>) -> Seq<char>
    decreases params.len(),
{
    if params.len() == 0 {
        Seq::empty()
    } else {
        query_string(params.drop_last()) + params.last().0 + "="@ + params.last().1 + "&"@
    }
}

/// `querystring::stringify`. Claims what its source does: the pairs written
/// as `key=value&` one after the other, without escaping.
#[verifier::external_body]
fn stringify_query(params: &Vec<(String, String)>) -> (r: String)
    ensures
        r@ == query_string(pair_views(params@)),
{
    querystring::stringify(params.iter().map(|p| (p.0.as_str(), p.1.as_str())).collect())
}

/// A pair that a query string carries unambiguously: neither key nor value
/// holds `&` or `=`.
pub open spec fn plain_param(p: (Seq<char>, Seq<char>)) -> bool {
    !p.0.contains('&') && !p.0.contains('=') && !p.1.contains('&') && !p.1.contains('=')
}

/// The `key=value` pieces of a query.
pub open spec fn query_pieces(params: Seq<(Seq<char>, Seq<char>)>) -> Seq<Seq<char>> {
    params.map_values(|p: (Seq<char>, Seq<char>)| p.0 + "="@ + p.1)
}

/// A query string read back into pairs: the `&`-separated pieces before the
/// final `&`, each split at its `=` into key and value.
pub open spec fn parse_query(q: Seq<char>) -> Seq<(Seq<char>, Seq<char>)> {
    split_on(q, '&').drop_last().map_values(
        |piece: Seq<char>| (split_on(piece, '=')[0], split_on(piece, '=')[1]),
    )
}

proof fn lemma_plain_piece(p: (Seq<char>, Seq<char>))
    requires
        plain_param(p),
    ensures
        !(p.0 + "="@ + p.1).contains('&'),
        split_on(p.0 + "="@ + p.1, '=') == seq![p.0, p.1],
{
    reveal_strlit("=");
    let piece = p.0 + "="@ + p.1;
    assert(piece =~= p.0 + seq!['='] + p.1);
    if piece.contains('&') {
        let k = choose|k: int| 0 <= k < piece.len() && piece[k] == '&';
        if k < p.0.len() {
            assert(p.0[k] == '&');
        } else if k > p.0.len() {
            assert(p.1[k - p.0.len() - 1] == '&');
        }
    }
    lemma_split_concat(p.0, p.1, '=');
    lemma_split_single(p.0, '=');
    lemma_split_single(p.1, '=');
    assert(split_on(piece, '=') =~= seq![p.0, p.1]);
}

proof fn lemma_split_query(params: Seq<(Seq<char>, Seq<char>)>, t: Seq<char>)
    requires
        forall|i: int| 0 <= i < params.len() ==> plain_param(#[trigger] params[i]),
    ensures
        split_on(query_string(params) + t, '&') == query_pieces(params) + split_on(t, '&'),
    decreases params.len(),
{
    reveal_strlit("&");
    if params.len() == 0 {
        assert(query_string(params) + t =~= t);
        assert(query_pieces(params) + split_on(t, '&') =~= split_on(t, '&'));
    } else {
        let prev = params.drop_last();
        let last = params.last();
        let piece = last.0 + "="@ + last.1;
        assert(plain_param(params[params.len() - 1]));
        lemma_plain_piece(last);
        let u = piece + seq!['&'] + t;
        assert forall|i: int| 0 <= i < prev.len() implies plain_param(#[trigger] prev[i]) by {
            assert(prev[i] == params[i]);
        }
        lemma_split_query(prev, u);
        assert(query_string(params) + t =~= query_string(prev) + u);
        lemma_split_concat(piece, t, '&');
        lemma_split_single(piece, '&');
        assert(query_pieces(params) =~= query_pieces(prev).push(piece));
        assert(split_on(query_string(params) + t, '&') =~= query_pieces(params) + split_on(t, '&'));
    }
}

/// A query string of plain pairs reads back as the same pairs, in order.
pub proof fn lemma_query_round_trip(params: Seq<(Seq<char>, Seq<char>)>)
    requires
        forall|i: int| 0 <= i < params.len() ==> plain_param(#[trigger] params[i]),
    ensures
        parse_query(query_string(params)) == params,
{
    lemma_split_query(params, Seq::empty());
    assert(query_string(params) + Seq::<char>::empty() =~= query_string(params));
    assert(split_on(Seq::<char>::empty(), '&') =~= seq![Seq::<char>::empty()]);
    let pieces = split_on(query_string(params), '&');
    assert(pieces.drop_last() =~= query_pieces(params));
    assert forall|i: int| 0 <= i < params.len() implies #[trigger] parse_query(query_string(params))[i] == params[i] by {
        lemma_plain_piece(params[i]);
        assert(query_pieces(params)[i] == params[i].0 + "="@ + params[i].1);
    }
    assert(parse_query(query_string(params)) =~= params);
}

/// The query of the authorization page, read back, gives the client id, the
/// state and the code challenge exactly as given, where they hold no `&` or
/// `=`.
pub proof fn lemma_authorize_query_carries(client_id: Seq<char>, state: Seq<char>, code_challenge: Seq<char>)
    requires
        !client_id.contains('&') && !client_id.contains('='),
        !state.contains('&') && !state.contains('='),
        !code_challenge.contains('&') && !code_challenge.contains('='),
    ensures
        parse_query(query_string(authorize_form(client_id, state, code_challenge)))
            == authorize_form(client_id, state, code_challenge),
        form_value(parse_query(query_string(authorize_form(client_id, state, code_challenge))), "client_id"@)
            == Some(client_id),
        form_value(parse_query(query_string(authorize_form(client_id, state, code_challenge))), "state"@)
            == Some(state),
        form_value(parse_query(query_string(authorize_form(client_id, state, code_challenge))), "code_challenge"@)
            == Some(code_challenge),
{
    reveal_strlit("response_type");
    reveal_strlit("code");
    reveal_strlit("client_id");
    reveal_strlit("scope");
    reveal_strlit("user-read-playback-state user-read-currently-playing");
    reveal_strlit("redirect_uri");
    reveal_strlit("http://localhost:8080");
    reveal_strlit("state");
    reveal_strlit("code_challenge_method");
    reveal_strlit("S256");
    reveal_strlit("code_challenge");
    let f = authorize_form(client_id, state, code_challenge);
    assert(!"response_type"@.contains('&') && !"response_type"@.contains('='));
    assert(!"code"@.contains('&') && !"code"@.contains('='));
    assert(!"client_id"@.contains('&') && !"client_id"@.contains('='));
    assert(!"scope"@.contains('&') && !"scope"@.contains('='));
    assert(!"user-read-playback-state user-read-currently-playing"@.contains('&'));
    assert(!"user-read-playback-state user-read-currently-playing"@.contains('='));
    assert(!"redirect_uri"@.contains('&') && !"redirect_uri"@.contains('='));
    assert(!REDIRECT_URI@.contains('&') && !REDIRECT_URI@.contains('='));
    assert(!"state"@.contains('&') && !"state"@.contains('='));
    assert(!"code_challenge_method"@.contains('&') && !"code_challenge_method"@.contains('='));
    assert(!"S256"@.contains('&') && !"S256"@.contains('='));
    assert(!"code_challenge"@.contains('&') && !"code_challenge"@.contains('='));
    assert forall|i: int| 0 <= i < f.len() implies plain_param(#[trigger] f[i]) by {}
    lemma_query_round_trip(f);
    lemma_authorize_form_values(client_id, state, code_challenge);
}

/// The address of the authorization page.
pub open spec fn authorize_address(client_id: Seq<char>, state: Seq<char>, code_challenge: Seq<char>) -> Seq<char> {
    "https://accounts.spotify.com/authorize?"@ + query_string(authorize_form(client_id, state, code_challenge))
}

/// The address the user is sent to, to authorize the client.
pub fn authorize_url(client_id: &ClientID, state: &str, code_challenge: &str) -> (r: String)
    ensures
        r@ == authorize_address(client_id@, state@, code_challenge@),
        r@ == "https://accounts.spotify.com/authorize?"@ + query_string(
            authorize_form(client_id@, state@, code_challenge@),
        ),
{
    let params = authorize_params(client_id, state, code_challenge);
    let query = stringify_query(&params);
    String::from_str("https://accounts.spotify.com/authorize?").concat(query.as_str())
}

} // verus!

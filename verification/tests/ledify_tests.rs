use ledify::auth::{authorize_params, authorize_url, token_request_params, REDIRECT_URI};
use ledify::pkce::{
    alphabet_char, complete_user_auth, gen_rand_string, get_encoded_hash, prepare_user_auth,
    token_start, TokenStart,
};
use ledify::playback::{
    artists_line, beat_message, playback_step, track_analysis_url, track_message, PlaybackStep,
};
use ledify::redirect::{ok_response, parse_redirect_request};
use ledify::strings::{push_decimal, split_pieces};
use ledify::{
    brutal_cut, convert_polish, ArtistSection, ClientID, ItemSection, PlaybackState, TokenRes,
    UserAuth,
};

fn pairs(v: &[(&str, &str)]) -> Vec<(String, String)> {
    v.iter().map(|(k, x)| (k.to_string(), x.to_string())).collect()
}

fn alphanumeric(s: &str) -> bool {
    s.chars().all(|c| c.is_ascii_alphanumeric())
}

#[test]
fn convert_polish_folds_letters() {
    assert_eq!(convert_polish("Zażółć gęślą jaźń".to_string()), "Zazolc gesla jazn");
    assert_eq!(convert_polish("ĄĆĘŁŃÓŚŹŻ".to_string()), "ACELNOSZZ");
    assert_eq!(convert_polish("ąćęłńóśźż".to_string()), "acelnoszz");
}

#[test]
fn convert_polish_marks_other_characters() {
    assert_eq!(convert_polish("Beyoncé".to_string()), "Beyonc?");
    assert_eq!(convert_polish("Sigur Rós – Hoppípolla".to_string()), "Sigur Ros ? Hopp?polla");
    assert_eq!(convert_polish("日本".to_string()), "??");
}

#[test]
fn convert_polish_keeps_ascii_and_is_idempotent() {
    assert_eq!(convert_polish("Hello, World! 123".to_string()), "Hello, World! 123");
    assert_eq!(convert_polish(String::new()), "");
    let once = convert_polish("Łódź – żółw".to_string());
    assert_eq!(convert_polish(once.clone()), once);
}

#[test]
fn brutal_cut_keeps_sixteen_bytes() {
    assert_eq!(brutal_cut("abcdefghijklmnopqrstuvwxyz".to_string()), "abcdefghijklmnop");
    assert_eq!(brutal_cut("0123456789abcdef".to_string()), "0123456789abcdef");
    assert_eq!(brutal_cut("short".to_string()), "short");
    assert_eq!(brutal_cut(String::new()), "");
}

#[test]
fn brutal_cut_on_multibyte_text() {
    // nine two-byte letters: the cut falls between the eighth and the ninth
    assert_eq!(brutal_cut("ąąąąąąąąą".to_string()), "ąąąąąąąą");
    // the cut falls inside the eighth two-byte letter, which is replaced
    assert_eq!(brutal_cut("aąąąąąąąąą".to_string()), "aąąąąąąą\u{FFFD}");
}

#[test]
fn brutal_cut_after_convert_polish() {
    let shown = brutal_cut(convert_polish("Przeżyj to sam, Lombard".to_string()));
    assert_eq!(shown, "Przezyj to sam, ");
    assert!(shown.is_ascii() && shown.len() <= 16);
}

#[test]
fn client_id_round_trip() {
    let id = ClientID::from_id("abc123".to_string());
    assert_eq!(id.get(), "abc123");
}

#[test]
fn get_token_joins_type_and_access_token() {
    let t = TokenRes::from_parts("BQD".to_string(), "Bearer".to_string(), 3600, "AQC".to_string());
    assert_eq!(t.get_token(), "Bearer BQD");
    assert_eq!(t.stored_refresh_token(), "AQC");
}

#[test]
fn refresh_params_of_stored_token() {
    let t = TokenRes::from_refresh_token("AQC-refresh".to_string());
    assert_eq!(t.get_token(), " ");
    let id = ClientID::from_id("cid".to_string());
    assert_eq!(
        t.refresh_token_params(&id),
        pairs(&[("grant_type", "refresh_token"), ("refresh_token", "AQC-refresh"), ("client_id", "cid")])
    );
}

#[test]
fn token_request_form() {
    let auth = UserAuth { code: "the-code".to_string(), state: "st".to_string(), code_verifier: "ver".to_string() };
    let id = ClientID::from_id("cid".to_string());
    assert_eq!(
        token_request_params(&auth, &id),
        pairs(&[
            ("grant_type", "authorization_code"),
            ("code", "the-code"),
            ("redirect_uri", "http://localhost:8080"),
            ("client_id", "cid"),
            ("code_verifier", "ver"),
        ])
    );
    assert_eq!(REDIRECT_URI, "http://localhost:8080");
}

#[test]
fn authorize_query_and_address() {
    let id = ClientID::from_id("cid".to_string());
    assert_eq!(
        authorize_params(&id, "S", "C"),
        pairs(&[
            ("response_type", "code"),
            ("client_id", "cid"),
            ("scope", "user-read-playback-state user-read-currently-playing"),
            ("redirect_uri", "http://localhost:8080"),
            ("state", "S"),
            ("code_challenge_method", "S256"),
            ("code_challenge", "C"),
        ])
    );
    assert_eq!(
        authorize_url(&id, "S", "C"),
        "https://accounts.spotify.com/authorize?response_type=code&client_id=cid&scope=user-read-playback-state user-read-currently-playing&redirect_uri=http://localhost:8080&state=S&code_challenge_method=S256&code_challenge=C&"
    );
}

#[test]
fn alphabet_order() {
    assert_eq!(alphabet_char(0), 'A');
    assert_eq!(alphabet_char(25), 'Z');
    assert_eq!(alphabet_char(26), 'a');
    assert_eq!(alphabet_char(52), '0');
    assert_eq!(alphabet_char(61), '9');
}

#[test]
fn random_strings_have_the_asked_length() {
    let s = gen_rand_string(16);
    assert_eq!(s.chars().count(), 16);
    assert!(alphanumeric(&s));
    let long = gen_rand_string(128);
    assert_eq!(long.chars().count(), 128);
    assert!(alphanumeric(&long));
    assert_eq!(gen_rand_string(0), "");
    assert_eq!(gen_rand_string(-5), "");
}

#[test]
fn code_challenge_of_rfc7636_example() {
    let verifier = "dBjftJeZ4CVP-mB92K27uhbUJU1p1r_wW1gFWFOEjXk".to_string();
    assert_eq!(get_encoded_hash(&verifier), "E9Melhoa2OwvFrEMTJguCHaoeK1t8URWbuGJSstw-cM");
}

#[test]
fn code_challenge_shape() {
    let c = get_encoded_hash(&"".to_string());
    assert_eq!(c, "47DEQpj8HBSa-_TImW-5JCeuQeRkm5NMpJWZG3hSuFU");
    assert_eq!(c.len(), 43);
    assert!(c.chars().all(|ch| ch.is_ascii_alphanumeric() || ch == '-' || ch == '_'));
}

#[test]
fn prepare_user_auth_fits_together() {
    let id = ClientID::from_id("cid".to_string());
    let req = prepare_user_auth(&id);
    assert_eq!(req.state.len(), 16);
    assert_eq!(req.code_verifier.len(), 128);
    assert!(alphanumeric(&req.state) && alphanumeric(&req.code_verifier));
    assert_eq!(req.code_challenge, get_encoded_hash(&req.code_verifier));
    assert_eq!(req.url, authorize_url(&id, &req.state, &req.code_challenge));
}

#[test]
fn complete_user_auth_checks_state() {
    let got = UserAuth { code: "c0de".to_string(), state: "s1".to_string(), code_verifier: String::new() };
    let accepted = complete_user_auth(got, &"s1".to_string(), "verifier".to_string()).unwrap();
    assert_eq!(accepted.code, "c0de");
    assert_eq!(accepted.state, "s1");
    assert_eq!(accepted.code_verifier, "verifier");
    let other = UserAuth { code: "c0de".to_string(), state: "s2".to_string(), code_verifier: String::new() };
    assert!(complete_user_auth(other, &"s1".to_string(), "verifier".to_string()).is_none());
}

#[test]
fn token_start_choice() {
    match token_start(Some("AQC".to_string())) {
        TokenStart::Refresh(t) => assert_eq!(t.stored_refresh_token(), "AQC"),
        TokenStart::Authorize => panic!("a stored token is refreshed"),
    }
    assert!(matches!(token_start(None), TokenStart::Authorize));
}

#[test]
fn parse_redirect_request_reads_code_and_state() {
    let auth = parse_redirect_request("GET /?code=AQBx-9_z&state=Ab12Cd34Ef56Gh78 HTTP/1.1").unwrap();
    assert_eq!(auth.code, "AQBx-9_z");
    assert_eq!(auth.state, "Ab12Cd34Ef56Gh78");
    assert_eq!(auth.code_verifier, "");
    let other = parse_redirect_request("GET /callback?error=access_denied&state=xyz HTTP/1.1").unwrap();
    assert_eq!(other.code, "access_denied");
    assert_eq!(other.state, "xyz");
}

#[test]
fn parse_redirect_request_malformed() {
    assert!(parse_redirect_request("GET / HTTP/1.1").is_none());
    assert!(parse_redirect_request("GET /?code=1 HTTP/1.1").is_none());
    assert!(parse_redirect_request("GET /?code&state=2 HTTP/1.1").is_none());
    assert!(parse_redirect_request("GET /?code=1&state HTTP/1.1").is_none());
    assert!(parse_redirect_request("").is_none());
}

#[test]
fn ok_response_counts_bytes() {
    assert_eq!(ok_response("<p>ok</p>"), "HTTP/1.1 200 OK\r\nContent-Length: 9\r\n\r\n<p>ok</p>");
    assert_eq!(ok_response(""), "HTTP/1.1 200 OK\r\nContent-Length: 0\r\n\r\n");
    assert_eq!(ok_response("żółw"), "HTTP/1.1 200 OK\r\nContent-Length: 7\r\n\r\nżółw");
}

#[test]
fn decimal_numerals() {
    let mut s = String::from("n=");
    push_decimal(&mut s, 0);
    assert_eq!(s, "n=0");
    let mut t = String::new();
    push_decimal(&mut t, 1234567890);
    assert_eq!(t, "1234567890");
    let mut u = String::new();
    push_decimal(&mut u, usize::MAX);
    assert_eq!(u, usize::MAX.to_string());
}

#[test]
fn split_pieces_like_str_split() {
    assert_eq!(split_pieces("a?b?", '?'), vec!["a", "b", ""]);
    assert_eq!(split_pieces("", '&'), vec![""]);
    assert_eq!(split_pieces("k=v=w", '='), vec!["k", "v", "w"]);
    let line = "GET /?code=1&state=2 HTTP/1.1";
    let expected: Vec<&str> = line.split(' ').collect();
    assert_eq!(split_pieces(line, ' '), expected);
}

#[test]
fn track_analysis_address() {
    assert_eq!(track_analysis_url("4uLU6hMCjMI75M1A2tKUQC"), "https://api.spotify.com/v1/audio-analysis/4uLU6hMCjMI75M1A2tKUQC");
}

fn artist(name: &str) -> ArtistSection {
    ArtistSection { name: name.to_string() }
}

#[test]
fn artists_are_joined_with_commas() {
    assert_eq!(artists_line(&vec![]), "");
    assert_eq!(artists_line(&vec![artist("Daft Punk")]), "Daft Punk");
    assert_eq!(artists_line(&vec![artist("A"), artist("B"), artist("C")]), "A, B, C");
}

#[test]
fn track_message_for_display() {
    let item = ItemSection {
        name: "Przeżyj to sam (remastered)".to_string(),
        artists: vec![artist("Lombard"), artist("Małgorzata Ostrowska")],
        id: "x".to_string(),
    };
    assert_eq!(track_message(&item), "0Przezyj to sam (&Lombard, Malgorz");
    let short = ItemSection { name: "ą".to_string(), artists: vec![], id: String::new() };
    assert_eq!(track_message(&short), "0a&");
}

#[test]
fn beat_messages() {
    assert_eq!(beat_message(true), "11");
    assert_eq!(beat_message(false), "10");
}

fn state(id: &str, playing: bool) -> PlaybackState {
    PlaybackState {
        item: ItemSection { name: String::new(), artists: vec![], id: id.to_string() },
        progress_ms: 0,
        is_playing: playing,
    }
}

#[test]
fn playback_steps() {
    let current = state("t1", true);
    assert_eq!(playback_step(&current, 10, &state("t1", false), 20), PlaybackStep::Stop);
    assert_eq!(playback_step(&current, 10, &state("t1", true), 10), PlaybackStep::Keep);
    assert_eq!(playback_step(&current, 10, &state("t1", true), 20), PlaybackStep::Restart { new_track: false });
    assert_eq!(playback_step(&current, 10, &state("t2", true), 20), PlaybackStep::Restart { new_track: true });
}

#[test]
fn default_playback_state_is_empty() {
    let s = PlaybackState::default();
    assert!(!s.is_playing);
    assert_eq!(s.progress_ms, 0);
    assert_eq!(s.item.id, "");
    assert!(s.item.artists.is_empty());
}

#[test]
fn split_pieces_join_back() {
    for (text, sep) in [("GET /?a=1&b=2 HTTP/1.1", '&'), ("??", '?'), ("no separator", '='), ("", ' ')] {
        let pieces = split_pieces(text, sep);
        assert_eq!(pieces.join(&sep.to_string()), text);
        assert!(pieces.iter().all(|p| !p.contains(sep)));
    }
}

#[test]
fn brutal_cut_keeps_short_text_whole() {
    assert_eq!(brutal_cut("żółw".to_string()), "żółw");
    assert_eq!(brutal_cut("Łódź, ćma".to_string()), "Łódź, ćma");
}

#[test]
fn brutal_cut_twice_changes_nothing() {
    for text in ["aaaaaaaaaaaaaaa€uro", "aąąąąąąąąą", "ąąąąąąąąą", "abcdefghijklmnopqrstuvwxyz", "日本語のテキストです"] {
        let once = brutal_cut(text.to_string());
        assert!(once.chars().count() <= 16 && once.len() <= 18);
        assert_eq!(brutal_cut(once.clone()), once);
    }
    assert_eq!(brutal_cut("aaaaaaaaaaaaaaa€uro".to_string()), "aaaaaaaaaaaaaaa\u{FFFD}");
    assert_eq!(brutal_cut("日本語のテキストです".to_string()), "日本語のテ\u{FFFD}");
}

//! The local redirect endpoint: reading the authorization code and state out
//! of the request line, and the answer sent back to the browser.

use vstd::prelude::*;
use vstd::string::*;
use crate::auth::UserAuth;
use crate::strings::{
    decimal, push_decimal, lemma_split_concat, lemma_split_on_nonempty, lemma_split_single, split_on, split_pieces,
};

verus! {

/// The code and the state that the request line `line` carries, or `None`
/// where the line lacks a part that they are read from. The query is what
/// follows the first `?` up to the next `?` and the next space; its first two
/// `&`-separated parameters give, after their first `=`, the code and the
/// state, whatever their names.
pub open spec fn redirect_params(line: Seq<char>) -> Option<(Seq<char>, Seq<char>)> {
    let halves = split_on(line, '?');
    if halves.len() < 2 {
        None
    } else {
        let query = split_on(halves[1], ' ')[0];
        let params = split_on(query, '&');
        if params.len() < 2 {
            None
        } else {
            let first = split_on(params[0], '=');
            let second = split_on(params[1], '=');
            if first.len() < 2 || second.len() < 2 {
                None
            } else {
                Some((first[1], second[1]))
            }
        }
    }
}

/// Reads the authorization code and state out of the first line of the
/// redirect request; the code verifier is left empty.
pub fn parse_redirect_request(line: &str) -> (r: Option<UserAuth>)
    ensures
        match r {
            None => redirect_params(line@) is None,
            Some(auth) => {
                &&& redirect_params(line@) == Some((auth.code@, auth.state@))
                &&& auth.code_verifier@ == Seq::<char>::empty()
            },
        },
{
    let halves = split_pieces(line, '?');
    if halves.len() < 2 {
        return None;
    }
    let targets = split_pieces(halves[1].as_str(), ' ');
    proof {
        lemma_split_on_nonempty(halves@[1]@, ' ');
    }
    let params = split_pieces(targets[0].as_str(), '&');
    if params.len() < 2 {
        return None;
    }
    let first = split_pieces(params[0].as_str(), '=');
    let second = split_pieces(params[1].as_str(), '=');
    if first.len() < 2 || second.len() < 2 {
        return None;
    }
    Some(UserAuth { code: first[1].clone(), state: second[1].clone(), code_verifier: String::new() })
}

/// True where `s` holds none of the characters that delimit the request line's
/// parts.
pub open spec fn free_of_delimiters(s: Seq<char>) -> bool {
    !s.contains('?') && !s.contains(' ') && !s.contains('&') && !s.contains('=')
}

/// A request line `path?k1=code&k2=state rest`, with none of the delimiters in
/// the names and values, in the path no `?`, and `rest` empty or starting with
/// a space and free of `?`, gives back the code and the state.
pub proof fn lemma_redirect_round_trip(
    path: Seq<char>,
    k1: Seq<char>,
    code: Seq<char>,
    k2: Seq<char>,
    state: Seq<char>,
    rest: Seq<char>,
)
    requires
        !path.contains('?'),
        free_of_delimiters(k1),
        free_of_delimiters(code),
        free_of_delimiters(k2),
        free_of_delimiters(state),
        rest.len() == 0 || rest[0] == ' ',
        !rest.contains('?'),
    ensures
        redirect_params(
            path + seq!['?'] + k1 + seq!['='] + code + seq!['&'] + k2 + seq!['='] + state + rest,
        ) == Some((code, state)),
{
    let p1 = k1 + seq!['='] + code;
    let p2 = k2 + seq!['='] + state;
    let query = p1 + seq!['&'] + p2;
    let after = query + rest;
    let line = path + seq!['?'] + k1 + seq!['='] + code + seq!['&'] + k2 + seq!['='] + state + rest;
    assert(line =~= path + seq!['?'] + after);
    lemma_split_concat(path, after, '?');
    lemma_split_single(path, '?');
    assert(!after.contains('?')) by {
        if after.contains('?') {
            let k = choose|k: int| 0 <= k < after.len() && after[k] == '?';
            if k < k1.len() {
                assert(k1[k] == '?');
            } else if k == k1.len() {
            } else if k < k1.len() + 1 + code.len() {
                assert(code[k - k1.len() - 1] == '?');
            } else if k == k1.len() + 1 + code.len() {
            } else if k < k1.len() + 2 + code.len() + k2.len() {
                assert(k2[k - k1.len() - 2 - code.len()] == '?');
            } else if k == k1.len() + 2 + code.len() + k2.len() {
            } else if k < query.len() {
                assert(state[k - k1.len() - 3 - code.len() - k2.len()] == '?');
            } else {
                assert(rest[k - query.len()] == '?');
            }
        }
    }
    lemma_split_single(after, '?');
    assert(split_on(line, '?') =~= seq![path, after]);
    assert(!query.contains(' ')) by {
        if query.contains(' ') {
            let k = choose|k: int| 0 <= k < query.len() && query[k] == ' ';
            if k < k1.len() {
                assert(k1[k] == ' ');
            } else if k == k1.len() {
            } else if k < k1.len() + 1 + code.len() {
                assert(code[k - k1.len() - 1] == ' ');
            } else if k == k1.len() + 1 + code.len() {
            } else if k < k1.len() + 2 + code.len() + k2.len() {
                assert(k2[k - k1.len() - 2 - code.len()] == ' ');
            } else if k == k1.len() + 2 + code.len() + k2.len() {
            } else {
                assert(state[k - k1.len() - 3 - code.len() - k2.len()] == ' ');
            }
        }
    }
    if rest.len() == 0 {
        assert(after =~= query);
        lemma_split_single(query, ' ');
    } else {
        assert(after =~= query + seq![' '] + rest.drop_first());
        lemma_split_concat(query, rest.drop_first(), ' ');
        lemma_split_single(query, ' ');
        lemma_split_on_nonempty(rest.drop_first(), ' ');
    }
    assert(split_on(after, ' ')[0] == query);
    assert(!p1.contains('&')) by {
        if p1.contains('&') {
            let k = choose|k: int| 0 <= k < p1.len() && p1[k] == '&';
            if k < k1.len() {
                assert(k1[k] == '&');
            } else if k > k1.len() {
                assert(code[k - k1.len() - 1] == '&');
            }
        }
    }
    assert(!p2.contains('&')) by {
        if p2.contains('&') {
            let k = choose|k: int| 0 <= k < p2.len() && p2[k] == '&';
            if k < k2.len() {
                assert(k2[k] == '&');
            } else if k > k2.len() {
                assert(state[k - k2.len() - 1] == '&');
            }
        }
    }
    lemma_split_concat(p1, p2, '&');
    lemma_split_single(p1, '&');
    lemma_split_single(p2, '&');
    assert(split_on(query, '&') =~= seq![p1, p2]);
    lemma_split_concat(k1, code, '=');
    lemma_split_single(k1, '=');
    lemma_split_single(code, '=');
    assert(split_on(p1, '=') =~= seq![k1, code]);
    lemma_split_concat(k2, state, '=');
    lemma_split_single(k2, '=');
    lemma_split_single(state, '=');
    assert(split_on(p2, '=') =~= seq![k2, state]);
}

/// The answer to the redirect request: status line, a `Content-Length` header
/// that gives the body's length in bytes, an empty line, and the body.
pub fn ok_response(contents: &str) -> (r: String)
    ensures
        r@ == "HTTP/1.1 200 OK\r\nContent-Length: "@ + decimal(contents.len() as nat)
            + "\r\n\r\n"@ + contents@,
{
    let mut r = String::from_str("HTTP/1.1 200 OK\r\nContent-Length: ");
    push_decimal(&mut r, contents.len());
    r.append("\r\n\r\n");
    r.append(contents);
    r
}

} // verus!

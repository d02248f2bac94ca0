//! Text for the LED display: Polish letters folded to ASCII, and texts cut
//! to the sixteen bytes that a display line holds.

use vstd::prelude::*;
use vstd::utf8::*;
use crate::strings::push_char;

verus! {

/// The character that `c` becomes on the display: each Polish letter with a
/// diacritic (lower and upper case) becomes its ASCII base letter, every other
/// ASCII character stays, and any other character becomes `?`.
pub open spec fn polish_char(c: char) -> char {
    if c == '\u{105}' { 'a' }                         // a with ogonek
    else if c == '\u{107}' { 'c' }                    // c with acute
    else if c == '\u{119}' { 'e' }                    // e with ogonek
    else if c == '\u{142}' { 'l' }                    // l with stroke
    else if c == '\u{144}' { 'n' }                    // n with acute
    else if c == '\u{f3}' { 'o' }                     // o with acute
    else if c == '\u{15b}' { 's' }                    // s with acute
    else if c == '\u{17a}' || c == '\u{17c}' { 'z' }  // z with acute, z with dot
    else if c == '\u{104}' { 'A' }
    else if c == '\u{106}' { 'C' }
    else if c == '\u{118}' { 'E' }
    else if c == '\u{141}' { 'L' }
    else if c == '\u{143}' { 'N' }
    else if c == '\u{d3}' { 'O' }
    else if c == '\u{15a}' { 'S' }
    else if c == '\u{179}' || c == '\u{17b}' { 'Z' }
    else if c <= '\u{7f}' { c }
    else { '?' }
}

/// The display form of a whole text.
pub open spec fn polish_text(s: Seq<char>) -> Seq<char> {
    s.map_values(|c: char| polish_char(c))
}

/// Each Polish letter with a diacritic, lower or upper case, folds to its
/// ASCII base letter in the same case.
pub proof fn lemma_polish_letters()
    ensures
        polish_char('\u{105}') == 'a' && polish_char('\u{104}') == 'A',
        polish_char('\u{107}') == 'c' && polish_char('\u{106}') == 'C',
        polish_char('\u{119}') == 'e' && polish_char('\u{118}') == 'E',
        polish_char('\u{142}') == 'l' && polish_char('\u{141}') == 'L',
        polish_char('\u{144}') == 'n' && polish_char('\u{143}') == 'N',
        polish_char('\u{f3}') == 'o' && polish_char('\u{d3}') == 'O',
        polish_char('\u{15b}') == 's' && polish_char('\u{15a}') == 'S',
        polish_char('\u{17a}') == 'z' && polish_char('\u{179}') == 'Z',
        polish_char('\u{17c}') == 'z' && polish_char('\u{17b}') == 'Z',
{
}

/// Characters that are neither ASCII nor a Polish letter with a diacritic
/// show as `?`.
pub proof fn lemma_polish_other(c: char)
    requires
        c > '\u{7f}',
        c != '\u{105}' && c != '\u{104}' && c != '\u{107}' && c != '\u{106}',
        c != '\u{119}' && c != '\u{118}' && c != '\u{142}' && c != '\u{141}',
        c != '\u{144}' && c != '\u{143}' && c != '\u{f3}' && c != '\u{d3}',
        c != '\u{15b}' && c != '\u{15a}' && c != '\u{17a}' && c != '\u{179}',
        c != '\u{17c}' && c != '\u{17b}',
    ensures
        polish_char(c) == '?',
{
}

fn fold_polish_char(c: char) -> (r: char)
    ensures
        r == polish_char(c),
{
    match c {
        '\u{105}' => 'a',
        '\u{107}' => 'c',
        '\u{119}' => 'e',
        '\u{142}' => 'l',
        '\u{144}' => 'n',
        '\u{f3}' => 'o',
        '\u{15b}' => 's',
        '\u{17a}' | '\u{17c}' => 'z',
        '\u{104}' => 'A',
        '\u{106}' => 'C',
        '\u{118}' => 'E',
        '\u{141}' => 'L',
        '\u{143}' => 'N',
        '\u{d3}' => 'O',
        '\u{15a}' => 'S',
        '\u{179}' | '\u{17b}' => 'Z',
        _ => if (c as u32) < 128 { c } else { '?' },
    }
}

/// Replaces the Polish letters with diacritics by their ASCII base letters and
/// every other non-ASCII character by `?`.
pub fn convert_polish(text: String) -> (r: String)
    ensures
        r@ == polish_text(text@),
        is_ascii_chars(r@),
        r@.len() == text@.len(),
        is_ascii_chars(text@) ==> r@ == text@,
{
    broadcast use vstd::string::group_string_axioms;

    let mut r = String::new();
    for c in it: text.as_str().chars()
        invariant
            it.seq() == text@,
            r@ == polish_text(it.seq().take(it.index() as int)),
    {
        let ghost done = it.seq().take(it.index() as int);
        let folded = fold_polish_char(c);
        push_char(&mut r, folded);
        proof {
            assert(it.seq().take(it.index() + 1) =~= done.push(c));
            assert(polish_text(done.push(c)) =~= polish_text(done).push(folded));
        }
    }
    proof {
        assert(text@.take(text@.len() as int) =~= text@);
        lemma_polish_text_ascii(text@);
        if is_ascii_chars(text@) {
            lemma_polish_fixes_ascii(text@);
        }
    }
    r
}

/// Every character of a display form is ASCII.
pub proof fn lemma_polish_text_ascii(s: Seq<char>)
    ensures
        is_ascii_chars(polish_text(s)),
        polish_text(s).len() == s.len(),
{
    assert forall|i: int| 0 <= i < polish_text(s).len() implies '\0' <= #[trigger] polish_text(s)[i] <= '\u{7f}' by {
        let c = s[i];
        assert(polish_text(s)[i] == polish_char(c));
    }
}

/// ASCII text is its own display form.
pub proof fn lemma_polish_fixes_ascii(s: Seq<char>)
    requires
        is_ascii_chars(s),
    ensures
        polish_text(s) == s,
{
    assert forall|i: int| 0 <= i < s.len() implies #[trigger] polish_text(s)[i] == s[i] by {
        assert('\0' <= s[i] <= '\u{7f}');
    }
    assert(polish_text(s) =~= s);
}

/// Folding a second time changes nothing.
pub proof fn lemma_polish_idempotent(s: Seq<char>)
    ensures
        polish_text(polish_text(s)) == polish_text(s),
{
    lemma_polish_text_ascii(s);
    lemma_polish_fixes_ascii(polish_text(s));
}

/// What `String::from_utf8_lossy` makes of a byte sequence.
pub uninterp spec fn utf8_lossy(bytes: Seq<u8>) -> Seq<char>;

/// A proper, non-empty beginning of the UTF-8 encoding of one character: what
/// is left of a character that a cut went through.
pub open spec fn cut_char_bytes(tail: Seq<u8>) -> bool {
    exists|v: u32|
        is_scalar(v) && 0 < tail.len() < (#[trigger] encode_scalar(v)).len()
            && tail == encode_scalar(v).take(tail.len() as int)
}

/// `String::from_utf8_lossy`, turned into an owned `String`. Claims that the
/// result is `utf8_lossy` of the bytes, and two things its documentation
/// shows: valid UTF-8 comes back decoded unchanged, and valid UTF-8 followed by
/// an incomplete character (its example: `"Hello \xF0\x90\x80World"` gives
/// `"Hello \u{FFFD}World"`) comes back as the decoded part and one U+FFFD.
/// What it makes of other invalid sequences is left to the name.
#[verifier::external_body]
fn decode_utf8_lossy(bytes: &[u8]) -> (r: String)
    ensures
        r@ == utf8_lossy(bytes@),
        valid_utf8(bytes@) ==> r@ == decode_utf8(bytes@),
        forall|j: int|
            0 <= j < bytes@.len() && valid_utf8(#[trigger] bytes@.take(j)) && cut_char_bytes(bytes@.skip(j))
                ==> r@ == decode_utf8(bytes@.take(j)).push('\u{FFFD}'),
{
    String::from_utf8_lossy(bytes).to_string()
}

/// How many bytes of a text of `len` bytes stay on the display.
pub open spec fn cut_len(len: nat) -> nat {
    if len < 16 { len } else { 16 }
}

/// Where a text is cut: after the first sixteen bytes of its UTF-8 encoding,
/// or at its end.
pub open spec fn cut_point(s: Seq<char>) -> int {
    cut_len(encode_utf8(s).len()) as int
}

/// How many leading characters of `s` have their whole encoding within the
/// first `n` bytes.
pub open spec fn fitting_chars(s: Seq<char>, n: int) -> nat
    decreases s.len(),
{
    if s.len() == 0 || encode_utf8(s).len() <= n {
        s.len()
    } else {
        fitting_chars(s.drop_last(), n)
    }
}

/// A text as `brutal_cut` leaves it: the characters whose encoding lies wholly
/// within the first sixteen bytes, followed by one U+FFFD where the cut goes
/// through a character.
pub open spec fn cut_text(s: Seq<char>) -> Seq<char> {
    let m = fitting_chars(s, cut_point(s));
    if encode_utf8(s.take(m as int)).len() < cut_point(s) {
        s.take(m as int).push('\u{FFFD}')
    } else {
        s.take(m as int)
    }
}

/// The encoding of two texts one after the other is the two encodings one
/// after the other.
pub proof fn lemma_encode_utf8_concat(a: Seq<char>, b: Seq<char>)
    ensures
        encode_utf8(a + b) == encode_utf8(a) + encode_utf8(b),
    decreases a.len(),
{
    if a.len() == 0 {
        assert(a + b =~= b);
        assert(encode_utf8(a) + encode_utf8(b) =~= encode_utf8(b));
    } else {
        lemma_encode_utf8_concat(a.drop_first(), b);
        assert((a + b).drop_first() =~= a.drop_first() + b);
        assert((a + b)[0] == a[0]);
        assert(encode_utf8(a + b) =~= encode_utf8(a) + encode_utf8(b));
    }
}

/// Each character takes at least one byte.
pub proof fn lemma_encode_utf8_len(s: Seq<char>)
    ensures
        encode_utf8(s).len() >= s.len(),
    decreases s.len(),
{
    if s.len() > 0 {
        lemma_encode_utf8_len(s.drop_first());
    }
}

proof fn lemma_encode_one(c: char)
    ensures
        encode_utf8(seq![c]) == encode_scalar(c as u32),
{
    let one = seq![c];
    assert(one.drop_first() =~= Seq::<char>::empty());
    assert(one[0] == c);
    assert(encode_utf8(one) == encode_scalar(one[0] as u32) + encode_utf8(one.drop_first()));
    assert(encode_utf8(one) =~= encode_scalar(c as u32));
}

proof fn lemma_encode_take_next(s: Seq<char>, m: int)
    requires
        0 <= m < s.len(),
    ensures
        encode_utf8(s.take(m + 1)) == encode_utf8(s.take(m)) + encode_scalar(s[m] as u32),
{
    assert(s.take(m + 1) =~= s.take(m) + seq![s[m]]);
    lemma_encode_utf8_concat(s.take(m), seq![s[m]]);
    lemma_encode_one(s[m]);
}

proof fn lemma_encode_take_monotone(s: Seq<char>, i: int, j: int)
    requires
        0 <= i <= j <= s.len(),
    ensures
        encode_utf8(s.take(i)).len() <= encode_utf8(s.take(j)).len(),
{
    assert(s.take(j) =~= s.take(i) + s.subrange(i, j));
    lemma_encode_utf8_concat(s.take(i), s.subrange(i, j));
}

proof fn lemma_fitting_chars(s: Seq<char>, n: int)
    requires
        n >= 0,
    ensures
        fitting_chars(s, n) <= s.len(),
        encode_utf8(s.take(fitting_chars(s, n) as int)).len() <= n,
        fitting_chars(s, n) < s.len() ==> encode_utf8(s.take(fitting_chars(s, n) as int + 1)).len() > n,
    decreases s.len(),
{
    let m = fitting_chars(s, n) as int;
    if s.len() == 0 {
        assert(s.take(0) =~= Seq::<char>::empty());
    } else if encode_utf8(s).len() <= n {
        assert(s.take(s.len() as int) =~= s);
    } else {
        let d = s.drop_last();
        lemma_fitting_chars(d, n);
        assert(d.take(m) =~= s.take(m));
        if m < d.len() {
            assert(d.take(m + 1) =~= s.take(m + 1));
        } else {
            assert(s.take(m + 1) =~= s);
        }
    }
}

/// The facts about `fitting_chars` as a whole: no other count has them.
proof fn lemma_fitting_chars_unique(s: Seq<char>, n: int, m: int)
    requires
        n >= 0,
        0 <= m <= s.len(),
        encode_utf8(s.take(m)).len() <= n,
        m < s.len() ==> encode_utf8(s.take(m + 1)).len() > n,
    ensures
        fitting_chars(s, n) == m,
{
    let f = fitting_chars(s, n) as int;
    lemma_fitting_chars(s, n);
    if f < m {
        lemma_encode_take_monotone(s, f + 1, m);
    } else if f > m {
        lemma_encode_take_monotone(s, m + 1, f);
    }
}

/// A text of at most sixteen bytes is left whole.
pub proof fn lemma_cut_text_fits(s: Seq<char>)
    requires
        encode_utf8(s).len() <= 16,
    ensures
        cut_text(s) == s,
{
    assert(s.take(s.len() as int) =~= s);
    lemma_fitting_chars_unique(s, cut_point(s), s.len() as int);
}

/// A cut text has at most sixteen characters and at most eighteen bytes
/// (fifteen kept bytes and a three-byte U+FFFD).
pub proof fn lemma_cut_text_size(s: Seq<char>)
    ensures
        cut_text(s).len() <= 16,
        encode_utf8(cut_text(s)).len() <= 18,
{
    let k = cut_point(s);
    lemma_fitting_chars(s, k);
    let m = fitting_chars(s, k) as int;
    let t = s.take(m);
    lemma_encode_utf8_len(t);
    if encode_utf8(t).len() < k {
        assert(t.push('\u{FFFD}') =~= t + seq!['\u{FFFD}']);
        lemma_encode_utf8_concat(t, seq!['\u{FFFD}']);
        lemma_encode_one('\u{FFFD}');
        assert(encode_scalar('\u{FFFD}' as u32).len() == 3);
    }
}

/// Cutting a cut text again changes nothing.
pub proof fn lemma_cut_text_idempotent(s: Seq<char>)
    ensures
        cut_text(cut_text(s)) == cut_text(s),
{
    let r = cut_text(s);
    lemma_cut_text_size(s);
    if encode_utf8(r).len() <= 16 {
        lemma_cut_text_fits(r);
    } else {
        let k = cut_point(s);
        lemma_fitting_chars(s, k);
        let m = fitting_chars(s, k) as int;
        let t = s.take(m);
        assert(t.push('\u{FFFD}') =~= t + seq!['\u{FFFD}']);
        lemma_encode_utf8_concat(t, seq!['\u{FFFD}']);
        lemma_encode_one('\u{FFFD}');
        assert(encode_scalar('\u{FFFD}' as u32).len() == 3);
        // the cut went through a character, so the text was longer than 16 bytes
        assert(encode_utf8(t).len() < k);
        if m == s.len() {
            assert(t =~= s);
        }
        assert(k == 16);
        assert(r == t.push('\u{FFFD}'));
        assert(r.take(m) =~= t);
        assert(r.take(m + 1) =~= r);
        assert(cut_point(r) == 16);
        lemma_fitting_chars_unique(r, 16, m);
    }
}

/// Where a text is cut: after exactly its first sixteen bytes when it has
/// that many, otherwise at its end.
pub proof fn lemma_cut_point(s: Seq<char>)
    ensures
        encode_utf8(s).len() >= 16 ==> cut_point(s) == 16,
        encode_utf8(s).len() < 16 ==> cut_point(s) == encode_utf8(s).len(),
{
}

/// An ASCII text keeps exactly its first sixteen characters, or all of them
/// where it has fewer.
pub proof fn lemma_cut_text_ascii(s: Seq<char>)
    requires
        is_ascii_chars(s),
    ensures
        cut_text(s) == s.take(if s.len() < 16 { s.len() as int } else { 16 }),
        cut_text(s).len() == if s.len() < 16 { s.len() } else { 16 },
{
    broadcast use vstd::utf8::group_utf8_lib;

    is_ascii_chars_encode_utf8(s);
    let n: int = if s.len() < 16 { s.len() as int } else { 16 };
    assert(cut_point(s) == n);
    let t = s.take(n);
    assert(is_ascii_chars(t));
    is_ascii_chars_encode_utf8(t);
    assert(encode_utf8(t).len() == n);
    if n < s.len() {
        let t1 = s.take(n + 1);
        assert(is_ascii_chars(t1));
        is_ascii_chars_encode_utf8(t1);
    } else {
        assert(t =~= s);
    }
    lemma_fitting_chars_unique(s, n, n);
}

/// The first sixteen bytes of `text`'s UTF-8 encoding, decoded back with
/// invalid sequences replaced: the characters that fit wholly, and one U+FFFD
/// where the cut goes through a character.
pub fn brutal_cut(text: String) -> (r: String)
    ensures
        r@ == cut_text(text@),
        r@ == utf8_lossy(encode_utf8(text@).take(cut_point(text@))),
        is_char_boundary(encode_utf8(text@), cut_point(text@)) ==> r@ == decode_utf8(
            encode_utf8(text@).take(cut_point(text@)),
        ),
        is_char_boundary(encode_utf8(text@), cut_point(text@)) ==> r@.is_prefix_of(text@),
        encode_utf8(text@).len() <= 16 ==> r@ == text@,
        r@.len() <= 16,
        encode_utf8(r@).len() <= 18,
        is_ascii_chars(text@) ==> r@ == text@.take(cut_len(text@.len()) as int),
        encode_utf8(text@).len() >= 16 ==> r@ == utf8_lossy(encode_utf8(text@).take(16)),
        encode_utf8(text@).len() < 16 ==> r@ == utf8_lossy(encode_utf8(text@)),
        is_ascii_chars(text@) ==> r@ == text@.take(if text@.len() < 16 { text@.len() as int } else { 16 }),
{
    broadcast use vstd::utf8::group_utf8_lib;

    let bytes = text.as_str().as_bytes();
    let ghost all = encode_utf8(text@);
    let mut buf: Vec<u8> = Vec::new();
    let mut i: usize = 0;
    while i < bytes.len() && i <= 15
        invariant
            bytes@ == all,
            i <= bytes@.len(),
            i <= 16,
            buf@ == all.take(i as int),
        decreases bytes@.len() - i,
    {
        buf.push(bytes[i]);
        i = i + 1;
        proof {
            assert(buf@ =~= all.take(i as int));
        }
    }
    proof {
        assert(i == cut_len(all.len()));
        assert(all.len() < 16 ==> all.take(i as int) =~= all);
    }
    let r = decode_utf8_lossy(buf.as_slice());
    proof {
        let k = i as int;
        let s = text@;
        lemma_fitting_chars(s, k);
        let m = fitting_chars(s, k) as int;
        let t = s.take(m);
        let e = encode_utf8(t);
        if m == s.len() {
            assert(t =~= s);
            assert(buf@ =~= all);
        } else {
            lemma_encode_take_next(s, m);
            let sc = encode_scalar(s[m] as u32);
            assert(s =~= s.take(m + 1) + s.skip(m + 1));
            lemma_encode_utf8_concat(s.take(m + 1), s.skip(m + 1));
            assert(all =~= e + sc + encode_utf8(s.skip(m + 1)));
            if k == e.len() {
                assert(buf@ =~= e);
            } else {
                let tail = sc.take(k - e.len());
                assert(buf@ =~= e + tail);
                assert(buf@.take(e.len() as int) =~= e);
                assert(buf@.skip(e.len() as int) =~= tail);
                let v = s[m] as u32;
                char_is_scalar(s[m]);
                assert(tail =~= encode_scalar(v).take(tail.len() as int));
                assert(0 < tail.len() < encode_scalar(v).len());
                assert(cut_char_bytes(tail));
                assert(valid_utf8(buf@.take(e.len() as int)));
            }
        }
        if is_char_boundary(all, k) {
            valid_utf8_split(all, k);
            decode_utf8_split(all, k);
            assert(all.subrange(0, k) =~= buf@);
            assert(decode_utf8(all) == text@);
            assert(r@.is_prefix_of(text@)) by {
                assert(text@ =~= decode_utf8(all.subrange(0, k)) + decode_utf8(all.subrange(k, all.len() as int)));
                assert forall|j: int| 0 <= j < r@.len() implies r@[j] == text@[j] by {}
            }
        }
        if all.len() <= 16 {
            lemma_cut_text_fits(s);
        }
        lemma_cut_text_size(s);
        if is_ascii_chars(text@) {
            is_ascii_chars_encode_utf8(text@);
            let part = text@.take(k);
            assert(is_ascii_chars(part));
            is_ascii_chars_encode_utf8(part);
            assert(encode_utf8(part) =~= buf@);
            assert(decode_utf8(encode_utf8(part)) == part);
        }
    }
    r
}

} // verus!

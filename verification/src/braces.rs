//! When a reply is complete: how the braces and strings of a text with JSON in it are told
//! apart, against a grammar of such texts.

use vstd::prelude::*;
use vstd::string::*;

use crate::settings::{complete, scan_next, scanned, Scan};

verus! {

/// A character of a string, as it stands between the quotes: by itself, which a quote and a
/// backslash cannot, or behind a backslash, which any character can.
pub enum Letter {
    Plain(char),
    Escaped(char),
}

/// A piece of an object: a string, an object in turn, or a single character of anything else
/// (numbers, words, commas, colons, the brackets of arrays, white space).
pub enum Piece {
    Other(char),
    Text(Seq<Letter>),
    Object(Seq<Piece>),
}

pub open spec fn letter_text(l: Letter) -> Seq<char> {
    match l {
        Letter::Plain(c) => seq![c],
        Letter::Escaped(c) => seq!['\\', c],
    }
}

pub open spec fn letters_text(ls: Seq<Letter>) -> Seq<char>
    decreases ls.len(),
{
    if ls.len() == 0 {
        Seq::empty()
    } else {
        letters_text(ls.drop_last()) + letter_text(ls.last())
    }
}

pub open spec fn letters_fit(ls: Seq<Letter>) -> bool {
    forall|i: int|
        0 <= i < ls.len() ==> (#[trigger] ls[i] matches Letter::Plain(c) ==> c != '"' && c != '\\')
}

/// A piece as it is written.
pub open spec fn piece_text(p: Piece) -> Seq<char>
    decreases p,
{
    match p {
        Piece::Other(c) => seq![c],
        Piece::Text(ls) => seq!['"'] + letters_text(ls) + seq!['"'],
        Piece::Object(ps) => seq!['{'] + pieces_text(ps) + seq!['}'],
    }
}

/// Pieces as they are written, one after the other.
pub open spec fn pieces_text(ps: Seq<Piece>) -> Seq<char>
    decreases ps,
{
    if ps.len() == 0 {
        Seq::empty()
    } else {
        pieces_text(ps.subrange(0, ps.len() - 1)) + piece_text(ps[ps.len() - 1])
    }
}

/// A piece is written so that it can be told where it ends: what is no string and no object
/// is neither a quote nor a brace.
pub open spec fn piece_fits(p: Piece) -> bool
    decreases p,
{
    match p {
        Piece::Other(c) => c != '"' && c != '{' && c != '}',
        Piece::Text(ls) => letters_fit(ls),
        Piece::Object(ps) => pieces_fit(ps),
    }
}

pub open spec fn pieces_fit(ps: Seq<Piece>) -> bool
    decreases ps,
{
    ps.len() > 0 ==> pieces_fit(ps.subrange(0, ps.len() - 1)) && piece_fits(ps[ps.len() - 1])
}

/// The scan `st`, gone on with all of `s`.
spec fn scan_on(st: Scan, s: Seq<char>) -> Scan
    decreases s.len(),
{
    if s.len() == 0 {
        st
    } else {
        scan_next(scan_on(st, s.drop_last()), s.last())
    }
}

proof fn lemma_scan_on(st: Scan, a: Seq<char>, b: Seq<char>)
    ensures
        scan_on(st, a + b) == scan_on(scan_on(st, a), b),
        scanned(a + b) == scan_on(scanned(a), b),
    decreases b.len(),
{
    if b.len() == 0 {
        assert(a + b =~= a);
    } else {
        lemma_scan_on(st, a, b.drop_last());
        assert((a + b).drop_last() =~= a + b.drop_last());
    }
}

proof fn lemma_scan_one(st: Scan, c: char)
    ensures
        scan_on(st, seq![c]) == scan_next(st, c),
{
    reveal_with_fuel(scan_on, 2);
    assert(seq![c].drop_last() =~= Seq::<char>::empty());
}

/// All starts of `s`, read on from `st`, are at least as deep as `d`.
spec fn stays_deep(st: Scan, s: Seq<char>, d: int) -> bool {
    forall|k: int| 0 <= k <= s.len() ==> (#[trigger] scan_on(st, s.take(k))).depth >= d
}

proof fn lemma_deep_concat(st: Scan, a: Seq<char>, b: Seq<char>, d: int)
    requires
        stays_deep(st, a, d),
        stays_deep(scan_on(st, a), b, d),
    ensures
        stays_deep(st, a + b, d),
{
    assert forall|k: int| 0 <= k <= (a + b).len() implies (#[trigger] scan_on(
        st,
        (a + b).take(k),
    )).depth >= d by {
        if k <= a.len() {
            assert((a + b).take(k) =~= a.take(k));
        } else {
            assert((a + b).take(k) =~= a + b.take(k - a.len()));
            lemma_scan_on(st, a, b.take(k - a.len()));
        }
    }
}

proof fn lemma_deep_one(st: Scan, c: char, d: int)
    requires
        st.depth >= d,
        scan_next(st, c).depth >= d,
    ensures
        stays_deep(st, seq![c], d),
{
    lemma_scan_one(st, c);
    assert forall|k: int| 0 <= k <= 1 implies (#[trigger] scan_on(st, seq![c].take(k))).depth
        >= d by {
        if k == 0 {
            assert(seq![c].take(k) =~= Seq::<char>::empty());
        } else {
            assert(seq![c].take(k) =~= seq![c]);
        }
    }
}

/// The letters of a string are read over.
proof fn lemma_letters(st: Scan, ls: Seq<Letter>)
    requires
        st.in_string,
        !st.escaped,
        letters_fit(ls),
    ensures
        scan_on(st, letters_text(ls)) == st,
        stays_deep(st, letters_text(ls), st.depth),
    decreases ls.len(),
{
    if ls.len() == 0 {
        assert forall|k: int| 0 <= k <= 0 implies (#[trigger] scan_on(
            st,
            letters_text(ls).take(k),
        )).depth >= st.depth by {
            assert(letters_text(ls).take(k) =~= Seq::<char>::empty());
        }
    } else {
        let before = ls.drop_last();
        let l = ls.last();
        assert forall|i: int| 0 <= i < before.len() implies (#[trigger] before[i] matches
            Letter::Plain(c) ==> c != '"' && c != '\\') by {
            assert(before[i] == ls[i]);
        }
        lemma_letters(st, before);
        assert(l == ls[ls.len() - 1]);
        lemma_scan_on(st, letters_text(before), letter_text(l));
        match l {
            Letter::Plain(c) => {
                lemma_scan_one(st, c);
                lemma_deep_one(st, c, st.depth);
            },
            Letter::Escaped(c) => {
                let mid = scan_next(st, '\\');
                assert(seq!['\\', c] =~= seq!['\\'] + seq![c]);
                lemma_scan_on(st, seq!['\\'], seq![c]);
                lemma_scan_one(st, '\\');
                lemma_scan_one(mid, c);
                lemma_deep_one(st, '\\', st.depth);
                lemma_deep_one(mid, c, st.depth);
                lemma_deep_concat(st, seq!['\\'], seq![c], st.depth);
            },
        }
        lemma_deep_concat(st, letters_text(before), letter_text(l), st.depth);
    }
}

/// A piece inside an object is read over, and nowhere in it is the object left.
proof fn lemma_piece(st: Scan, p: Piece)
    requires
        !st.in_string,
        !st.escaped,
        st.opened,
        st.depth >= 1,
        piece_fits(p),
    ensures
        scan_on(st, piece_text(p)) == st,
        stays_deep(st, piece_text(p), st.depth),
    decreases p,
{
    match p {
        Piece::Other(c) => {
            lemma_scan_one(st, c);
            lemma_deep_one(st, c, st.depth);
        },
        Piece::Text(ls) => {
            let inside = scan_next(st, '"');
            let body = letters_text(ls);
            lemma_scan_one(st, '"');
            lemma_deep_one(st, '"', st.depth);
            lemma_letters(inside, ls);
            lemma_scan_on(st, seq!['"'], body);
            lemma_deep_concat(st, seq!['"'], body, st.depth);
            lemma_scan_on(st, seq!['"'] + body, seq!['"']);
            lemma_scan_one(inside, '"');
            lemma_deep_one(inside, '"', st.depth);
            lemma_deep_concat(st, seq!['"'] + body, seq!['"'], st.depth);
        },
        Piece::Object(ps) => {
            let inside = scan_next(st, '{');
            let body = pieces_text(ps);
            lemma_scan_one(st, '{');
            lemma_deep_one(st, '{', st.depth);
            lemma_pieces(inside, ps);
            lemma_scan_on(st, seq!['{'], body);
            assert(stays_deep(inside, body, st.depth));
            lemma_deep_concat(st, seq!['{'], body, st.depth);
            lemma_scan_on(st, seq!['{'] + body, seq!['}']);
            lemma_scan_one(inside, '}');
            lemma_deep_one(inside, '}', st.depth);
            lemma_deep_concat(st, seq!['{'] + body, seq!['}'], st.depth);
        },
    }
}

proof fn lemma_pieces(st: Scan, ps: Seq<Piece>)
    requires
        !st.in_string,
        !st.escaped,
        st.opened,
        st.depth >= 1,
        pieces_fit(ps),
    ensures
        scan_on(st, pieces_text(ps)) == st,
        stays_deep(st, pieces_text(ps), st.depth),
    decreases ps,
{
    if ps.len() == 0 {
        assert forall|k: int| 0 <= k <= 0 implies (#[trigger] scan_on(
            st,
            pieces_text(ps).take(k),
        )).depth >= st.depth by {
            assert(pieces_text(ps).take(k) =~= Seq::<char>::empty());
        }
    } else {
        let before = ps.subrange(0, ps.len() - 1);
        let last = ps[ps.len() - 1];
        lemma_pieces(st, before);
        lemma_piece(st, last);
        lemma_scan_on(st, pieces_text(before), piece_text(last));
        lemma_deep_concat(st, pieces_text(before), piece_text(last), st.depth);
    }
}

/// The text before an object does not count, where it has no braces.
proof fn lemma_outside(st: Scan, s: Seq<char>)
    requires
        !st.in_string,
        !st.escaped,
        st.depth == 0,
        forall|i: int| 0 <= i < s.len() ==> #[trigger] s[i] != '{' && s[i] != '}',
    ensures
        scan_on(st, s) == st,
    decreases s.len(),
{
    if s.len() > 0 {
        let t = s.drop_last();
        assert forall|i: int| 0 <= i < t.len() implies #[trigger] t[i] != '{' && t[i] != '}' by {
            assert(t[i] == s[i]);
        }
        lemma_outside(st, t);
        assert(s.last() == s[s.len() - 1]);
    }
}

/// A JSON object, however it is written, is complete, and no proper start of it is: neither
/// the braces nor the other characters in its strings count, and only a quote without a
/// backslash before it ends a string. Text without braces may stand before and after it.
pub proof fn law_objects_are_complete_at_their_end(
    before: Seq<char>,
    ps: Seq<Piece>,
    after: Seq<char>,
)
    requires
        pieces_fit(ps),
        forall|i: int| 0 <= i < before.len() ==> #[trigger] before[i] != '{' && before[i] != '}',
        forall|i: int| 0 <= i < after.len() ==> #[trigger] after[i] != '{' && after[i] != '}',
    ensures
        ({
            let object = piece_text(Piece::Object(ps));
            &&& object == seq!['{'] + pieces_text(ps) + seq!['}']
            &&& complete(object)
            &&& forall|n: int| 0 <= n < object.len() ==> !complete(#[trigger] object.take(n))
            &&& complete(before + object + after)
            &&& forall|n: int|
                0 <= n < (before + object).len() ==> !complete(
                    #[trigger] (before + object).take(n),
                )
        }),
{
    let object = piece_text(Piece::Object(ps));
    lemma_framed_object(before, ps, after);
    lemma_framed_object(Seq::empty(), ps, Seq::empty());
    assert(Seq::<char>::empty() + object + Seq::<char>::empty() =~= object);
    assert(Seq::<char>::empty() + object =~= object);
}

proof fn lemma_framed_object(before: Seq<char>, ps: Seq<Piece>, after: Seq<char>)
    requires
        pieces_fit(ps),
        forall|i: int| 0 <= i < before.len() ==> #[trigger] before[i] != '{' && before[i] != '}',
        forall|i: int| 0 <= i < after.len() ==> #[trigger] after[i] != '{' && after[i] != '}',
    ensures
        ({
            let object = piece_text(Piece::Object(ps));
            &&& complete(before + object + after)
            &&& forall|n: int|
                0 <= n < (before + object).len() ==> !complete(
                    #[trigger] (before + object).take(n),
                )
        }),
{
    let object = piece_text(Piece::Object(ps));
    let body = pieces_text(ps);
    let start = scanned(Seq::<char>::empty());
    let inside = scan_next(start, '{');
    let open = seq!['{'] + body;
    lemma_outside(start, before);
    lemma_scan_on(start, Seq::empty(), before);
    assert(Seq::<char>::empty() + before =~= before);
    lemma_scan_one(start, '{');
    lemma_pieces(inside, ps);
    lemma_scan_on(start, seq!['{'], body);
    lemma_scan_one(inside, '}');
    lemma_scan_on(start, open, seq!['}']);
    lemma_scan_on(start, before, object);
    let done = scan_on(start, object);
    assert(done == scan_next(inside, '}'));
    lemma_scan_on(start, before + object, after);
    lemma_outside(done, after);
    let all = before + object;
    assert forall|n: int| 0 <= n < all.len() implies !complete(#[trigger] all.take(n)) by {
        if n <= before.len() {
            let head = before.take(n);
            assert(all.take(n) =~= head);
            assert forall|i: int| 0 <= i < head.len() implies #[trigger] head[i] != '{' && head[i]
                != '}' by {
                assert(head[i] == before[i]);
            }
            lemma_outside(start, head);
            lemma_scan_on(start, Seq::empty(), head);
            assert(Seq::<char>::empty() + head =~= head);
        } else {
            let k = n - before.len() - 1;
            assert(all.take(n) =~= before + (seq!['{'] + body.take(k)));
            lemma_scan_on(start, before, seq!['{'] + body.take(k));
            lemma_scan_on(start, seq!['{'], body.take(k));
            assert(scan_on(inside, body.take(k)).depth >= 1);
        }
    }
}

/// An object with one text in it is complete, whatever the text holds but quotes and
/// backslashes, and so is one whose text holds any character behind a backslash.
pub proof fn law_texts_do_not_break_a_reply(s: Seq<char>, c: char)
    requires
        forall|i: int| 0 <= i < s.len() ==> #[trigger] s[i] != '"' && s[i] != '\\',
    ensures
        complete("{\"k\":\""@ + s + "\"}"@),
        complete("{\"k\":\""@ + s + seq!['\\', c] + "\"}"@),
        !complete("{\"k\":\""@ + s),
        !complete("{\"k\":\""@ + s + seq!['\\', c]),
{
    reveal_strlit("{\"k\":\"");
    reveal_strlit("\"}");
    reveal_with_fuel(scan_on, 7);
    let head = "{\"k\":\""@;
    let st = Scan { depth: 1, opened: true, in_string: true, escaped: false };
    assert(head =~= seq!['{', '"', 'k', '"', ':', '"']);
    lemma_scan_on(scanned(Seq::empty()), Seq::empty(), head);
    assert(Seq::<char>::empty() + head =~= head);
    assert(head.drop_last() =~= seq!['{', '"', 'k', '"', ':']);
    assert(head.drop_last().drop_last() =~= seq!['{', '"', 'k', '"']);
    assert(head.drop_last().drop_last().drop_last() =~= seq!['{', '"', 'k']);
    assert(seq!['{', '"', 'k'].drop_last() =~= seq!['{', '"']);
    assert(seq!['{', '"'].drop_last() =~= seq!['{']);
    assert(seq!['{'].drop_last() =~= Seq::<char>::empty());
    assert(scanned(head) == st);
    lemma_plain_letters(st, s);
    lemma_scan_on(st, head, s);
    assert("\"}"@ =~= seq!['"', '}']);
    assert(seq!['"', '}'].drop_last() =~= seq!['"']);
    assert(seq!['"'].drop_last() =~= Seq::<char>::empty());
    lemma_scan_on(st, head + s, "\"}"@);
    let pair = seq!['\\', c];
    assert(pair.drop_last() =~= seq!['\\']);
    assert(seq!['\\'].drop_last() =~= Seq::<char>::empty());
    lemma_scan_on(st, head + s, pair);
    lemma_scan_on(st, head + s + pair, "\"}"@);
}

proof fn lemma_plain_letters(st: Scan, s: Seq<char>)
    requires
        st.in_string,
        !st.escaped,
        forall|i: int| 0 <= i < s.len() ==> #[trigger] s[i] != '"' && s[i] != '\\',
    ensures
        scan_on(st, s) == st,
    decreases s.len(),
{
    if s.len() > 0 {
        let t = s.drop_last();
        assert forall|i: int| 0 <= i < t.len() implies #[trigger] t[i] != '"' && t[i] != '\\' by {
            assert(t[i] == s[i]);
        }
        lemma_plain_letters(st, t);
        assert(s.last() == s[s.len() - 1]);
    }
}

/// A text without quotes is complete where it opens a brace and closes as many as it opens.
pub proof fn law_braces_are_counted(s: Seq<char>)
    requires
        forall|i: int| 0 <= i < s.len() ==> #[trigger] s[i] != '"',
    ensures
        complete(s) <==> {
            &&& s.contains('{')
            &&& s.filter(|c: char| c == '{').len() == s.filter(|c: char| c == '}').len()
        },
{
    lemma_counted(s);
}

proof fn lemma_counted(s: Seq<char>)
    requires
        forall|i: int| 0 <= i < s.len() ==> #[trigger] s[i] != '"',
    ensures
        scanned(s).depth == s.filter(|c: char| c == '{').len() - s.filter(|c: char| c == '}').len(),
        scanned(s).opened == s.contains('{'),
        !scanned(s).in_string,
    decreases s.len(),
{
    reveal(Seq::filter);
    if s.len() > 0 {
        let t = s.drop_last();
        assert forall|i: int| 0 <= i < t.len() implies #[trigger] t[i] != '"' by {
            assert(t[i] == s[i]);
        }
        lemma_counted(t);
        assert(s.last() == s[s.len() - 1]);
        assert(s.contains('{') <==> t.contains('{') || s.last() == '{') by {
            if t.contains('{') {
                let i = choose|i: int| 0 <= i < t.len() && t[i] == '{';
                assert(s[i] == '{');
            }
            if s.contains('{') && s.last() != '{' {
                let i = choose|i: int| 0 <= i < s.len() && s[i] == '{';
                assert(t[i] == '{');
            }
        }
    }
}

/// How one more character changes what is known of a text. In a string, only an unescaped
/// quote ends it; a backslash escapes the next character; no other character does anything,
/// and no brace counts. Outside of strings, braces count, and a quote begins a string where a
/// brace is open; nothing else does anything.
pub proof fn law_what_a_character_does(s: Seq<char>, c: char)
    ensures
        scanned(Seq::empty()).depth == 0 && !scanned(Seq::empty()).opened,
        !scanned(Seq::empty()).in_string && !scanned(Seq::empty()).escaped,
        complete(s) <==> scanned(s).opened && scanned(s).depth == 0 && !scanned(s).in_string,
        ({
            let was = scanned(s);
            let now = scanned(s.push(c));
            &&& now.depth == was.depth + (if !was.in_string && c == '{' {
                1int
            } else if !was.in_string && c == '}' {
                -1int
            } else {
                0int
            })
            &&& now.opened == (was.opened || !was.in_string && c == '{')
            &&& was.in_string ==> now.in_string == !(c == '"' && !was.escaped)
            &&& was.in_string ==> now.escaped == (c == '\\' && !was.escaped)
            &&& !was.in_string ==> now.in_string == (c == '"' && was.depth > 0)
            &&& !was.in_string ==> now.escaped == was.escaped
        }),
{
    assert(s.push(c).drop_last() =~= s);
}

} // verus!

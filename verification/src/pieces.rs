//! Text that comes in pieces of UTF-8, which may be cut inside a character.

use vstd::prelude::*;
use vstd::slice::{slice_subrange, slice_to_vec};
use vstd::utf8::*;

verus! {

/// `t` is the start of a character: at least one byte of its encoding, but not all.
pub open spec fn cut_short(t: Seq<u8>) -> bool {
    exists|c: char| #[trigger] is_start_of(t, c)
}

/// `t` is at least one byte of the encoding of `c`, but not all of it.
pub open spec fn is_start_of(t: Seq<u8>, c: char) -> bool {
    let e = encode_scalar(c as u32);
    0 < t.len() < e.len() && t == e.take(t.len() as int)
}

/// The characters of `bytes`, and the start of one more that `bytes` end with, where
/// `bytes` hold nothing else.
pub open spec fn taken(bytes: Seq<u8>) -> Option<(Seq<char>, Seq<u8>)>
    decreases bytes.len(),
{
    if bytes.len() == 0 {
        Some((Seq::empty(), Seq::empty()))
    } else if valid_first_scalar(bytes) {
        match taken(pop_first_scalar(bytes)) {
            Some((chars, tail)) => Some((seq![decode_first_scalar(bytes) as char] + chars, tail)),
            None => None,
        }
    } else if cut_short(bytes) {
        Some((Seq::empty(), bytes))
    } else {
        None
    }
}

/// Where `a` begins with a character, so does `a + b`, and with the same one.
proof fn lemma_same_first(a: Seq<u8>, b: Seq<u8>)
    requires
        a.len() > 0,
        valid_first_scalar(a),
    ensures
        valid_first_scalar(a + b),
        decode_first_scalar(a + b) == decode_first_scalar(a),
        length_of_first_scalar(a + b) == length_of_first_scalar(a),
        0 < length_of_first_scalar(a) <= a.len(),
        pop_first_scalar(a + b) == pop_first_scalar(a) + b,
{
    assert((a + b)[0] == a[0]);
    assert(pop_first_scalar(a + b) =~= pop_first_scalar(a) + b);
}

/// The encoding of a character is one character long.
proof fn lemma_one_char(c: char)
    ensures
        valid_first_scalar(encode_scalar(c as u32)),
        length_of_first_scalar(encode_scalar(c as u32)) == encode_scalar(c as u32).len(),
        1 <= encode_scalar(c as u32).len() <= 4,
{
    encode_utf8_first_scalar(seq![c]);
    reveal_with_fuel(encode_utf8, 2);
    assert(seq![c].drop_first() =~= Seq::<char>::empty());
    assert(encode_utf8(seq![c]) =~= encode_scalar(c as u32));
}

/// The first character of `bytes` is encoded by their first bytes.
proof fn lemma_first_is_encoded(bytes: Seq<u8>)
    requires
        bytes.len() > 0,
        valid_first_scalar(bytes),
    ensures
        encode_scalar((decode_first_scalar(bytes) as char) as u32) == take_first_scalar(bytes),
        0 < length_of_first_scalar(bytes) <= bytes.len(),
{
    let e = take_first_scalar(bytes);
    reveal_with_fuel(valid_utf8, 2);
    assert(e[0] == bytes[0]);
    assert(valid_first_scalar(e));
    assert(pop_first_scalar(e) =~= Seq::<u8>::empty());
    decode_utf8_first_scalar(e);
    assert(take_first_scalar(e) =~= e);
}

/// The start of a character is not yet one.
proof fn lemma_cut_short(t: Seq<u8>)
    requires
        cut_short(t),
    ensures
        0 < t.len() <= 3,
        !valid_first_scalar(t),
{
    let c = choose|c: char| #[trigger] is_start_of(t, c);
    lemma_one_char(c);
    assert(t[0] == encode_scalar(c as u32)[0]);
}

/// Valid UTF-8 and the start of a character after it are taken apart.
proof fn lemma_taken_of(a: Seq<u8>, t: Seq<u8>)
    requires
        valid_utf8(a),
        t.len() == 0 || cut_short(t),
    ensures
        taken(a + t) == Some((decode_utf8(a), t)),
    decreases a.len(),
{
    if a.len() == 0 {
        assert(a + t =~= t);
        if t.len() != 0 {
            lemma_cut_short(t);
        } else {
            assert(t =~= Seq::<u8>::empty());
        }
    } else {
        lemma_same_first(a, t);
        lemma_taken_of(pop_first_scalar(a), t);
    }
}

/// What is taken apart is valid UTF-8 and the start of a character after it.
proof fn lemma_taken_is(bytes: Seq<u8>)
    requires
        taken(bytes) is Some,
    ensures
        ({
            let (chars, tail) = taken(bytes)->0;
            let head = bytes.take(bytes.len() - tail.len());
            &&& tail.len() <= 3
            &&& tail.len() <= bytes.len()
            &&& tail.len() == 0 || cut_short(tail)
            &&& bytes == head + tail
            &&& valid_utf8(head)
            &&& decode_utf8(head) == chars
            &&& encode_utf8(chars) == head
        }),
    decreases bytes.len(),
{
    let (chars, tail) = taken(bytes)->0;
    let head = bytes.take(bytes.len() - tail.len());
    if bytes.len() == 0 {
        assert(head =~= Seq::<u8>::empty());
    } else if valid_first_scalar(bytes) {
        let rest = pop_first_scalar(bytes);
        lemma_first_is_encoded(bytes);
        lemma_taken_is(rest);
        let rest_head = rest.take(rest.len() - tail.len());
        let first = take_first_scalar(bytes);
        assert(head =~= first + rest_head);
        assert(first[0] == bytes[0]);
        assert(valid_first_scalar(first));
        assert(pop_first_scalar(first) =~= Seq::<u8>::empty());
        lemma_same_first(first, rest_head);
        assert(pop_first_scalar(head) =~= rest_head);
        assert(bytes =~= first + rest);
        assert(bytes =~= head + tail);
    } else {
        lemma_cut_short(bytes);
        assert(head =~= Seq::<u8>::empty());
        assert(bytes =~= head + tail);
    }
    if valid_utf8(head) {
        decode_utf8_encode_utf8(head);
    }
}

/// It does not matter where bytes are cut: what they hold is what the first piece holds,
/// and then what the start of a character that it ends with and the second piece hold.
pub proof fn law_cuts_do_not_matter(a: Seq<u8>, b: Seq<u8>)
    ensures
        taken(a) matches Some((chars, tail)) ==> taken(a + b) == (match taken(tail + b) {
            Some((more, rest)) => Some((chars + more, rest)),
            None => None,
        }),
        taken(a) is None ==> taken(a + b) is None,
    decreases a.len(),
{
    if a.len() == 0 {
        assert(a + b =~= Seq::<u8>::empty() + b);
        match taken(a + b) {
            Some((more, rest)) => {
                assert(Seq::<char>::empty() + more =~= more);
            },
            None => {},
        }
    } else if valid_first_scalar(a) {
        let rest = pop_first_scalar(a);
        lemma_same_first(a, b);
        law_cuts_do_not_matter(rest, b);
        let first = seq![decode_first_scalar(a) as char];
        match taken(rest) {
            Some((chars, tail)) => {
                match taken(tail + b) {
                    Some((more, last)) => {
                        assert(first + (chars + more) =~= (first + chars) + more);
                    },
                    None => {},
                }
            },
            None => {},
        }
    } else if cut_short(a) {
        match taken(a + b) {
            Some((more, rest)) => {
                assert(Seq::<char>::empty() + more =~= more);
            },
            None => {},
        }
    } else {
        lemma_start_of_taken(a, b);
    }
}

/// Where `a` holds neither a character at its front nor the start of one, nothing that
/// follows helps.
proof fn lemma_start_of_taken(a: Seq<u8>, b: Seq<u8>)
    requires
        a.len() > 0,
        !valid_first_scalar(a),
        !cut_short(a),
    ensures
        taken(a + b) is None,
{
    let all = a + b;
    if valid_first_scalar(all) {
        lemma_first_is_encoded(all);
        let c = decode_first_scalar(all) as char;
        let n = length_of_first_scalar(all);
        if n <= a.len() {
            assert(a[0] == all[0]);
            assert(valid_first_scalar(a));
        } else {
            assert(a =~= encode_scalar(c as u32).take(a.len() as int));
            assert(is_start_of(a, c));
        }
    } else if cut_short(all) {
        let c = choose|c: char| #[trigger] is_start_of(all, c);
        assert(a =~= encode_scalar(c as u32).take(a.len() as int));
        assert(is_start_of(a, c));
    }
}

/// The encoding of a text holds that text and nothing more.
pub proof fn law_encoded_text_is_taken(chars: Seq<char>)
    ensures
        taken(encode_utf8(chars)) == Some((chars, Seq::<u8>::empty())),
{
    let bytes = encode_utf8(chars);
    encode_utf8_valid_utf8(chars);
    encode_utf8_decode_utf8(chars);
    lemma_taken_of(bytes, Seq::empty());
    assert(bytes + Seq::<u8>::empty() =~= bytes);
}

/// Bytes are valid UTF-8 where they are taken with nothing left over, and then they hold
/// what they encode.
pub proof fn law_whole_text_is_taken(bytes: Seq<u8>)
    ensures
        valid_utf8(bytes) <==> (taken(bytes) matches Some((_, tail)) && tail.len() == 0),
        valid_utf8(bytes) ==> taken(bytes) == Some((decode_utf8(bytes), Seq::<u8>::empty())),
{
    if valid_utf8(bytes) {
        lemma_taken_of(bytes, Seq::empty());
        assert(bytes + Seq::<u8>::empty() =~= bytes);
    }
    if taken(bytes) is Some {
        lemma_taken_is(bytes);
        assert(bytes.take(bytes.len() as int) =~= bytes);
    }
}

/// Valid UTF-8 does not go on with a character that was cut before it.
pub proof fn law_whole_text_does_not_go_on(a: Seq<u8>, b: Seq<u8>)
    requires
        !valid_utf8(a),
        valid_utf8(b),
        b.len() > 0,
    ensures
        taken(a + b) is None,
{
    law_cuts_do_not_matter(a, b);
    if taken(a) is Some {
        law_whole_text_is_taken(a);
        lemma_taken_is(a);
        let (_, tail) = taken(a)->0;
        let all = tail + b;
        let n = tail.len() as int;
        lemma_cut_short(tail);
        let c = choose|c: char| #[trigger] is_start_of(tail, c);
        lemma_one_char(c);
        assert(tail[0] == encode_scalar(c as u32)[0]);
        assert(all[0] == tail[0]);
        assert(all[n] == b[0]);
        assert(!is_continuation_byte(b[0]));
        assert(!valid_first_scalar(all));
        if cut_short(all) {
            let d = choose|d: char| #[trigger] is_start_of(all, d);
            lemma_one_char(d);
            assert(all[0] == encode_scalar(d as u32)[0]);
            assert(all[n] == encode_scalar(d as u32)[n]);
        }
    }
}

/// The start of bytes that are taken is taken: its characters are the first ones of all,
/// and their encoding and the tail are the bytes.
pub proof fn law_start_is_taken(a: Seq<u8>, b: Seq<u8>)
    requires
        taken(a + b) is Some,
    ensures
        taken(a) matches Some((chars, tail)) && chars.is_prefix_of((taken(a + b)->0).0)
            && encode_utf8(chars) + tail == a,
{
    law_cuts_do_not_matter(a, b);
    lemma_taken_is(a);
}

// ---------------------------------------------------------------------------
// Which bytes start a character
// ---------------------------------------------------------------------------

spec fn second_fits(lead: u8, second: u8) -> bool {
    &&& 0x80 <= second && second <= 0xBF
    &&& lead == 0xE0 ==> 0xA0 <= second
    &&& lead == 0xED ==> second <= 0x9F
    &&& lead == 0xF0 ==> 0x90 <= second
    &&& lead == 0xF4 ==> second <= 0x8F
}

spec fn start_fits(t: Seq<u8>) -> bool {
    ||| t.len() == 1 && 0xC2 <= t[0] <= 0xF4
    ||| t.len() == 2 && 0xE0 <= t[0] <= 0xF4 && second_fits(t[0], t[1])
    ||| t.len() == 3 && 0xF0 <= t[0] <= 0xF4 && second_fits(t[0], t[1]) && 0x80 <= t[2] <= 0xBF
}

proof fn lemma_width_2(b1: u8, b2: u8)
    by (bit_vector)
    requires
        0xC0 <= b1 && b1 <= 0xDF,
        0x80 <= b2 && b2 <= 0xBF,
    ensures
        0x80 <= codepoint_width_2(b1, b2) <==> 0xC2 <= b1,
        codepoint_width_2(b1, b2) < 0x800,
{
}

proof fn lemma_width_3(b1: u8, b2: u8, b3: u8)
    by (bit_vector)
    requires
        0xE0 <= b1 && b1 <= 0xEF,
        0x80 <= b2 && b2 <= 0xBF,
        0x80 <= b3 && b3 <= 0xBF,
    ensures
        (0x800 <= codepoint_width_3(b1, b2, b3) && !(0xD800 <= codepoint_width_3(b1, b2, b3)
            && codepoint_width_3(b1, b2, b3) <= 0xDFFF)) <==> second_fits(b1, b2),
{
}

proof fn lemma_width_4(b1: u8, b2: u8, b3: u8, b4: u8)
    by (bit_vector)
    requires
        0xF0 <= b1 && b1 <= 0xF7,
        0x80 <= b2 && b2 <= 0xBF,
        0x80 <= b3 && b3 <= 0xBF,
        0x80 <= b4 && b4 <= 0xBF,
    ensures
        (0x10000 <= codepoint_width_4(b1, b2, b3, b4) && codepoint_width_4(b1, b2, b3, b4)
            <= 0x10ffff) <==> (b1 <= 0xF4 && second_fits(b1, b2)),
{
}

/// The bytes of a start are among those that a start can have.
proof fn lemma_start_fits(t: Seq<u8>)
    requires
        cut_short(t),
    ensures
        start_fits(t),
{
    let c = choose|c: char| #[trigger] is_start_of(t, c);
    let e = encode_scalar(c as u32);
    lemma_one_char(c);
    assert(t[0] == e[0]);
    if e.len() == 2 {
        lemma_width_2(e[0], e[1]);
    } else if e.len() == 3 {
        lemma_width_3(e[0], e[1], e[2]);
    } else if e.len() == 4 {
        lemma_width_4(e[0], e[1], e[2], e[3]);
    }
    if t.len() >= 2 {
        assert(t[1] == e[1]);
    }
    if t.len() >= 3 {
        assert(t[2] == e[2]);
    }
}

/// A start of that shape can be completed.
proof fn lemma_fitting_start(t: Seq<u8>)
    requires
        start_fits(t),
    ensures
        cut_short(t),
{
    let lead = t[0];
    let second: u8 = if t.len() >= 2 {
        t[1]
    } else if lead == 0xE0 {
        0xA0
    } else if lead == 0xF0 {
        0x90
    } else {
        0x80
    };
    let third: u8 = if t.len() >= 3 {
        t[2]
    } else {
        0x80
    };
    let e: Seq<u8> = if lead < 0xE0 {
        seq![lead, second]
    } else if lead < 0xF0 {
        seq![lead, second, third]
    } else {
        seq![lead, second, third, 0x80]
    };
    if lead < 0xE0 {
        lemma_width_2(e[0], e[1]);
    } else if lead < 0xF0 {
        lemma_width_3(e[0], e[1], e[2]);
    } else {
        lemma_width_4(e[0], e[1], e[2], e[3]);
    }
    assert(valid_first_scalar(e));
    lemma_first_is_encoded(e);
    assert(take_first_scalar(e) =~= e);
    let c = decode_first_scalar(e) as char;
    assert(t =~= e.take(t.len() as int));
    assert(is_start_of(t, c));
}

/// Whether `t` is the start of a character.
fn is_cut_short(t: &[u8]) -> (r: bool)
    ensures
        r == cut_short(t@),
{
    proof {
        if cut_short(t@) {
            lemma_start_fits(t@);
        }
        if start_fits(t@) {
            lemma_fitting_start(t@);
        }
    }
    if t.len() == 0 || t.len() > 3 {
        return false;
    }
    let lead: u8 = t[0];
    if t.len() == 1 {
        return 0xC2 <= lead && lead <= 0xF4;
    }
    let second: u8 = t[1];
    let fits = 0x80 <= second && second <= 0xBF && (lead != 0xE0 || 0xA0 <= second) && (lead != 0xED
        || second <= 0x9F) && (lead != 0xF0 || 0x90 <= second) && (lead != 0xF4 || second <= 0x8F);
    if t.len() == 2 {
        return 0xE0 <= lead && lead <= 0xF4 && fits;
    }
    let third: u8 = t[2];
    0xF0 <= lead && lead <= 0xF4 && fits && 0x80 <= third && third <= 0xBF
}

/// Takes apart the characters of `bytes` and the start of one more that `bytes` end with.
pub fn take_text(bytes: &[u8]) -> (r: Option<(String, Vec<u8>)>)
    ensures
        match r {
            Some((text, tail)) => taken(bytes@) == Some((text@, tail@)),
            None => taken(bytes@) is None,
        },
{
    let n: usize = bytes.len();
    let mut k: usize = 0;
    while k <= 3 && k <= n
        invariant
            n == bytes@.len(),
            k <= 4,
            forall|j: int|
                0 <= j < k && j <= n ==> !(valid_utf8(#[trigger] bytes@.take(n - j)) && (j == 0
                    || cut_short(bytes@.skip(n - j)))),
        decreases 4 - k,
    {
        let head = slice_subrange(bytes, 0, n - k);
        let tail = slice_subrange(bytes, n - k, n);
        assert(head@ =~= bytes@.take(n - k));
        assert(tail@ =~= bytes@.skip(n - k));
        if k == 0 || is_cut_short(tail) {
            match core::str::from_utf8(head) {
                Ok(text) => {
                    proof {
                        lemma_taken_of(head@, tail@);
                        assert(head@ + tail@ =~= bytes@);
                    }
                    return Some((text.to_string(), slice_to_vec(tail)));
                },
                Err(_) => {},
            }
        }
        k = k + 1;
    }
    proof {
        if taken(bytes@) is Some {
            lemma_taken_is(bytes@);
            let (chars, tail) = taken(bytes@)->0;
            let j = tail.len() as int;
            assert(bytes@.skip(n - j) =~= tail);
            assert(valid_utf8(bytes@.take(n - j)));
        }
    }
    None
}

// ---------------------------------------------------------------------------
// What can be taken
// ---------------------------------------------------------------------------

/// Bytes are taken where something can follow them that makes them valid UTF-8, and only
/// there.
pub proof fn law_bytes_that_can_go_on_are_taken(bytes: Seq<u8>)
    ensures
        taken(bytes) is Some <==> exists|rest: Seq<u8>| valid_utf8(#[trigger] (bytes + rest)),
{
    if taken(bytes) is Some {
        lemma_taken_is(bytes);
        let (chars, tail) = taken(bytes)->0;
        let head = bytes.take(bytes.len() - tail.len());
        if tail.len() == 0 {
            assert(bytes + Seq::<u8>::empty() =~= head);
            assert(valid_utf8(bytes + Seq::<u8>::empty()));
        } else {
            let c = choose|c: char| #[trigger] is_start_of(tail, c);
            let e = encode_scalar(c as u32);
            let rest = e.skip(tail.len() as int);
            lemma_one_char(c);
            reveal_with_fuel(valid_utf8, 2);
            assert(pop_first_scalar(e) =~= Seq::<u8>::empty());
            assert(valid_utf8(e));
            valid_utf8_concat(head, e);
            assert(bytes + rest =~= head + e);
            assert(valid_utf8(bytes + rest));
        }
    }
    if exists|rest: Seq<u8>| valid_utf8(#[trigger] (bytes + rest)) {
        let rest = choose|rest: Seq<u8>| valid_utf8(#[trigger] (bytes + rest));
        law_whole_text_is_taken(bytes + rest);
        law_start_is_taken(bytes, rest);
    }
}

/// What is taken is the text of the longest start that is valid UTF-8; the rest is left over.
pub proof fn law_longest_text_is_taken(bytes: Seq<u8>, n: int)
    requires
        taken(bytes) is Some,
        0 <= n <= bytes.len(),
        valid_utf8(bytes.take(n)),
    ensures
        ({
            let (chars, tail) = taken(bytes)->0;
            &&& encode_utf8(chars) + tail == bytes
            &&& valid_utf8(encode_utf8(chars))
            &&& n <= encode_utf8(chars).len()
        }),
{
    lemma_taken_is(bytes);
    let (chars, tail) = taken(bytes)->0;
    encode_utf8_valid_utf8(chars);
    let head = bytes.take(bytes.len() - tail.len());
    let m = head.len() as int;
    if n > m {
        let more = bytes.subrange(m, n);
        assert(bytes.take(n) =~= head + more);
        law_whole_text_is_taken(head);
        law_whole_text_is_taken(bytes.take(n));
        law_cuts_do_not_matter(head, more);
        assert(Seq::<u8>::empty() + more =~= more);
        law_whole_text_is_taken(more);
        assert(valid_utf8(more));
        assert(tail.take(n - m) =~= more);
        let c = choose|c: char| #[trigger] is_start_of(tail, c);
        lemma_one_char(c);
        assert(more[0] == encode_scalar(c as u32)[0]);
        assert(valid_first_scalar(more));
    }
}

} // verus!

//! Text building blocks: decimal and hexadecimal numbers, white space, words.

use vstd::prelude::*;
use vstd::string::*;
use vstd::utf8::*;

verus! {

// ---------------------------------------------------------------------------
// Numbers as text
// ---------------------------------------------------------------------------

/// The decimal digit that stands for `d`.
pub open spec fn digit(d: nat) -> char {
    ('0' as u32 + d) as char
}

/// `n` written in decimal, without leading zeros.
pub open spec fn decimal(n: nat) -> Seq<char>
    decreases n,
{
    if n < 10 {
        seq![digit(n)]
    } else {
        decimal(n / 10).push(digit(n % 10))
    }
}

pub open spec fn is_digit(c: char) -> bool {
    '0' <= c <= '9'
}

pub open spec fn all_digits(s: Seq<char>) -> bool {
    forall|i: int| 0 <= i < s.len() ==> is_digit(#[trigger] s[i])
}

/// The number that a row of decimal digits stands for.
pub open spec fn digits_value(s: Seq<char>) -> nat
    decreases s.len(),
{
    if s.len() == 0 {
        0
    } else {
        10 * digits_value(s.drop_last()) + (s.last() as u32 - '0' as u32) as nat
    }
}

/// The digits of an unsigned number: what follows an optional plus sign.
pub open spec fn unsigned_digits(s: Seq<char>) -> Seq<char> {
    if s.len() > 0 && s[0] == '+' {
        s.drop_first()
    } else {
        s
    }
}

/// The unsigned number that `s` spells: an optional plus sign, then one or more digits.
pub open spec fn unsigned_value(s: Seq<char>) -> Option<nat> {
    let digits = unsigned_digits(s);
    if digits.len() > 0 && all_digits(digits) {
        Some(digits_value(digits))
    } else {
        None
    }
}

/// A decimal number reads back as itself, and it starts with a digit.
pub proof fn lemma_decimal_value(n: nat)
    ensures
        decimal(n).len() > 0,
        all_digits(decimal(n)),
        digits_value(decimal(n)) == n,
    decreases n,
{
    reveal_with_fuel(digits_value, 2);
    if n < 10 {
        assert(decimal(n).drop_last() =~= Seq::<char>::empty());
    } else {
        lemma_decimal_value(n / 10);
        assert(decimal(n).drop_last() =~= decimal(n / 10));
        assert forall|i: int| 0 <= i < decimal(n).len() implies is_digit(
            #[trigger] decimal(n)[i],
        ) by {
            if i < decimal(n / 10).len() {
                assert(is_digit(decimal(n / 10)[i]));
            }
        }
    }
}

/// Two numbers with the same decimal text are equal, and what is written in decimal
/// spells the number that it was written from.
pub proof fn law_decimal_round_trip(n: nat, m: nat)
    ensures
        unsigned_value(decimal(n)) == Some(n),
        decimal(n) == decimal(m) ==> n == m,
{
    lemma_decimal_value(n);
    lemma_decimal_value(m);
    assert(is_digit(decimal(n)[0]));
}

/// Appends `c` to `s`: what `String::push` does.
pub assume_specification[ String::push ](s: &mut String, c: char)
    ensures
        final(s)@ == old(s)@.push(c),
;

/// Appends `n` in decimal.
pub fn push_decimal(s: &mut String, n: u64)
    ensures
        final(s)@ == old(s)@ + decimal(n as nat),
    decreases n,
{
    if n >= 10 {
        push_decimal(s, n / 10);
    }
    let last: u8 = (n % 10) as u8;
    s.push((0x30u8 + last) as char);
    assert(s@ =~= old(s)@ + decimal(n as nat));
}

/// The upper-case hexadecimal digit that stands for `d`.
pub open spec fn hex_digit(d: nat) -> char {
    if d < 10 {
        ('0' as u32 + d) as char
    } else {
        ('A' as u32 + (d - 10)) as char
    }
}

/// A byte as two upper-case hexadecimal digits.
pub open spec fn hex_byte(b: u8) -> Seq<char> {
    seq![hex_digit((b / 16) as nat), hex_digit((b % 16) as nat)]
}

fn hex_digit_char(d: u8) -> (c: char)
    requires
        d < 16,
    ensures
        c == hex_digit(d as nat),
{
    if d < 10 {
        (0x30u8 + d) as char
    } else {
        (0x41u8 + (d - 10)) as char
    }
}

/// Appends `b` as two upper-case hexadecimal digits.
pub fn push_hex_byte(s: &mut String, b: u8)
    ensures
        final(s)@ == old(s)@ + hex_byte(b),
{
    s.push(hex_digit_char(b / 16));
    s.push(hex_digit_char(b % 16));
    assert(s@ =~= old(s)@ + hex_byte(b));
}

/// The unsigned number that `s` spells, where it spells one that is at most `max`.
pub fn parse_unsigned(s: &str, max: u32) -> (r: Option<u32>)
    ensures
        r is Some <==> (unsigned_value(s@) is Some && unsigned_value(s@)->0 <= max),
        r matches Some(n) ==> unsigned_value(s@) == Some(n as nat),
{
    let mut value: u64 = 0;
    let mut over: bool = false;
    let mut any: bool = false;
    let mut first: bool = true;
    let ghost digits = unsigned_digits(s@);
    let ghost skip = s@.len() - digits.len();
    for c in it: s.chars()
        invariant
            it.seq() == s@,
            digits == unsigned_digits(s@),
            skip == s@.len() - digits.len(),
            0 <= skip <= 1,
            forall|i: int| 0 <= i < digits.len() ==> #[trigger] digits[i] == s@[i + skip],
            skip == 1 ==> s@[0] == '+',
            skip == 0 ==> s@.len() == 0 || s@[0] != '+',
            first <==> it.index() == 0,
            any <==> it.index() > skip,
            !first ==> it.index() >= skip,
            any ==> all_digits(digits.take(it.index() - skip)),
            any && !over ==> value == digits_value(digits.take(it.index() - skip)),
            any && over ==> digits_value(digits.take(it.index() - skip)) > max,
            !any ==> value == 0 && !over,
            !over ==> value <= max,
    {
        let ghost k = it.index() - skip;
        assert(c == s@[it.index() as int]);
        if first && c == '+' {
            first = false;
        } else {
            first = false;
            assert(k >= 0);
            assert(c == digits[k]);
            if c < '0' || c > '9' {
                assert(!is_digit(digits[k]));
                return None;
            }
            let d: u64 = (c as u32 - '0' as u32) as u64;
            proof {
                assert(digits.take(k + 1).drop_last() =~= digits.take(k));
                assert(digits.take(k + 1).last() == c);
                assert(k == 0 ==> digits_value(digits.take(k)) == 0);
                assert(digits_value(digits.take(k + 1)) == 10 * digits_value(digits.take(k)) + d);
                assert forall|i: int| 0 <= i < k + 1 implies is_digit(
                    #[trigger] digits.take(k + 1)[i],
                ) by {
                    if i < k {
                        assert(digits.take(k + 1)[i] == digits.take(k)[i]);
                    }
                }
            }
            any = true;
            if !over {
                value = value * 10 + d;
                if value > max as u64 {
                    over = true;
                }
            }
        }
    }
    assert(any ==> digits.take(digits.len() as int) =~= digits);
    if any && !over {
        Some(value as u32)
    } else {
        None
    }
}

// ---------------------------------------------------------------------------
// White space and words
// ---------------------------------------------------------------------------

/// The characters with the Unicode property White_Space.
pub open spec fn is_white_space(c: char) -> bool {
    let u = c as u32;
    ||| 0x9 <= u <= 0xD
    ||| u == 0x20
    ||| u == 0x85
    ||| u == 0xA0
    ||| u == 0x1680
    ||| 0x2000 <= u <= 0x200A
    ||| u == 0x2028
    ||| u == 0x2029
    ||| u == 0x202F
    ||| u == 0x205F
    ||| u == 0x3000
}

/// `char::is_whitespace` tells the characters with the Unicode property White_Space.
pub assume_specification[ char::is_whitespace ](c: char) -> (r: bool)
    ensures
        r == is_white_space(c),
;

/// `s` without the white space at its two ends.
pub open spec fn trimmed(s: Seq<char>) -> Seq<char>
    decreases s.len(),
{
    if s.len() > 0 && is_white_space(s.first()) {
        trimmed(s.drop_first())
    } else if s.len() > 0 && is_white_space(s.last()) {
        trimmed(s.drop_last())
    } else {
        s
    }
}

/// `str::trim` removes the white space at the two ends, and nothing else.
pub assume_specification[ str::trim ](s: &str) -> (r: &str)
    ensures
        r@ == trimmed(s@),
;

/// Trimming twice is trimming once.
pub proof fn law_trim_is_idempotent(s: Seq<char>)
    ensures
        trimmed(trimmed(s)) == trimmed(s),
    decreases s.len(),
{
    if s.len() > 0 && is_white_space(s.first()) {
        law_trim_is_idempotent(s.drop_first());
    } else if s.len() > 0 && is_white_space(s.last()) {
        law_trim_is_idempotent(s.drop_last());
    }
}

/// The maximal runs of characters that are no white space, in order.
pub open spec fn words(s: Seq<char>) -> Seq<Seq<char>>
    decreases s.len(),
{
    if s.len() == 0 {
        Seq::empty()
    } else {
        let before = words(s.drop_last());
        if is_white_space(s.last()) {
            before
        } else if s.len() == 1 || is_white_space(s[s.len() - 2]) {
            before.push(seq![s.last()])
        } else {
            before.drop_last().push(before.last().push(s.last()))
        }
    }
}

/// The words of `s`: its maximal runs of characters that are no white space.
pub fn split_words(s: &str) -> (r: Vec<String>)
    ensures
        r@.len() == words(s@).len(),
        forall|i: int| 0 <= i < r@.len() ==> (#[trigger] r@[i])@ == words(s@)[i],
{
    let mut done: Vec<String> = Vec::new();
    let mut word: String = String::new();
    let mut inside: bool = false;
    for c in it: s.chars()
        invariant
            it.seq() == s@,
            inside <==> (it.index() > 0 && !is_white_space(s@[it.index() - 1])),
            inside ==> words(s@.take(it.index() as int)).len() == done@.len() + 1,
            inside ==> words(s@.take(it.index() as int)).last() == word@,
            !inside ==> words(s@.take(it.index() as int)).len() == done@.len(),
            !inside ==> word@.len() == 0,
            forall|i: int|
                0 <= i < done@.len() ==> (#[trigger] done@[i])@ == words(
                    s@.take(it.index() as int),
                )[i],
    {
        let ghost k = it.index() as int;
        assert(s@.take(k + 1).drop_last() =~= s@.take(k));
        assert(c == s@[k]);
        if c.is_whitespace() {
            if inside {
                let mut full: String = String::new();
                std::mem::swap(&mut full, &mut word);
                done.push(full);
                inside = false;
            }
        } else {
            word.push(c);
            inside = true;
            assert(seq![c] =~= Seq::<char>::empty().push(c));
        }
    }
    assert(s@.take(s@.len() as int) =~= s@);
    if inside {
        done.push(word);
    }
    done
}

// ---------------------------------------------------------------------------
// Letter case
// ---------------------------------------------------------------------------

/// The lower-case text that `str::to_lowercase` returns.
pub uninterp spec fn lowercase(s: Seq<char>) -> Seq<char>;

pub open spec fn ascii_lower(c: char) -> char {
    if 'A' <= c <= 'Z' {
        (c as u32 + 32) as char
    } else {
        c
    }
}

/// `str::to_lowercase` depends on the text alone; on ASCII text it turns the letters `A`
/// to `Z` into `a` to `z` and leaves the rest.
pub assume_specification[ str::to_lowercase ](s: &str) -> (r: String)
    ensures
        r@ == lowercase(s@),
        is_ascii_chars(s@) ==> r@ == s@.map_values(|c: char| ascii_lower(c)),
;

// ---------------------------------------------------------------------------
// UTF-8
// ---------------------------------------------------------------------------

/// The error of `core::str::from_utf8`, carried as it is.
#[verifier::external_type_specification]
#[verifier::external_body]
pub struct ExUtf8Error(core::str::Utf8Error);

/// `core::str::from_utf8` accepts the byte rows that are valid UTF-8, and no other; the
/// text has these bytes as its encoding.
pub assume_specification[ core::str::from_utf8 ](v: &[u8]) -> (r: Result<
    &str,
    core::str::Utf8Error,
>)
    ensures
        r is Ok <==> valid_utf8(v@),
        r matches Ok(s) ==> s@ == decode_utf8(v@),
;

// ---------------------------------------------------------------------------
// How numbers and texts are spelt
// ---------------------------------------------------------------------------

/// A number below ten is written as one digit; ten times a number, and a digit more, is
/// written as that number and then the digit.
pub proof fn law_how_numbers_are_written(n: nat, d: nat)
    requires
        d < 10,
    ensures
        decimal(d) == seq![(48 + d) as char],
        n > 0 ==> decimal(10 * n + d) == decimal(n).push((48 + d) as char),
        n > 0 ==> decimal(n)[0] != '0',
    decreases n,
{
    if n > 0 {
        assert((10 * n + d) / 10 == n);
        assert((10 * n + d) % 10 == d);
        if n >= 10 {
            law_how_numbers_are_written(n / 10, n % 10);
            lemma_decimal_value(n / 10);
        }
    }
}

/// A byte is written as its two digits to the base sixteen.
pub proof fn law_how_bytes_are_written(b: u8)
    ensures
        hex_byte(b).len() == 2,
        forall|i: int|
            0 <= i < 2 ==> '0' <= #[trigger] hex_byte(b)[i] <= '9' || 'A' <= hex_byte(b)[i] <= 'F',
        ({
            let high = hex_byte(b)[0] as u32 - (if hex_byte(b)[0] <= '9' {
                48int
            } else {
                55int
            });
            let low = hex_byte(b)[1] as u32 - (if hex_byte(b)[1] <= '9' {
                48int
            } else {
                55int
            });
            b == 16 * high + low
        }),
{
}

/// A text spells an unsigned number where it holds one or more digits, and at most a plus
/// sign before them.
pub proof fn law_what_spells_a_number(s: Seq<char>)
    ensures
        unsigned_value(s) is Some <==> ({
            let start: int = if s.len() > 0 && s[0] == '+' {
                1
            } else {
                0
            };
            start < s.len() && forall|i: int| start <= i < s.len() ==> '0' <= #[trigger] s[i] <= '9'
        }),
{
    let start: int = if s.len() > 0 && s[0] == '+' {
        1
    } else {
        0
    };
    let ds = unsigned_digits(s);
    assert(forall|i: int| 0 <= i < ds.len() ==> #[trigger] ds[i] == s[i + start]);
    if all_digits(ds) {
        assert forall|i: int| start <= i < s.len() implies '0' <= #[trigger] s[i] <= '9' by {
            assert(is_digit(ds[i - start]));
        }
    }
}

/// The first digit counts as itself; a further digit makes the number ten times as large and
/// adds to it. A plus sign changes nothing.
pub proof fn law_what_digits_are_worth(s: Seq<char>, c: char)
    requires
        '0' <= c <= '9',
    ensures
        unsigned_value(seq![c]) == Some((c as u32 - 48) as nat),
        unsigned_value(s) matches Some(n) ==> unsigned_value(s.push(c)) == Some(
            (10 * n + (c as u32 - 48)) as nat,
        ),
        s.len() > 0 && s[0] != '+' ==> unsigned_value(seq!['+'] + s) == unsigned_value(s),
{
    reveal_with_fuel(digits_value, 2);
    let one = seq![c];
    assert(one.drop_last() =~= Seq::<char>::empty());
    assert(all_digits(one));
    if unsigned_value(s) is Some {
        let ds = unsigned_digits(s);
        let more = unsigned_digits(s.push(c));
        assert(more =~= ds.push(c));
        assert(more.drop_last() =~= ds);
        assert forall|i: int| 0 <= i < more.len() implies is_digit(#[trigger] more[i]) by {
            if i < ds.len() {
                assert(is_digit(ds[i]));
            }
        }
    }
    assert((seq!['+'] + s).drop_first() =~= s);
}

/// The white space is that of Unicode, by code point.
pub proof fn law_what_white_space_is(c: char)
    ensures
        is_white_space(c) <==> seq![
            0x9u32, 0xA, 0xB, 0xC, 0xD, 0x20, 0x85, 0xA0, 0x1680, 0x2000, 0x2001, 0x2002, 0x2003,
            0x2004, 0x2005, 0x2006, 0x2007, 0x2008, 0x2009, 0x200A, 0x2028, 0x2029, 0x202F, 0x205F,
            0x3000,
        ].contains(c as u32),
{
    let all = seq![
        0x9u32, 0xA, 0xB, 0xC, 0xD, 0x20, 0x85, 0xA0, 0x1680, 0x2000, 0x2001, 0x2002, 0x2003,
        0x2004, 0x2005, 0x2006, 0x2007, 0x2008, 0x2009, 0x200A, 0x2028, 0x2029, 0x202F, 0x205F,
        0x3000,
    ];
    let u = c as u32;
    if is_white_space(c) {
        let k: int = if u <= 0xD {
            u - 0x9
        } else if u == 0x20 {
            5
        } else if u == 0x85 {
            6
        } else if u == 0xA0 {
            7
        } else if u == 0x1680 {
            8
        } else if u <= 0x200A {
            u - 0x2000 + 9
        } else if u == 0x2028 {
            20
        } else if u == 0x2029 {
            21
        } else if u == 0x202F {
            22
        } else if u == 0x205F {
            23
        } else {
            24
        };
        assert(all[k] == u);
    }
}

/// What is left of a trimmed text is the part of it between the white space at its two ends:
/// all before and after is white space, and it neither begins nor ends with white space.
pub proof fn law_what_trimming_leaves(s: Seq<char>) -> (r: (int, int))
    ensures
        0 <= r.0 <= r.1 <= s.len(),
        trimmed(s) == s.subrange(r.0, r.1),
        forall|i: int| 0 <= i < r.0 ==> is_white_space(#[trigger] s[i]),
        forall|i: int| r.1 <= i < s.len() ==> is_white_space(#[trigger] s[i]),
        r.0 < r.1 ==> !is_white_space(s[r.0]) && !is_white_space(s[r.1 - 1]),
    decreases s.len(),
{
    if s.len() > 0 && is_white_space(s.first()) {
        let t = s.drop_first();
        let (a, b) = law_what_trimming_leaves(t);
        assert(t.subrange(a, b) =~= s.subrange(a + 1, b + 1));
        assert forall|i: int| 0 <= i < a + 1 implies is_white_space(#[trigger] s[i]) by {
            if i > 0 {
                assert(s[i] == t[i - 1]);
            }
        }
        assert forall|i: int| b + 1 <= i < s.len() implies is_white_space(#[trigger] s[i]) by {
            assert(s[i] == t[i - 1]);
        }
        (a + 1, b + 1)
    } else if s.len() > 0 && is_white_space(s.last()) {
        let t = s.drop_last();
        let (a, b) = law_what_trimming_leaves(t);
        assert(t.subrange(a, b) =~= s.subrange(a, b));
        assert forall|i: int| 0 <= i < a implies is_white_space(#[trigger] s[i]) by {
            assert(s[i] == t[i]);
        }
        assert forall|i: int| b <= i < s.len() implies is_white_space(#[trigger] s[i]) by {
            if i < t.len() {
                assert(s[i] == t[i]);
            }
        }
        (a, b)
    } else {
        assert(s.subrange(0, s.len() as int) =~= s);
        (0, s.len() as int)
    }
}

/// A text without white space is trimmed as it is.
pub proof fn law_plain_text_is_not_trimmed(s: Seq<char>)
    requires
        forall|i: int| 0 <= i < s.len() ==> !is_white_space(#[trigger] s[i]),
    ensures
        trimmed(s) == s,
{
}

/// White space parts the words of a text, and nothing else does: a text without white space
/// is one word, and what stands on the two sides of white space has its words apart.
pub proof fn law_what_words_are(a: Seq<char>, w: char, b: Seq<char>)
    ensures
        words(Seq::empty()) == Seq::<Seq<char>>::empty(),
        is_white_space(w) ==> words(a + seq![w] + b) == words(a) + words(b),
        a.len() > 0 && (forall|i: int| 0 <= i < a.len() ==> !is_white_space(#[trigger] a[i]))
            ==> words(a) == seq![a],
    decreases b.len(), a.len(),
{
    if is_white_space(w) {
        let all = a + seq![w] + b;
        if b.len() == 0 {
            assert(all.drop_last() =~= a);
            assert(words(all) =~= words(a) + words(b));
        } else {
            let before = b.drop_last();
            law_what_words_are(a, w, before);
            assert(all.drop_last() =~= a + seq![w] + before);
            let n = all.len() as int;
            assert(all.last() == b.last());
            if b.len() > 1 {
                assert(all[n - 2] == b[b.len() - 2]);
                if !is_white_space(b[b.len() - 2]) {
                    lemma_last_word(before);
                    assert((words(a) + words(before)).drop_last() =~= words(a)
                        + words(before).drop_last());
                }
            } else {
                assert(all[n - 2] == w);
            }
            assert(words(all) =~= words(a) + words(b));
        }
    }
    if a.len() > 0 && (forall|i: int| 0 <= i < a.len() ==> !is_white_space(#[trigger] a[i])) {
        lemma_one_word(a);
    }
}

/// A text that does not end with white space has a word at its end.
proof fn lemma_last_word(s: Seq<char>)
    requires
        s.len() > 0,
        !is_white_space(s.last()),
    ensures
        words(s).len() > 0,
{
}

proof fn lemma_one_word(s: Seq<char>)
    requires
        s.len() > 0,
        forall|i: int| 0 <= i < s.len() ==> !is_white_space(#[trigger] s[i]),
    ensures
        words(s) == seq![s],
    decreases s.len(),
{
    let before = s.drop_last();
    assert(!is_white_space(s[s.len() - 1]));
    if s.len() == 1 {
        assert(words(before) =~= Seq::<Seq<char>>::empty());
        assert(seq![s.last()] =~= s);
        assert(words(s) =~= seq![s]);
    } else {
        assert forall|i: int| 0 <= i < before.len() implies !is_white_space(
            #[trigger] before[i],
        ) by {
            assert(before[i] == s[i]);
        }
        lemma_one_word(before);
        assert(!is_white_space(s[s.len() - 2]));
        assert(before.push(s.last()) =~= s);
        assert(words(s) =~= seq![s]);
    }
}

/// Only the letters `A` to `Z` have another lower-case form in ASCII: the letter that stands
/// thirty-two code points further on, from `a` to `z`.
pub proof fn law_lower_case_of_ascii(c: char)
    ensures
        65 <= c as u32 <= 90 ==> ascii_lower(c) as u32 == c as u32 + 32,
        !(65 <= c as u32 <= 90) ==> ascii_lower(c) == c,
{
}

} // verus!

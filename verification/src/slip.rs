//! The byte stuffing of the serial line: a frame ends with `SLIP_END`, and a byte inside
//! a frame that could be taken for a control byte is sent as an escape pair.

use vstd::prelude::*;

verus! {

pub const SLIP_END: u8 = 0x0A;

pub const SLIP_ESC: u8 = 0xDB;

pub const SLIP_ESC_END: u8 = 0xDC;

pub const SLIP_ESC_ESC: u8 = 0xDD;

/// How one byte of a frame is sent.
pub open spec fn escaped(b: u8) -> Seq<u8> {
    if b == SLIP_ESC {
        seq![SLIP_ESC, SLIP_ESC_ESC]
    } else if b == SLIP_END {
        seq![SLIP_ESC, SLIP_ESC_END]
    } else {
        seq![b]
    }
}

/// How the bytes of a frame are sent, without the byte that ends it.
pub open spec fn slip_body(data: Seq<u8>) -> Seq<u8>
    decreases data.len(),
{
    if data.len() == 0 {
        Seq::empty()
    } else {
        escaped(data[0]) + slip_body(data.drop_first())
    }
}

/// A whole frame on the line.
pub open spec fn slip_encoded(data: Seq<u8>) -> Seq<u8> {
    slip_body(data).push(SLIP_END)
}

/// The byte that an escape pair with second byte `b` stands for. A pair that no sender
/// forms stands for its second byte.
pub open spec fn unescaped(b: u8) -> u8 {
    if b == SLIP_ESC_END {
        SLIP_END
    } else if b == SLIP_ESC_ESC {
        SLIP_ESC
    } else {
        b
    }
}

/// The bytes that a row of received bytes stands for. End bytes outside an escape pair
/// stand for nothing, and an escape byte with nothing behind it stands for itself.
pub open spec fn slip_decoded(data: Seq<u8>) -> Seq<u8>
    decreases data.len(),
{
    if data.len() == 0 {
        Seq::empty()
    } else if data[0] == SLIP_ESC && data.len() > 1 {
        seq![unescaped(data[1])] + slip_decoded(data.skip(2))
    } else if data[0] == SLIP_END {
        slip_decoded(data.skip(1))
    } else {
        seq![data[0]] + slip_decoded(data.skip(1))
    }
}

/// Decoding a stuffed row of bytes gives the row back, whatever follows it.
pub proof fn law_decode_inverts_body(data: Seq<u8>, rest: Seq<u8>)
    ensures
        slip_decoded(slip_body(data) + rest) == data + slip_decoded(rest),
    decreases data.len(),
{
    if data.len() == 0 {
        assert(slip_body(data) + rest =~= rest);
        assert(data + slip_decoded(rest) =~= slip_decoded(rest));
    } else {
        let tail = slip_body(data.drop_first()) + rest;
        let all = slip_body(data) + rest;
        law_decode_inverts_body(data.drop_first(), rest);
        if data[0] == SLIP_ESC || data[0] == SLIP_END {
            assert(all.skip(2) =~= tail);
        } else {
            assert(all.skip(1) =~= tail);
        }
        assert(data + slip_decoded(rest) =~= seq![data[0]] + (data.drop_first() + slip_decoded(
            rest,
        )));
    }
}

/// Decoding an encoded frame gives the frame back.
pub proof fn law_decode_inverts_encode(data: Seq<u8>)
    ensures
        slip_decoded(slip_encoded(data)) == data,
{
    law_decode_inverts_body(data, seq![SLIP_END]);
    reveal_with_fuel(slip_decoded, 2);
    assert(slip_encoded(data) =~= slip_body(data) + seq![SLIP_END]);
    assert(seq![SLIP_END].skip(1) =~= Seq::<u8>::empty());
    assert(data + Seq::<u8>::empty() =~= data);
}

/// Two frames that look the same on the line are the same.
pub proof fn law_encode_is_injective(a: Seq<u8>, b: Seq<u8>)
    requires
        slip_encoded(a) == slip_encoded(b),
    ensures
        a == b,
{
    law_decode_inverts_encode(a);
    law_decode_inverts_encode(b);
}

/// The end byte stands nowhere in an encoded frame but at its end.
pub proof fn law_end_byte_only_ends(data: Seq<u8>)
    ensures
        !slip_body(data).contains(SLIP_END),
        slip_encoded(data).last() == SLIP_END,
        forall|i: int|
            0 <= i < slip_encoded(data).len() - 1 ==> #[trigger] slip_encoded(data)[i] != SLIP_END,
    decreases data.len(),
{
    if data.len() > 0 {
        let tail = slip_body(data.drop_first());
        law_end_byte_only_ends(data.drop_first());
        assert forall|i: int| 0 <= i < slip_body(data).len() implies slip_body(data)[i]
            != SLIP_END by {
            let n = escaped(data[0]).len() as int;
            if i >= n {
                assert(slip_body(data)[i] == tail[i - n]);
                assert(tail.contains(tail[i - n]));
            }
        }
    }
    assert forall|i: int| 0 <= i < slip_encoded(data).len() - 1 implies #[trigger] slip_encoded(
        data,
    )[i] != SLIP_END by {
        assert(slip_body(data).contains(slip_body(data)[i]));
    }
}

/// A frame of `n` bytes takes `n + 1` to `2 * n + 1` bytes on the line.
pub proof fn law_encoded_length(data: Seq<u8>)
    ensures
        data.len() + 1 <= slip_encoded(data).len() <= 2 * data.len() + 1,
    decreases data.len(),
{
    if data.len() > 0 {
        law_encoded_length(data.drop_first());
    }
}

// ---------------------------------------------------------------------------
// What stands on the line
// ---------------------------------------------------------------------------

/// Bytes are sent one by one: what is sent of a byte does not depend on the bytes around it.
pub proof fn law_bytes_are_sent_one_by_one(a: Seq<u8>, b: Seq<u8>)
    ensures
        slip_body(a + b) == slip_body(a) + slip_body(b),
        slip_encoded(a + b) == slip_encoded(a).drop_last() + slip_encoded(b),
        slip_encoded(Seq::empty()) == seq![0x0Au8],
    decreases a.len(),
{
    if a.len() == 0 {
        assert(a + b =~= b);
        assert(slip_body(a) + slip_body(b) =~= slip_body(b));
    } else {
        law_bytes_are_sent_one_by_one(a.drop_first(), b);
        assert((a + b).drop_first() =~= a.drop_first() + b);
        assert(slip_body(a + b) =~= slip_body(a) + slip_body(b));
    }
    assert(slip_encoded(a).drop_last() =~= slip_body(a));
    assert(slip_encoded(a + b) =~= slip_encoded(a).drop_last() + slip_encoded(b));
    assert(slip_encoded(Seq::empty()) =~= seq![0x0Au8]);
}

/// A byte by itself is sent as it is and followed by the end byte, but for the end byte and
/// the escape byte, which are sent as escape pairs.
pub proof fn law_how_a_byte_is_sent(b: u8)
    ensures
        b == 0x0A ==> slip_encoded(seq![b]) == seq![0xDBu8, 0xDC, 0x0A],
        b == 0xDB ==> slip_encoded(seq![b]) == seq![0xDBu8, 0xDD, 0x0A],
        b != 0x0A && b != 0xDB ==> slip_encoded(seq![b]) == seq![b, 0x0Au8],
{
    reveal_with_fuel(slip_body, 2);
    assert(seq![b].drop_first() =~= Seq::<u8>::empty());
    assert(slip_body(seq![b]) =~= escaped(b));
    if b == 0x0A {
        assert(slip_encoded(seq![b]) =~= seq![0xDBu8, 0xDC, 0x0A]);
    } else if b == 0xDB {
        assert(slip_encoded(seq![b]) =~= seq![0xDBu8, 0xDD, 0x0A]);
    } else {
        assert(slip_encoded(seq![b]) =~= seq![b, 0x0Au8]);
    }
}

/// Data without control bytes is sent as it is, and followed by the end byte.
pub proof fn law_plain_data_is_sent_as_it_is(data: Seq<u8>)
    requires
        forall|i: int| 0 <= i < data.len() ==> data[i] != 0x0A && data[i] != 0xDB,
    ensures
        slip_encoded(data) == data.push(0x0A),
    decreases data.len(),
{
    if data.len() > 0 {
        let rest = data.drop_first();
        assert forall|i: int| 0 <= i < rest.len() implies rest[i] != 0x0A && rest[i] != 0xDB by {
            assert(rest[i] == data[i + 1]);
        }
        law_plain_data_is_sent_as_it_is(rest);
        law_bytes_are_sent_one_by_one(seq![data[0]], rest);
        law_how_a_byte_is_sent(data[0]);
        assert(seq![data[0]] + rest =~= data);
        assert(seq![data[0], 0x0Au8].drop_last() =~= seq![data[0]]);
        assert(slip_encoded(data) =~= data.push(0x0A));
    } else {
        law_bytes_are_sent_one_by_one(data, data);
        assert(data =~= Seq::<u8>::empty());
    }
}

/// In what is sent, an escape byte is always the first of one of the two escape pairs, and
/// every control byte in the data takes one byte more.
pub proof fn law_escape_pairs(data: Seq<u8>)
    ensures
        forall|i: int|
            0 <= i < slip_encoded(data).len() && #[trigger] slip_encoded(data)[i] == 0xDB ==> i + 1
                < slip_encoded(data).len() && (slip_encoded(data)[i + 1] == 0xDC || slip_encoded(
                data,
            )[i + 1] == 0xDD),
        slip_encoded(data).len() == data.len() + 1 + data.filter(
            |b: u8| b == 0x0A || b == 0xDB,
        ).len(),
    decreases data.len(),
{
    reveal(Seq::filter);
    if data.len() == 0 {
        assert(slip_encoded(data) =~= seq![0x0Au8]);
    } else {
        let before = data.drop_last();
        let b = data.last();
        law_escape_pairs(before);
        law_bytes_are_sent_one_by_one(before, seq![b]);
        law_how_a_byte_is_sent(b);
        assert(before + seq![b] =~= data);
        let all = slip_encoded(data);
        let first = slip_encoded(before);
        let n = first.len() - 1;
        assert forall|i: int| 0 <= i < all.len() && #[trigger] all[i] == 0xDB implies i + 1
            < all.len() && (all[i + 1] == 0xDC || all[i + 1] == 0xDD) by {
            if i < n {
                assert(all[i] == first[i]);
                law_end_byte_only_ends(before);
                assert(i + 1 < first.len());
                assert(i + 1 != n);
                assert(all[i + 1] == first[i + 1]);
            }
        }
    }
}

/// Received bytes are decoded from the front: an escape pair stands for one byte, an end byte
/// for none, an escape byte at the very end and every other byte for itself.
pub proof fn law_how_bytes_are_decoded(b: u8, rest: Seq<u8>)
    ensures
        slip_decoded(Seq::empty()) == Seq::<u8>::empty(),
        slip_decoded(seq![0xDBu8]) == seq![0xDBu8],
        slip_decoded(seq![0x0Au8] + rest) == slip_decoded(rest),
        slip_decoded(seq![0xDBu8, 0xDC] + rest) == seq![0x0Au8] + slip_decoded(rest),
        slip_decoded(seq![0xDBu8, 0xDD] + rest) == seq![0xDBu8] + slip_decoded(rest),
        b != 0xDC && b != 0xDD ==> slip_decoded(seq![0xDBu8, b] + rest) == seq![b] + slip_decoded(
            rest,
        ),
        b != 0x0A && b != 0xDB ==> slip_decoded(seq![b] + rest) == seq![b] + slip_decoded(rest),
{
    reveal_with_fuel(slip_decoded, 2);
    assert(seq![0xDBu8].skip(1) =~= Seq::<u8>::empty());
    assert(slip_decoded(seq![0xDBu8]) =~= seq![0xDBu8]);
    assert((seq![0x0Au8] + rest).skip(1) =~= rest);
    assert((seq![0xDBu8, 0xDC] + rest).skip(2) =~= rest);
    assert((seq![0xDBu8, 0xDD] + rest).skip(2) =~= rest);
    assert((seq![0xDBu8, b] + rest).skip(2) =~= rest);
    assert((seq![b] + rest).skip(1) =~= rest);
}

/// Received bytes without control bytes stand for themselves.
pub proof fn law_plain_data_is_decoded_as_it_is(data: Seq<u8>, rest: Seq<u8>)
    requires
        forall|i: int| 0 <= i < data.len() ==> data[i] != 0x0A && data[i] != 0xDB,
    ensures
        slip_decoded(data + rest) == data + slip_decoded(rest),
    decreases data.len(),
{
    if data.len() > 0 {
        let tail = data.drop_first();
        assert forall|i: int| 0 <= i < tail.len() implies tail[i] != 0x0A && tail[i] != 0xDB by {
            assert(tail[i] == data[i + 1]);
        }
        law_plain_data_is_decoded_as_it_is(tail, rest);
        law_how_bytes_are_decoded(data[0], tail + rest);
        assert(seq![data[0]] + (tail + rest) =~= data + rest);
        assert(seq![data[0]] + (tail + slip_decoded(rest)) =~= data + slip_decoded(rest));
    } else {
        assert(data + rest =~= rest);
        assert(data + slip_decoded(rest) =~= slip_decoded(rest));
    }
}

} // verus!

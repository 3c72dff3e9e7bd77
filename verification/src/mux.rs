//! The multiplexed serial line: every frame starts with the address of the channel that
//! it belongs to.

use vstd::prelude::*;

use crate::slip::{
    escaped, law_decode_inverts_encode, law_end_byte_only_ends, law_plain_data_is_sent_as_it_is,
    slip_body, slip_decoded, slip_encoded, SLIP_END, SLIP_ESC, SLIP_ESC_END, SLIP_ESC_ESC,
};

verus! {

/// The number of bytes of `s` up to and including its first end byte.
pub open spec fn frame_end(s: Seq<u8>) -> Option<nat>
    decreases s.len(),
{
    if s.len() == 0 {
        None
    } else if s[0] == SLIP_END {
        Some(1)
    } else {
        match frame_end(s.drop_first()) {
            Some(n) => Some(n + 1),
            None => None,
        }
    }
}

/// Address and payload of a received frame. A frame without a payload holds nothing.
pub open spec fn frame_contents(raw: Seq<u8>) -> Option<(u8, Seq<u8>)> {
    let decoded = slip_decoded(raw);
    if decoded.len() > 1 {
        Some((decoded[0], decoded.skip(1)))
    } else {
        None
    }
}

/// The first frame with a payload in the stream `s`: how many bytes of `s` it takes to
/// have it, its address and its payload.
pub open spec fn next_frame(s: Seq<u8>) -> Option<(nat, (u8, Seq<u8>))>
    decreases s.len(),
    via next_frame_decreases
{
    match frame_end(s) {
        None => None,
        Some(n) => match frame_contents(s.take(n as int)) {
            Some(frame) => Some((n, frame)),
            None => later_by(n, next_frame(s.skip(n as int))),
        },
    }
}

#[via_fn]
proof fn next_frame_decreases(s: Seq<u8>) {
    lemma_frame_end(s);
}

/// The same frame, found `n` bytes further on.
pub open spec fn later_by(n: nat, found: Option<(nat, (u8, Seq<u8>))>) -> Option<
    (nat, (u8, Seq<u8>)),
> {
    match found {
        Some((m, frame)) => Some((n + m, frame)),
        None => None,
    }
}

/// What `s` holds behind its last end byte.
pub open spec fn unfinished(s: Seq<u8>) -> Seq<u8>
    decreases s.len(),
    via unfinished_decreases
{
    match frame_end(s) {
        None => s,
        Some(n) => unfinished(s.skip(n as int)),
    }
}

#[via_fn]
proof fn unfinished_decreases(s: Seq<u8>) {
    lemma_frame_end(s);
}

/// The payload that a frame brings to the channel `addr`: nothing, where the frame is
/// addressed to another channel.
pub open spec fn delivered(addr: u8, raw: Seq<u8>) -> Seq<u8> {
    match frame_contents(raw) {
        Some((a, payload)) => if a == addr {
            payload
        } else {
            Seq::empty()
        },
        None => Seq::empty(),
    }
}

pub proof fn lemma_frame_end(s: Seq<u8>)
    ensures
        frame_end(s) is None <==> !s.contains(SLIP_END),
        frame_end(s) matches Some(n) ==> {
            &&& 1 <= n <= s.len()
            &&& s[n - 1] == SLIP_END
            &&& forall|i: int| 0 <= i < n - 1 ==> s[i] != SLIP_END
        },
    decreases s.len(),
{
    if s.len() > 0 && s[0] != SLIP_END {
        let t = s.drop_first();
        lemma_frame_end(t);
        if frame_end(t) is None {
            assert forall|i: int| 0 <= i < s.len() implies s[i] != SLIP_END by {
                if i > 0 {
                    assert(t.contains(t[i - 1]));
                }
            }
        } else {
            let n = frame_end(t)->0;
            assert(s[n as int] == t[n - 1]);
            assert forall|i: int| 0 <= i < n implies s[i] != SLIP_END by {
                if i > 0 {
                    assert(t[i - 1] != SLIP_END);
                }
            }
        }
    } else if s.len() > 0 {
        assert(s.contains(s[0]));
    }
}

pub proof fn lemma_frame_end_concat(a: Seq<u8>, b: Seq<u8>)
    ensures
        frame_end(a) matches Some(n) ==> frame_end(a + b) == Some(n),
        frame_end(a) is None ==> frame_end(a + b) == (match frame_end(b) {
            Some(n) => Some(a.len() + n),
            None => None::<nat>,
        }),
    decreases a.len(),
{
    if a.len() == 0 {
        assert(a + b =~= b);
    } else {
        assert((a + b).drop_first() =~= a.drop_first() + b);
        lemma_frame_end_concat(a.drop_first(), b);
    }
}

/// What is known of the line on one side of it.
pub struct MuxView {
    /// The channel that this side sends on and reads from.
    pub mux_addr: u8,
    /// The received bytes of a frame whose end byte is still to come.
    pub pending: Seq<u8>,
    /// The received payload bytes that nobody has read yet.
    pub ready: Seq<u8>,
}

/// One side of a multiplexed serial line, apart from the port itself: whoever owns the
/// port hands in the bytes that it receives and sends the bytes that `write` returns.
pub struct MuxSlipSerial {
    read_buf: Vec<u8>,
    raw_buf: Vec<u8>,
    mux_addr: u8,
}

impl View for MuxSlipSerial {
    type V = MuxView;

    closed spec fn view(&self) -> MuxView {
        MuxView { mux_addr: self.mux_addr, pending: self.raw_buf@, ready: self.read_buf@ }
    }
}

impl MuxSlipSerial {
    /// The bytes that are kept of an unfinished frame hold no end byte.
    pub open spec fn wf(&self) -> bool {
        frame_end(self@.pending) is None
    }

    pub fn new(mux_addr: u8) -> (r: Self)
        ensures
            r.wf(),
            r@.mux_addr == mux_addr,
            r@.pending == Seq::<u8>::empty(),
            r@.ready == Seq::<u8>::empty(),
    {
        MuxSlipSerial { read_buf: Vec::new(), raw_buf: Vec::new(), mux_addr }
    }

    /// `data` as one frame on the line.
    pub fn slip_encode(data: &[u8]) -> (r: Vec<u8>)
        ensures
            r@ == slip_encoded(data@),
    {
        let mut out: Vec<u8> = Vec::with_capacity(data.len());
        assert(data@.skip(0) =~= data@);
        for i in 0..data.len()
            invariant
                slip_body(data@) == out@ + slip_body(data@.skip(i as int)),
        {
            let byte = data[i];
            assert(data@.skip(i as int).drop_first() =~= data@.skip(i + 1));
            let ghost before = out@;
            match byte {
                SLIP_ESC => {
                    out.push(SLIP_ESC);
                    out.push(SLIP_ESC_ESC);
                },
                SLIP_END => {
                    out.push(SLIP_ESC);
                    out.push(SLIP_ESC_END);
                },
                b => out.push(b),
            }
            assert(out@ =~= before + escaped(byte));
            assert(before + (escaped(byte) + slip_body(data@.skip(i + 1))) =~= out@ + slip_body(
                data@.skip(i + 1),
            ));
        }
        assert(data@.skip(data@.len() as int) =~= Seq::<u8>::empty());
        assert(out@ =~= slip_body(data@));
        out.push(SLIP_END);
        out
    }

    /// The bytes that the received bytes `data` stand for.
    pub fn slip_decode(data: &[u8]) -> (r: Vec<u8>)
        ensures
            r@ == slip_decoded(data@),
    {
        let mut out: Vec<u8> = Vec::with_capacity(data.len());
        let mut i: usize = 0;
        assert(data@.skip(0) =~= data@);
        while i < data.len()
            invariant
                i <= data.len(),
                slip_decoded(data@) == out@ + slip_decoded(data@.skip(i as int)),
            decreases data.len() - i,
        {
            let ghost before = out@;
            let ghost rest = data@.skip(i as int);
            assert(rest.skip(1) =~= data@.skip(i + 1));
            assert(rest.len() > 1 ==> rest.skip(2) =~= data@.skip(i + 2));
            if data[i] == SLIP_ESC && i < data.len() - 1 {
                let b = match data[i + 1] {
                    SLIP_ESC_END => SLIP_END,
                    SLIP_ESC_ESC => SLIP_ESC,
                    b => b,
                };
                out.push(b);
                i = i + 2;
                assert(out@ + slip_decoded(data@.skip(i as int)) =~= before + (seq![b]
                    + slip_decoded(data@.skip(i as int))));
            } else if data[i] == SLIP_END {
                i = i + 1;
            } else {
                let b = data[i];
                out.push(b);
                i = i + 1;
                assert(out@ + slip_decoded(data@.skip(i as int)) =~= before + (seq![b]
                    + slip_decoded(data@.skip(i as int))));
            }
        }
        assert(data@.skip(i as int) =~= Seq::<u8>::empty());
        assert(out@ + slip_decoded(data@.skip(i as int)) =~= out@);
        out
    }

    /// Takes received bytes until a frame ends, and no further. The payload of a frame for
    /// this channel becomes ready to be read. Returns the number of bytes taken, and
    /// whether a frame ended.
    pub fn fill_read_buf(&mut self, input: &[u8]) -> (r: (usize, bool))
        requires
            old(self).wf(),
        ensures
            final(self).wf(),
            final(self)@.mux_addr == old(self)@.mux_addr,
            match frame_end(input@) {
                Some(n) => {
                    &&& r.0 == n
                    &&& r.1
                    &&& final(self)@.pending == Seq::<u8>::empty()
                    &&& final(self)@.ready == old(self)@.ready + delivered(
                        old(self)@.mux_addr,
                        old(self)@.pending + input@.take(n as int),
                    )
                },
                None => {
                    &&& r.0 == input@.len()
                    &&& !r.1
                    &&& final(self)@.pending == old(self)@.pending + input@
                    &&& final(self)@.ready == old(self)@.ready
                },
            },
    {
        let mut i: usize = 0;
        while i < input.len()
            invariant
                i <= input.len(),
                frame_end(input@.take(i as int)) is None,
                frame_end(old(self)@.pending) is None,
                self@.pending == old(self)@.pending + input@.take(i as int),
                self@.ready == old(self)@.ready,
                self@.mux_addr == old(self)@.mux_addr,
            decreases input.len() - i,
        {
            let byte = input[i];
            let ghost head = input@.take(i as int);
            let ghost rest = input@.skip(i as int);
            self.raw_buf.push(byte);
            i = i + 1;
            proof {
                assert(input@.take(i as int) =~= head + seq![byte]);
                assert(head + rest =~= input@);
                lemma_frame_end_concat(head, seq![byte]);
                lemma_frame_end_concat(head, rest);
                assert(seq![byte].drop_first() =~= Seq::<u8>::empty());
                assert(old(self)@.pending + input@.take(i as int) =~= (old(self)@.pending
                    + head).push(byte));
                reveal_with_fuel(frame_end, 2);
            }
            if byte == SLIP_END {
                let decoded = Self::slip_decode(self.raw_buf.as_slice());
                self.raw_buf.clear();
                if decoded.len() > 1 && decoded[0] == self.mux_addr {
                    let payload = vstd::slice::slice_subrange(decoded.as_slice(), 1, decoded.len());
                    self.read_buf.extend_from_slice(payload);
                    assert(payload@ =~= decoded@.skip(1));
                    assert(self.read_buf@ =~= old(self)@.ready + payload@);
                } else {
                    assert(self.read_buf@ =~= old(self)@.ready + Seq::<u8>::empty());
                }
                return (i, true);
            }
        }
        proof {
            assert(input@.take(i as int) =~= input@);
            lemma_frame_end_concat(old(self)@.pending, input@);
        }
        (i, false)
    }

    /// Takes received bytes until a frame with a payload ends, and no further. Returns the
    /// number of bytes taken, and address and payload of the frame where one ended. Unlike
    /// `read`, this does not filter by address: the caller decides.
    pub fn read_raw_frame(&mut self, input: &[u8]) -> (r: (usize, Option<(u8, Vec<u8>)>))
        requires
            old(self).wf(),
        ensures
            final(self).wf(),
            final(self)@.mux_addr == old(self)@.mux_addr,
            final(self)@.ready == old(self)@.ready,
            match next_frame(old(self)@.pending + input@) {
                Some((n, (addr, payload))) => {
                    &&& r.0 == n - old(self)@.pending.len()
                    &&& r.1 matches Some((a, p)) && a == addr && p@ == payload
                    &&& final(self)@.pending == Seq::<u8>::empty()
                },
                None => {
                    &&& r.0 == input@.len()
                    &&& r.1 is None
                    &&& final(self)@.pending == unfinished(old(self)@.pending + input@)
                },
            },
    {
        let mut i: usize = 0;
        let ghost s = old(self)@.pending + input@;
        assert(input@.skip(0) =~= input@);
        while i < input.len()
            invariant
                i <= input.len(),
                s == old(self)@.pending + input@,
                self.wf(),
                self@.ready == old(self)@.ready,
                self@.mux_addr == old(self)@.mux_addr,
                self@.pending.len() <= old(self)@.pending.len() + i,
                next_frame(s) == later_by(
                    (old(self)@.pending.len() + i - self@.pending.len()) as nat,
                    next_frame(self@.pending + input@.skip(i as int)),
                ),
                unfinished(s) == unfinished(self@.pending + input@.skip(i as int)),
            decreases input.len() - i,
        {
            let byte = input[i];
            let ghost kept = self@.pending;
            let ghost left = input@.skip(i as int + 1);
            let ghost raw = kept.push(byte);
            self.raw_buf.push(byte);
            i = i + 1;
            proof {
                assert(kept + input@.skip(i - 1) =~= raw + left);
                assert(raw =~= kept + seq![byte]);
                lemma_frame_end_concat(kept, seq![byte]);
                lemma_frame_end_concat(raw, left);
                reveal_with_fuel(frame_end, 2);
                assert(seq![byte].drop_first() =~= Seq::<u8>::empty());
            }
            if byte == SLIP_END {
                let decoded = Self::slip_decode(self.raw_buf.as_slice());
                self.raw_buf.clear();
                proof {
                    assert((raw + left).take(raw.len() as int) =~= raw);
                    assert((raw + left).skip(raw.len() as int) =~= left);
                    assert(self@.pending + left =~= left);
                }
                if decoded.len() > 1 {
                    let addr = decoded[0];
                    let payload = vstd::slice::slice_to_vec(
                        vstd::slice::slice_subrange(decoded.as_slice(), 1, decoded.len()),
                    );
                    assert(payload@ =~= decoded@.skip(1));
                    return (i, Some((addr, payload)));
                }
            }
        }
        assert(self@.pending + input@.skip(i as int) =~= self@.pending);
        (i, None)
    }

    /// Moves ready bytes to the front of `buf`, as many as fit, and returns their number.
    /// Returns `None` where no byte is ready: a further frame has to be received first.
    pub fn read(&mut self, buf: &mut [u8]) -> (r: Option<usize>)
        ensures
            final(self)@.mux_addr == old(self)@.mux_addr,
            final(self)@.pending == old(self)@.pending,
            r is None <==> old(self)@.ready.len() == 0,
            r is None ==> final(self)@.ready == old(self)@.ready && final(buf)@ == old(buf)@,
            r matches Some(n) ==> {
                &&& n == vstd::math::min(old(buf)@.len() as int, old(self)@.ready.len() as int)
                &&& final(buf)@ == old(self)@.ready.take(n as int) + old(buf)@.skip(n as int)
                &&& final(self)@.ready == old(self)@.ready.skip(n as int)
                &&& final(buf)@.take(n as int) + final(self)@.ready == old(self)@.ready
            },
    {
        if self.read_buf.is_empty() {
            return None;
        }
        let n: usize = if buf.len() < self.read_buf.len() {
            buf.len()
        } else {
            self.read_buf.len()
        };
        let rest = self.read_buf.split_off(n);
        for i in 0..n
            invariant
                n <= old(buf)@.len(),
                buf@.len() == old(buf)@.len(),
                self.read_buf@.len() == n,
                buf@ == self.read_buf@.take(i as int) + old(buf)@.skip(i as int),
        {
            buf[i] = self.read_buf[i];
            assert(buf@ =~= self.read_buf@.take(i + 1) + old(buf)@.skip(i + 1));
        }
        assert(self.read_buf@.take(n as int) =~= old(self)@.ready.take(n as int));
        assert(rest@ =~= old(self)@.ready.skip(n as int));
        self.read_buf = rest;
        assert(buf@.take(n as int) + self@.ready =~= old(self)@.ready);
        Some(n)
    }

    /// The bytes to send so that the other side receives `buf` on this channel.
    pub fn write(&self, buf: &[u8]) -> (r: Vec<u8>)
        ensures
            r@ == slip_encoded(seq![self@.mux_addr] + buf@),
    {
        let mut payload: Vec<u8> = Vec::with_capacity(buf.len());
        payload.push(self.mux_addr);
        payload.extend_from_slice(buf);
        assert(payload@ =~= seq![self@.mux_addr] + buf@);
        Self::slip_encode(payload.as_slice())
    }
}

// ---------------------------------------------------------------------------
// What a stream brings across
// ---------------------------------------------------------------------------

/// The line after the messages `msgs` (channel and payload each) were written to it.
pub open spec fn wire(msgs: Seq<(u8, Seq<u8>)>) -> Seq<u8>
    decreases msgs.len(),
{
    if msgs.len() == 0 {
        Seq::empty()
    } else {
        slip_encoded(seq![msgs[0].0] + msgs[0].1) + wire(msgs.drop_first())
    }
}

/// All frames with a payload in the stream `s`.
pub open spec fn frames(s: Seq<u8>) -> Seq<(u8, Seq<u8>)>
    decreases s.len(),
    via frames_decreases
{
    match frame_end(s) {
        None => Seq::empty(),
        Some(n) => (match frame_contents(s.take(n as int)) {
            Some(frame) => seq![frame],
            None => Seq::empty(),
        }) + frames(s.skip(n as int)),
    }
}

#[via_fn]
proof fn frames_decreases(s: Seq<u8>) {
    lemma_frame_end(s);
}

/// What the stream `s` brings to the channel `addr`.
pub open spec fn received(addr: u8, s: Seq<u8>) -> Seq<u8>
    decreases s.len(),
    via received_decreases
{
    match frame_end(s) {
        None => Seq::empty(),
        Some(n) => delivered(addr, s.take(n as int)) + received(addr, s.skip(n as int)),
    }
}

#[via_fn]
proof fn received_decreases(addr: u8, s: Seq<u8>) {
    lemma_frame_end(s);
}

/// The payloads of the messages on the channel `addr`, one after the other.
pub open spec fn addressed(addr: u8, msgs: Seq<(u8, Seq<u8>)>) -> Seq<u8>
    decreases msgs.len(),
{
    if msgs.len() == 0 {
        Seq::empty()
    } else if msgs[0].0 == addr {
        msgs[0].1 + addressed(addr, msgs.drop_first())
    } else {
        addressed(addr, msgs.drop_first())
    }
}

/// An encoded frame at the start of a stream is the stream's first frame.
pub proof fn lemma_encoded_comes_first(data: Seq<u8>, rest: Seq<u8>)
    ensures
        frame_end(slip_encoded(data) + rest) == Some(slip_encoded(data).len()),
        (slip_encoded(data) + rest).take(slip_encoded(data).len() as int) == slip_encoded(data),
        (slip_encoded(data) + rest).skip(slip_encoded(data).len() as int) == rest,
        slip_decoded(slip_encoded(data)) == data,
{
    let enc = slip_encoded(data);
    let body = slip_body(data);
    law_decode_inverts_encode(data);
    law_end_byte_only_ends(data);
    lemma_frame_end(body);
    lemma_frame_end_concat(body, seq![SLIP_END] + rest);
    assert(enc + rest =~= body + (seq![SLIP_END] + rest));
    assert((enc + rest).take(enc.len() as int) =~= enc);
    assert((enc + rest).skip(enc.len() as int) =~= rest);
}

/// A frame read back from the line is the one that was written to it, and reading it
/// takes the bytes of that frame and no more.
pub proof fn law_read_gives_back_write(addr: u8, payload: Seq<u8>, rest: Seq<u8>)
    requires
        payload.len() > 0,
    ensures
        next_frame(slip_encoded(seq![addr] + payload) + rest) == Some(
            (slip_encoded(seq![addr] + payload).len(), (addr, payload)),
        ),
{
    lemma_encoded_comes_first(seq![addr] + payload, rest);
    assert((seq![addr] + payload).skip(1) =~= payload);
}

/// A frame without a payload is passed over.
pub proof fn law_empty_write_is_passed_over(addr: u8, rest: Seq<u8>)
    ensures
        next_frame(slip_encoded(seq![addr]) + rest) == later_by(
            slip_encoded(seq![addr]).len(),
            next_frame(rest),
        ),
{
    lemma_encoded_comes_first(seq![addr], rest);
}

/// Reading all frames of a line gives back all messages that were written to it, in
/// order, and leaves nothing over.
pub proof fn law_stream_gives_back_writes(msgs: Seq<(u8, Seq<u8>)>)
    requires
        forall|i: int| 0 <= i < msgs.len() ==> (#[trigger] msgs[i]).1.len() > 0,
    ensures
        frames(wire(msgs)) == msgs,
        unfinished(wire(msgs)) == Seq::<u8>::empty(),
    decreases msgs.len(),
{
    if msgs.len() > 0 {
        let first = msgs[0];
        let data = seq![first.0] + first.1;
        let rest = msgs.drop_first();
        lemma_encoded_comes_first(data, wire(rest));
        law_stream_gives_back_writes(rest);
        assert(data.skip(1) =~= first.1);
        assert(seq![first] + rest =~= msgs);
    } else {
        assert(frames(wire(msgs)) =~= msgs);
    }
}

/// A channel receives exactly what was written to it, in order; what was written to
/// other channels does not reach it.
pub proof fn law_channel_receives_what_was_addressed(addr: u8, msgs: Seq<(u8, Seq<u8>)>)
    ensures
        received(addr, wire(msgs)) == addressed(addr, msgs),
    decreases msgs.len(),
{
    if msgs.len() > 0 {
        let first = msgs[0];
        let data = seq![first.0] + first.1;
        let rest = msgs.drop_first();
        lemma_encoded_comes_first(data, wire(rest));
        law_channel_receives_what_was_addressed(addr, rest);
        assert(data.skip(1) =~= first.1);
        assert(delivered(addr, slip_encoded(data)) =~= if first.0 == addr {
            first.1
        } else {
            Seq::empty()
        });
        assert(Seq::<u8>::empty() + addressed(addr, rest) =~= addressed(addr, rest));
    }
}

/// It makes no difference where a stream is cut: keeping what is unfinished of the first
/// piece and going on with the second finds what the whole stream holds.
pub proof fn law_cuts_make_no_difference(addr: u8, a: Seq<u8>, b: Seq<u8>)
    ensures
        next_frame(a) is None ==> next_frame(a + b) == later_by(
            (a.len() - unfinished(a).len()) as nat,
            next_frame(unfinished(a) + b),
        ),
        next_frame(a) is Some ==> next_frame(a + b) == next_frame(a),
        unfinished(a).len() <= a.len(),
        unfinished(a + b) == unfinished(unfinished(a) + b),
        frames(a + b) == frames(a) + frames(unfinished(a) + b),
        received(addr, a + b) == received(addr, a) + received(addr, unfinished(a) + b),
    decreases a.len(),
{
    lemma_frame_end(a);
    lemma_frame_end_concat(a, b);
    match frame_end(a) {
        None => {
            assert(frames(a) + frames(a + b) =~= frames(a + b));
            assert(received(addr, a) + received(addr, a + b) =~= received(addr, a + b));
        },
        Some(n) => {
            let n = n as int;
            assert((a + b).take(n) =~= a.take(n));
            assert((a + b).skip(n) =~= a.skip(n) + b);
            law_cuts_make_no_difference(addr, a.skip(n), b);
            assert(frames(a + b) =~= frames(a) + frames(unfinished(a) + b));
            assert(received(addr, a + b) =~= received(addr, a) + received(
                addr,
                unfinished(a) + b,
            ));
        },
    }
}

/// Reading frame by frame finds all frames: the next frame is the first of them, and the
/// others follow behind it. Where there is no next frame, there are none.
pub proof fn law_next_frame_is_the_first(s: Seq<u8>)
    ensures
        next_frame(s) matches Some((n, frame)) ==> {
            &&& 0 < n <= s.len()
            &&& frames(s) == seq![frame] + frames(s.skip(n as int))
        },
        next_frame(s) is None ==> frames(s) == Seq::<(u8, Seq<u8>)>::empty(),
    decreases s.len(),
{
    lemma_frame_end(s);
    if let Some(n) = frame_end(s) {
        let rest = s.skip(n as int);
        if frame_contents(s.take(n as int)) is None {
            law_next_frame_is_the_first(rest);
            assert(frames(s) =~= frames(rest));
            if let Some((m, _)) = next_frame(rest) {
                assert(rest.skip(m as int) =~= s.skip((n + m) as int));
            }
        }
    }
}

/// Filling frame by frame receives everything: the first frame of a stream, of which
/// `pending` came in earlier, brings the first part, and what follows brings the rest.
pub proof fn law_fill_brings_the_first_part(addr: u8, pending: Seq<u8>, input: Seq<u8>)
    requires
        frame_end(pending) is None,
    ensures
        frame_end(input) matches Some(n) ==> received(addr, pending + input) == delivered(
            addr,
            pending + input.take(n as int),
        ) + received(addr, input.skip(n as int)),
        frame_end(input) is None ==> received(addr, pending + input) == Seq::<u8>::empty(),
{
    lemma_frame_end(input);
    lemma_frame_end_concat(pending, input);
    if let Some(n) = frame_end(input) {
        let k = (pending.len() + n) as int;
        assert((pending + input).take(k) =~= pending + input.take(n as int));
        assert((pending + input).skip(k) =~= input.skip(n as int));
    }
}

/// What is unfinished holds no end byte, so that it can be kept for the next piece.
pub proof fn law_unfinished_has_no_end(s: Seq<u8>)
    ensures
        frame_end(unfinished(s)) is None,
    decreases s.len(),
{
    lemma_frame_end(s);
    if let Some(n) = frame_end(s) {
        law_unfinished_has_no_end(s.skip(n as int));
    }
}

// ---------------------------------------------------------------------------
// Where frames begin and end
// ---------------------------------------------------------------------------

/// A frame ends with the first byte `0x0A`, and not before one came.
pub proof fn law_frame_ends_with_the_first_end_byte(body: Seq<u8>, rest: Seq<u8>)
    requires
        forall|i: int| 0 <= i < body.len() ==> body[i] != 0x0A,
    ensures
        frame_end(body) is None,
        frame_end(body + seq![0x0Au8] + rest) == Some((body.len() + 1) as nat),
{
    lemma_frame_end(body);
    lemma_frame_end_concat(body, seq![0x0Au8] + rest);
    assert(body + (seq![0x0Au8] + rest) =~= body + seq![0x0Au8] + rest);
}

/// The address of a frame is the first byte that it stands for, and its payload is all that
/// follows. A frame that stands for fewer than two bytes holds nothing, and so nothing of it
/// is delivered; a payload is delivered whole to the channel it is addressed to, and to no
/// other.
pub proof fn law_contents_of_a_frame(raw: Seq<u8>, addr: u8)
    ensures
        frame_contents(raw) is None <==> slip_decoded(raw).len() < 2,
        frame_contents(raw) matches Some((a, payload)) ==> seq![a] + payload == slip_decoded(raw),
        slip_decoded(raw).len() < 2 ==> delivered(addr, raw) == Seq::<u8>::empty(),
        slip_decoded(raw).len() >= 2 && slip_decoded(raw)[0] == addr ==> seq![addr] + delivered(
            addr,
            raw,
        ) == slip_decoded(raw),
        slip_decoded(raw).len() >= 2 && slip_decoded(raw)[0] != addr ==> delivered(addr, raw)
            == Seq::<u8>::empty(),
{
    let d = slip_decoded(raw);
    if d.len() >= 2 {
        assert(seq![d[0]] + d.skip(1) =~= d);
    }
}

/// The next frame of a stream is the first that holds something: bytes without an end byte
/// hold no frame, a frame that stands for two bytes or more is found, and one that stands for
/// fewer is passed over.
pub proof fn law_where_the_next_frame_is(body: Seq<u8>, rest: Seq<u8>)
    requires
        forall|i: int| 0 <= i < body.len() ==> body[i] != 0x0A,
    ensures
        next_frame(body) is None,
        ({
            let raw = body + seq![0x0Au8];
            let d = slip_decoded(raw);
            &&& d.len() >= 2 ==> next_frame(raw + rest) == Some((raw.len(), (d[0], d.skip(1))))
            &&& d.len() < 2 && next_frame(rest) is None ==> next_frame(raw + rest) is None
            &&& d.len() < 2 ==> (next_frame(rest) matches Some((m, frame)) ==> next_frame(
                raw + rest,
            ) == Some(((raw.len() + m) as nat, frame)))
        }),
{
    let raw = body + seq![0x0Au8];
    law_frame_ends_with_the_first_end_byte(body, rest);
    assert((raw + rest).take(raw.len() as int) =~= raw);
    assert((raw + rest).skip(raw.len() as int) =~= rest);
}

/// What is unfinished of a stream is what follows its last end byte.
pub proof fn law_unfinished_follows_the_last_end_byte(s: Seq<u8>)
    ensures
        unfinished(s).len() <= s.len(),
        s.skip(s.len() - unfinished(s).len()) == unfinished(s),
        forall|i: int| 0 <= i < unfinished(s).len() ==> #[trigger] unfinished(s)[i] != 0x0A,
        unfinished(s).len() < s.len() ==> s[s.len() - unfinished(s).len() - 1] == 0x0A,
    decreases s.len(),
{
    lemma_frame_end(s);
    match frame_end(s) {
        None => {
            assert(s.skip(0) =~= s);
            assert forall|i: int| 0 <= i < s.len() implies #[trigger] s[i] != 0x0A by {
                assert(s.contains(s[i]));
            }
        },
        Some(n) => {
            let rest = s.skip(n as int);
            law_unfinished_follows_the_last_end_byte(rest);
            assert(s.skip(s.len() - unfinished(s).len()) =~= rest.skip(
                rest.len() - unfinished(rest).len(),
            ));
        },
    }
}

/// A message of bytes that are no control bytes stands on the line as it is: the address, the
/// payload and the end byte; and that is received on its channel as the payload.
pub proof fn law_plain_message_on_the_line(addr: u8, payload: Seq<u8>)
    requires
        addr != 0x0A && addr != 0xDB,
        forall|i: int| 0 <= i < payload.len() ==> payload[i] != 0x0A && payload[i] != 0xDB,
        payload.len() > 0,
    ensures
        slip_encoded(seq![addr] + payload) == (seq![addr] + payload).push(0x0A),
        next_frame((seq![addr] + payload).push(0x0A)) == Some(
            ((payload.len() + 2) as nat, (addr, payload)),
        ),
        delivered(addr, (seq![addr] + payload).push(0x0A)) == payload,
{
    let data = seq![addr] + payload;
    assert forall|i: int| 0 <= i < data.len() implies data[i] != 0x0A && data[i] != 0xDB by {
        if i > 0 {
            assert(data[i] == payload[i - 1]);
        }
    }
    law_plain_data_is_sent_as_it_is(data);
    law_read_gives_back_write(addr, payload, Seq::empty());
    assert(data.push(0x0A) + Seq::<u8>::empty() =~= data.push(0x0A));
    law_decode_inverts_encode(data);
    assert(data.skip(1) =~= payload);
}

} // verus!

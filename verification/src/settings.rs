//! Reading the settings of a device: a request on the settings channel, and a JSON reply
//! that may span several frames.

use vstd::prelude::*;
use vstd::string::*;
use vstd::utf8::*;

use crate::device::{line_speed, settings_channel, DeviceType};
use crate::mux::MuxSlipSerial;
use crate::pieces::{
    law_bytes_that_can_go_on_are_taken, law_cuts_do_not_matter, law_encoded_text_is_taken,
    law_start_is_taken, law_whole_text_does_not_go_on, law_whole_text_is_taken, take_text, taken,
};
use crate::slip::{law_plain_data_is_sent_as_it_is, slip_encoded};

verus! {

/// Seconds until a silent port, or a reply that stays incomplete, counts as failed.
pub const SETTINGS_TIMEOUT_SECS: u64 = 4;

/// The request for the settings: an empty JSON object.
pub open spec fn settings_request() -> Seq<u8> {
    seq!['{' as u8, '}' as u8]
}

/// How far a reply has been read: how many braces are open, whether one was ever opened,
/// whether the next character stands in a string, and whether a backslash stands before it
/// there.
pub struct Scan {
    pub depth: int,
    pub opened: bool,
    pub in_string: bool,
    pub escaped: bool,
}

/// The scan after one more character. A quote begins a string only inside braces. In a
/// string braces do not count, and a backslash takes the next character with it.
pub open spec fn scan_next(st: Scan, c: char) -> Scan {
    if st.in_string {
        if st.escaped {
            Scan { escaped: false, ..st }
        } else if c == '\\' {
            Scan { escaped: true, ..st }
        } else if c == '"' {
            Scan { in_string: false, ..st }
        } else {
            st
        }
    } else if c == '{' {
        Scan { depth: st.depth + 1, opened: true, ..st }
    } else if c == '}' {
        Scan { depth: st.depth - 1, ..st }
    } else if c == '"' && st.depth > 0 {
        Scan { in_string: true, ..st }
    } else {
        st
    }
}

/// The scan after all of `s`.
pub open spec fn scanned(s: Seq<char>) -> Scan
    decreases s.len(),
{
    if s.len() == 0 {
        Scan { depth: 0, opened: false, in_string: false, escaped: false }
    } else {
        scan_next(scanned(s.drop_last()), s.last())
    }
}

/// `s` opens a brace, closes as many as it opens, and does not end in a string.
pub open spec fn complete(s: Seq<char>) -> bool {
    let st = scanned(s);
    st.opened && st.depth == 0 && !st.in_string
}

/// What a payload brings after the bytes `held` back: text, and what is held back in turn.
/// A payload that ends inside a character is held back as a whole, until the payloads after
/// it complete the character; where they do not go on with it, it brings nothing. Nor does
/// any other payload that is not valid UTF-8.
pub open spec fn brought(held: Seq<u8>, payload: Seq<u8>) -> (Seq<char>, Seq<u8>) {
    let all = held + payload;
    if valid_utf8(all) {
        (decode_utf8(all), Seq::empty())
    } else if taken(all) is Some {
        (Seq::empty(), all)
    } else if valid_utf8(payload) {
        (decode_utf8(payload), Seq::empty())
    } else if taken(payload) is Some {
        (Seq::empty(), payload)
    } else {
        (Seq::empty(), Seq::empty())
    }
}

/// One thing to do. Every step but `Finish` is answered by `SettingsRead::advance`.
pub enum SettingsStep {
    /// Open the serial port.
    OpenPort { port: String, baud_rate: u32, timeout_secs: u64 },
    /// Send these bytes.
    Send(Vec<u8>),
    /// Flush the port.
    Flush,
    /// Receive a frame. The time for all frames together is limited.
    Receive { timeout_secs: u64 },
    /// There is nothing more to do.
    Finish(Result<String, String>),
}

/// The answer to a step. A step that does not wait for an answer of some kind is not
/// answered by it: everything stays as it is.
pub enum SettingsEvent {
    Done,
    Failed(String),
    TimedOut,
    Frame(u8, Vec<u8>),
}

enum SettingsPhase {
    Opening,
    Sending,
    Flushing,
    Receiving,
    Finished(Result<String, String>),
}

/// A read of the settings that is under way.
pub struct SettingsRead {
    port: String,
    device_type: DeviceType,
    json_buf: String,
    held: Vec<u8>,
    phase: SettingsPhase,
}

/// What a read of the settings comes to: the reply, or why there is none.
pub type Reply = Result<Seq<char>, Seq<char>>;

pub open spec fn reply(r: Result<String, String>) -> Reply {
    match r {
        Ok(s) => Ok(s@),
        Err(e) => Err(e@),
    }
}

pub enum ReadPhase {
    Opening,
    Sending,
    Flushing,
    Receiving,
    Finished(Reply),
}

pub enum Event {
    Done,
    Failed(Seq<char>),
    TimedOut,
    Frame(u8, Seq<u8>),
}

impl View for SettingsEvent {
    type V = Event;

    open spec fn view(&self) -> Event {
        match *self {
            SettingsEvent::Done => Event::Done,
            SettingsEvent::Failed(e) => Event::Failed(e@),
            SettingsEvent::TimedOut => Event::TimedOut,
            SettingsEvent::Frame(addr, payload) => Event::Frame(addr, payload@),
        }
    }
}

pub struct ReadView {
    pub port: Seq<char>,
    pub device_type: DeviceType,
    /// What has come in of the reply.
    pub text: Seq<char>,
    /// What was held back, as it ends inside a character.
    pub held: Seq<u8>,
    pub phase: ReadPhase,
}

impl View for SettingsRead {
    type V = ReadView;

    closed spec fn view(&self) -> ReadView {
        ReadView {
            port: self.port@,
            device_type: self.device_type,
            text: self.json_buf@,
            held: self.held@,
            phase: match self.phase {
                SettingsPhase::Opening => ReadPhase::Opening,
                SettingsPhase::Sending => ReadPhase::Sending,
                SettingsPhase::Flushing => ReadPhase::Flushing,
                SettingsPhase::Receiving => ReadPhase::Receiving,
                SettingsPhase::Finished(r) => ReadPhase::Finished(reply(r)),
            },
        }
    }
}

pub open spec fn failed(v: ReadView, e: Seq<char>) -> ReadView {
    ReadView { phase: ReadPhase::Finished(Err(e)), ..v }
}

/// The read after a frame came in. Frames of other channels are ignored; the reply is
/// there once it is complete.
pub open spec fn after_frame(v: ReadView, addr: u8, payload: Seq<u8>) -> ReadView {
    if addr != settings_channel(v.device_type) {
        v
    } else {
        let (chunk, held) = brought(v.held, payload);
        let text = v.text + chunk;
        ReadView {
            text,
            held,
            phase: if complete(text) {
                ReadPhase::Finished(Ok(text))
            } else {
                v.phase
            },
            ..v
        }
    }
}

/// The read after the answer `e` to its step.
pub open spec fn answered(v: ReadView, e: Event) -> ReadView {
    match (v.phase, e) {
        (ReadPhase::Opening, Event::Done) => ReadView { phase: ReadPhase::Sending, ..v },
        (ReadPhase::Opening, Event::Failed(why)) => failed(
            v,
            "Failed to open serial port '"@ + v.port + "': "@ + why,
        ),
        (ReadPhase::Sending, Event::Done) => ReadView { phase: ReadPhase::Flushing, ..v },
        (ReadPhase::Sending, Event::Failed(why)) => failed(
            v,
            "Failed to send settings request: "@ + why,
        ),
        (ReadPhase::Flushing, Event::Done) => ReadView { phase: ReadPhase::Receiving, ..v },
        (ReadPhase::Flushing, Event::Failed(why)) => failed(v, "Failed to flush: "@ + why),
        (ReadPhase::Receiving, Event::TimedOut) => failed(
            v,
            "Timeout waiting for settings response from device"@,
        ),
        (ReadPhase::Receiving, Event::Failed(why)) => failed(
            v,
            "Failed to read frame: "@ + why,
        ),
        (ReadPhase::Receiving, Event::Frame(addr, payload)) => after_frame(v, addr, payload),
        _ => v,
    }
}

/// `step` is what `v` asks for.
pub open spec fn is_read_step_of(step: SettingsStep, v: ReadView) -> bool {
    match v.phase {
        ReadPhase::Opening => {
            &&& step matches SettingsStep::OpenPort { port, baud_rate, timeout_secs }
            &&& port@ == v.port
            &&& baud_rate == line_speed(v.device_type)
            &&& timeout_secs == SETTINGS_TIMEOUT_SECS
        },
        ReadPhase::Sending => {
            &&& step matches SettingsStep::Send(bytes)
            &&& bytes@ == slip_encoded(seq![settings_channel(v.device_type)] + settings_request())
        },
        ReadPhase::Flushing => step is Flush,
        ReadPhase::Receiving => {
            &&& step matches SettingsStep::Receive { timeout_secs }
            &&& timeout_secs == SETTINGS_TIMEOUT_SECS
        },
        ReadPhase::Finished(o) => step matches SettingsStep::Finish(r) && reply(r) == o,
    }
}

/// Whether `text` opens a brace, closes as many as it opens, and does not end in a string.
pub fn reply_is_complete(text: &str) -> (r: bool)
    ensures
        r == complete(text@),
{
    let n: usize = text.unicode_len();
    let mut depth: i128 = 0;
    let mut opened: bool = false;
    let mut in_string: bool = false;
    let mut escaped: bool = false;
    for c in it: text.chars()
        invariant
            it.seq() == text@,
            n == text@.len(),
            -it.index() <= depth <= it.index(),
            it.index() <= n,
            scanned(text@.take(it.index() as int)) == (Scan {
                depth: depth as int,
                opened,
                in_string,
                escaped,
            }),
    {
        assert(text@.take(it.index() + 1).drop_last() =~= text@.take(it.index() as int));
        if in_string {
            if escaped {
                escaped = false;
            } else if c == '\\' {
                escaped = true;
            } else if c == '"' {
                in_string = false;
            }
        } else if c == '{' {
            depth = depth + 1;
            opened = true;
        } else if c == '}' {
            depth = depth - 1;
        } else if c == '"' && depth > 0 {
            in_string = true;
        }
    }
    assert(text@.take(text@.len() as int) =~= text@);
    opened && depth == 0 && !in_string
}

/// Whether the time for the reply is over: more than `SETTINGS_TIMEOUT_SECS` have passed since
/// the first wait for a frame.
pub fn reply_is_overdue(elapsed_nanos: u128) -> (r: bool)
    ensures
        r == (elapsed_nanos > 4_000_000_000),
{
    elapsed_nanos > (SETTINGS_TIMEOUT_SECS as u128) * 1_000_000_000
}

/// The text that a payload brings, and what is held back.
fn bring(held: &Vec<u8>, payload: &[u8]) -> (r: (String, Vec<u8>))
    ensures
        brought(held@, payload@) == (r.0@, r.1@),
{
    let mut all = vstd::slice::slice_to_vec(held.as_slice());
    all.extend_from_slice(payload);
    assert(all@ =~= held@ + payload@);
    proof {
        law_whole_text_is_taken(all@);
        law_whole_text_is_taken(payload@);
    }
    match take_text(all.as_slice()) {
        Some((text, tail)) => if tail.len() == 0 {
            (text, Vec::new())
        } else {
            (String::new(), all)
        },
        None => match take_text(payload) {
            Some((text, tail)) => if tail.len() == 0 {
                (text, Vec::new())
            } else {
                (String::new(), vstd::slice::slice_to_vec(payload))
            },
            None => (String::new(), Vec::new()),
        },
    }
}

fn explained(start: &str, reason: &str) -> (r: String)
    ensures
        r@ == start@ + reason@,
{
    let mut s = start.to_string();
    s.append(reason);
    s
}

/// Starts to read the settings of a device: by sending an empty JSON object `{}` to the
/// settings channel, and reassembling the JSON reply, which may span several frames.
pub fn read_settings(port_name: &str, device_type: &DeviceType) -> (r: SettingsRead)
    ensures
        r@ == (ReadView {
            port: port_name@,
            device_type: *device_type,
            text: Seq::empty(),
            held: Seq::empty(),
            phase: ReadPhase::Opening,
        }),
{
    SettingsRead {
        port: port_name.to_string(),
        device_type: *device_type,
        json_buf: String::new(),
        held: Vec::new(),
        phase: SettingsPhase::Opening,
    }
}

impl SettingsRead {
    /// What is to be done now.
    pub fn step(&self) -> (r: SettingsStep)
        ensures
            is_read_step_of(r, self@),
    {
        match &self.phase {
            SettingsPhase::Opening => SettingsStep::OpenPort {
                port: self.port.clone(),
                baud_rate: self.device_type.baud_rate(),
                timeout_secs: SETTINGS_TIMEOUT_SECS,
            },
            SettingsPhase::Sending => {
                let line = MuxSlipSerial::new(self.device_type.settings_mux_addr());
                let request: [u8; 2] = [0x7B, 0x7D];
                assert(request@ =~= settings_request());
                SettingsStep::Send(line.write(request.as_slice()))
            },
            SettingsPhase::Flushing => SettingsStep::Flush,
            SettingsPhase::Receiving => SettingsStep::Receive {
                timeout_secs: SETTINGS_TIMEOUT_SECS,
            },
            SettingsPhase::Finished(r) => SettingsStep::Finish(
                match r {
                    Ok(s) => Ok(s.clone()),
                    Err(e) => Err(e.clone()),
                },
            ),
        }
    }

    /// Goes on after the answer to the current step.
    pub fn advance(&mut self, event: SettingsEvent)
        ensures
            final(self)@ == answered(old(self)@, event@),
    {
        let next = match (&self.phase, event) {
            (SettingsPhase::Opening, SettingsEvent::Done) => SettingsPhase::Sending,
            (SettingsPhase::Opening, SettingsEvent::Failed(why)) => {
                let mut s = explained("Failed to open serial port '", self.port.as_str());
                s.append("': ");
                s.append(why.as_str());
                SettingsPhase::Finished(Err(s))
            },
            (SettingsPhase::Sending, SettingsEvent::Done) => SettingsPhase::Flushing,
            (SettingsPhase::Sending, SettingsEvent::Failed(why)) => SettingsPhase::Finished(
                Err(explained("Failed to send settings request: ", why.as_str())),
            ),
            (SettingsPhase::Flushing, SettingsEvent::Done) => SettingsPhase::Receiving,
            (SettingsPhase::Flushing, SettingsEvent::Failed(why)) => SettingsPhase::Finished(
                Err(explained("Failed to flush: ", why.as_str())),
            ),
            (SettingsPhase::Receiving, SettingsEvent::TimedOut) => SettingsPhase::Finished(
                Err("Timeout waiting for settings response from device".to_string()),
            ),
            (SettingsPhase::Receiving, SettingsEvent::Failed(why)) => SettingsPhase::Finished(
                Err(explained("Failed to read frame: ", why.as_str())),
            ),
            (SettingsPhase::Receiving, SettingsEvent::Frame(addr, payload)) => {
                if addr != self.device_type.settings_mux_addr() {
                    return ;
                }
                let (chunk, held) = bring(&self.held, payload.as_slice());
                self.json_buf.append(chunk.as_str());
                self.held = held;
                if reply_is_complete(self.json_buf.as_str()) {
                    SettingsPhase::Finished(Ok(self.json_buf.clone()))
                } else {
                    SettingsPhase::Receiving
                }
            },
            _ => {
                return ;
            },
        };
        self.phase = next;
    }
}

// ---------------------------------------------------------------------------
// Whole replies
// ---------------------------------------------------------------------------

/// A frame: channel and payload.
pub type Frame = (u8, Seq<u8>);

/// The bytes that the frames `fs` bring on the channel `addr`.
pub open spec fn received(addr: u8, fs: Seq<Frame>) -> Seq<u8>
    decreases fs.len(),
{
    if fs.len() == 0 {
        Seq::empty()
    } else if fs.last().0 == addr {
        received(addr, fs.drop_last()) + fs.last().1
    } else {
        received(addr, fs.drop_last())
    }
}

/// The read after the frames `fs` came in, one after the other.
pub open spec fn after_frames(v: ReadView, fs: Seq<Frame>) -> ReadView
    decreases fs.len(),
{
    if fs.len() == 0 {
        v
    } else {
        answered(after_frames(v, fs.drop_last()), Event::Frame(fs.last().0, fs.last().1))
    }
}

/// `s` is complete, and no start of it is.
pub open spec fn complete_at_its_end(s: Seq<char>) -> bool {
    complete(s) && forall|n: int| 0 <= n < s.len() ==> !complete(#[trigger] s.take(n))
}

/// A frame of another channel changes nothing.
pub proof fn law_other_channels_are_ignored(v: ReadView, addr: u8, payload: Seq<u8>)
    requires
        addr != settings_channel(v.device_type),
    ensures
        answered(v, Event::Frame(addr, payload)) == v,
{
}

/// What was finished stays as it is.
pub proof fn law_finished_read_stays(v: ReadView, e: Event)
    requires
        v.phase is Finished,
    ensures
        answered(v, e) == v,
{
}

/// While the read goes on, what has come in is not complete; a reply that it finishes with
/// is complete, and is all that has come in.
pub open spec fn reply_in_order(v: ReadView) -> bool {
    match v.phase {
        ReadPhase::Finished(Ok(text)) => complete(text) && text == v.text,
        ReadPhase::Finished(Err(_)) => true,
        _ => !complete(v.text),
    }
}

/// A read begins in order, and stays so whatever the answers are: only a complete reply is
/// handed out, and as soon as it is there.
pub proof fn law_reply_stays_in_order(v: ReadView, e: Event)
    ensures
        v.phase is Opening && v.text == Seq::<char>::empty() ==> reply_in_order(v),
        reply_in_order(v) ==> reply_in_order(answered(v, e)),
{
}

/// The first frames bring the first bytes.
proof fn lemma_received_grows(addr: u8, fs: Seq<Frame>, k: int)
    requires
        0 <= k <= fs.len(),
    ensures
        received(addr, fs.take(k)).is_prefix_of(received(addr, fs)),
    decreases fs.len(),
{
    if k == fs.len() {
        assert(fs.take(k) =~= fs);
    } else {
        lemma_received_grows(addr, fs.drop_last(), k);
        assert(fs.drop_last().take(k) =~= fs.take(k));
    }
}

/// The read while the reply comes in: its text and what it holds back are the bytes that
/// were received.
proof fn lemma_partial_reply(v: ReadView, fs: Seq<Frame>, whole: Seq<char>, k: int)
    requires
        v.phase == ReadPhase::Receiving,
        v.text == Seq::<char>::empty(),
        v.held == Seq::<u8>::empty(),
        complete_at_its_end(whole),
        received(settings_channel(v.device_type), fs) == encode_utf8(whole),
        fs.len() > 0,
        fs.last().0 == settings_channel(v.device_type),
        fs.last().1.len() > 0,
        0 <= k <= fs.len(),
    ensures
        ({
            let now = after_frames(v, fs.take(k));
            &&& encode_utf8(now.text) + now.held == received(
                settings_channel(v.device_type),
                fs.take(k),
            )
            &&& now.device_type == v.device_type
            &&& k < fs.len() ==> now.phase == ReadPhase::Receiving
            &&& k == fs.len() ==> now.phase == ReadPhase::Finished(Ok(whole))
        }),
    decreases k,
{
    let addr = settings_channel(v.device_type);
    let bytes = received(addr, fs.take(k));
    let all = encode_utf8(whole);
    if k == 0 {
        assert(encode_utf8(v.text) + v.held =~= Seq::<u8>::empty());
    } else {
        lemma_partial_reply(v, fs, whole, k - 1);
        let before = after_frames(v, fs.take(k - 1));
        let now = after_frames(v, fs.take(k));
        assert(fs.take(k).drop_last() =~= fs.take(k - 1));
        assert(fs.take(k).last() == fs[k - 1]);
        lemma_received_grows(addr, fs, k);
        law_encoded_text_is_taken(whole);
        let to_come = all.skip(bytes.len() as int);
        assert(bytes + to_come =~= all);
        law_start_is_taken(bytes, to_come);
        let (chars, tail) = taken(bytes)->0;
        if fs[k - 1].0 == addr {
            let joint = before.held + fs[k - 1].1;
            assert(bytes =~= encode_utf8(before.text) + joint);
            law_encoded_text_is_taken(before.text);
            law_cuts_do_not_matter(encode_utf8(before.text), joint);
            assert(Seq::<u8>::empty() + joint =~= joint);
            law_whole_text_is_taken(joint);
            assert(taken(joint) is Some);
            let (more, rest) = taken(joint)->0;
            assert(chars == before.text + more && tail == rest);
            if valid_utf8(joint) {
                assert(now.text == chars);
                assert(encode_utf8(now.text) + now.held =~= bytes);
            } else {
                assert(before.text + Seq::<char>::empty() =~= before.text);
                assert(now.text == before.text);
            }
        } else {
            law_encoded_text_is_taken(before.text);
            law_cuts_do_not_matter(encode_utf8(before.text), before.held);
            assert(Seq::<u8>::empty() + before.held =~= before.held);
        }
        assert(now.text.is_prefix_of(chars));
        if k < fs.len() {
            lemma_received_grows(addr, fs.drop_last(), k);
            assert(fs.drop_last().take(k) =~= fs.take(k));
            assert(bytes.len() < all.len());
            assert(now.text.len() < whole.len()) by {
                if now.text.len() >= whole.len() {
                    assert(now.text =~= whole);
                }
            }
            assert(now.text =~= whole.take(now.text.len() as int));
            assert(!complete(now.text));
        } else {
            assert(fs.take(k) =~= fs);
        }
    }
}

/// A reply that is complete at its end, and whose UTF-8 bytes come in frames of the
/// settings channel, cut anywhere and with frames of other channels between them, is what
/// the read finishes with: at the last frame that brings bytes of it, and not before.
pub proof fn law_reply_is_reassembled(v: ReadView, fs: Seq<Frame>, whole: Seq<char>)
    requires
        v.phase == ReadPhase::Receiving,
        v.text == Seq::<char>::empty(),
        v.held == Seq::<u8>::empty(),
        complete_at_its_end(whole),
        received(settings_channel(v.device_type), fs) == encode_utf8(whole),
        fs.len() > 0,
        fs.last().0 == settings_channel(v.device_type),
        fs.last().1.len() > 0,
    ensures
        after_frames(v, fs).phase == ReadPhase::Finished(Ok(whole)),
        forall|k: int|
            0 <= k < fs.len() ==> (#[trigger] after_frames(v, fs.take(k))).phase
                == ReadPhase::Receiving,
{
    lemma_partial_reply(v, fs, whole, fs.len() as int);
    assert(fs.take(fs.len() as int) =~= fs);
    assert forall|k: int| 0 <= k < fs.len() implies (#[trigger] after_frames(v, fs.take(k))).phase
        == ReadPhase::Receiving by {
        lemma_partial_reply(v, fs, whole, k);
    }
}

// ---------------------------------------------------------------------------
// Damaged replies
// ---------------------------------------------------------------------------

/// The text of a payload by itself: none, where it is not valid UTF-8.
pub open spec fn chunk_text(payload: Seq<u8>) -> Seq<char> {
    if valid_utf8(payload) {
        decode_utf8(payload)
    } else {
        Seq::empty()
    }
}

/// The text that the frames `fs` bring on the channel `addr`, each by itself.
pub open spec fn gathered(addr: u8, fs: Seq<Frame>) -> Seq<char>
    decreases fs.len(),
{
    if fs.len() == 0 {
        Seq::empty()
    } else if fs.last().0 == addr {
        gathered(addr, fs.drop_last()) + chunk_text(fs.last().1)
    } else {
        gathered(addr, fs.drop_last())
    }
}

/// No payload of the channel `addr` that is not valid UTF-8 becomes so by those before and
/// after it: no cut character is completed.
pub open spec fn no_cut_is_completed(addr: u8, fs: Seq<Frame>) -> bool {
    forall|i: int, j: int, k: int|
        0 <= i <= k < j <= fs.len() && fs[k].0 == addr && valid_utf8(
            #[trigger] received(addr, fs.subrange(i, j)),
        ) ==> valid_utf8((#[trigger] fs[k]).1)
}

/// A payload that is not valid UTF-8, and does not become so with what is held back, leaves
/// the text as it is, and the read goes on.
pub proof fn law_invalid_payload_brings_no_text(v: ReadView, payload: Seq<u8>)
    requires
        v.phase == ReadPhase::Receiving,
        reply_in_order(v),
        !valid_utf8(payload),
        !valid_utf8(v.held + payload),
    ensures
        ({
            let now = answered(v, Event::Frame(settings_channel(v.device_type), payload));
            now == (ReadView { held: now.held, ..v })
        }),
{
    assert(v.text + Seq::<char>::empty() =~= v.text);
}

/// A payload that is not valid UTF-8, and that neither what is held back nor the next
/// payload completes, is forgotten with the next one: it is as if it had never come.
pub proof fn law_uncompleted_payload_is_forgotten(v: ReadView, payload: Seq<u8>, next: Seq<u8>)
    requires
        v.phase == ReadPhase::Receiving,
        reply_in_order(v),
        !valid_utf8(payload),
        !valid_utf8(v.held + payload),
        taken(v.held + next) is None || v.held.len() == 0,
        taken(v.held + payload + next) is None,
        taken(payload + next) is None,
    ensures
        ({
            let addr = settings_channel(v.device_type);
            answered(answered(v, Event::Frame(addr, payload)), Event::Frame(addr, next))
                == answered(v, Event::Frame(addr, next))
        }),
{
    law_invalid_payload_brings_no_text(v, payload);
    law_whole_text_is_taken(v.held + next);
    law_whole_text_is_taken(v.held + payload + next);
    law_whole_text_is_taken(payload + next);
    assert(Seq::<u8>::empty() + next =~= next);
    if v.held.len() == 0 {
        assert(v.held + next =~= next);
    }
}

/// Where every payload of the channel is valid UTF-8, so is what they bring together.
proof fn lemma_received_is_valid(addr: u8, fs: Seq<Frame>)
    requires
        forall|k: int| 0 <= k < fs.len() && fs[k].0 == addr ==> valid_utf8((#[trigger] fs[k]).1),
    ensures
        valid_utf8(received(addr, fs)),
    decreases fs.len(),
{
    if fs.len() > 0 {
        let before = fs.drop_last();
        assert forall|k: int| 0 <= k < before.len() && before[k].0 == addr implies valid_utf8(
            (#[trigger] before[k]).1,
        ) by {
            assert(before[k] == fs[k]);
        }
        lemma_received_is_valid(addr, before);
        if fs.last().0 == addr {
            assert(fs.last() == fs[fs.len() - 1]);
            valid_utf8_concat(received(addr, before), fs.last().1);
        }
    }
}

/// The read after frames of which no cut is completed. What is held back came with the
/// frames from the one returned on.
proof fn lemma_damaged_reply(v: ReadView, fs: Seq<Frame>) -> (since: int)
    requires
        v.phase == ReadPhase::Receiving,
        v.text == Seq::<char>::empty(),
        v.held == Seq::<u8>::empty(),
        no_cut_is_completed(settings_channel(v.device_type), fs),
        forall|k: int|
            0 <= k < fs.len() ==> !complete(
                #[trigger] gathered(settings_channel(v.device_type), fs.take(k)),
            ),
    ensures
        ({
            let text = gathered(settings_channel(v.device_type), fs);
            let now = after_frames(v, fs);
            &&& now.text == text
            &&& now.device_type == v.device_type
            &&& now.phase == (if complete(text) {
                ReadPhase::Finished(Ok(text))
            } else {
                ReadPhase::Receiving
            })
            &&& 0 <= since <= fs.len()
            &&& now.held == received(settings_channel(v.device_type), fs.subrange(since, fs.len() as int))
            &&& now.held.len() > 0 ==> !valid_utf8(now.held)
        }),
    decreases fs.len(),
{
    let addr = settings_channel(v.device_type);
    let n = fs.len() as int;
    if n == 0 {
        assert(fs.subrange(0, n) =~= fs);
        0
    } else {
        let before = fs.drop_last();
        assert forall|k: int| 0 <= k < before.len() implies !complete(
            #[trigger] gathered(addr, before.take(k)),
        ) by {
            assert(before.take(k) =~= fs.take(k));
        }
        assert forall|i: int, j: int, k: int|
            0 <= i <= k < j <= before.len() && before[k].0 == addr && valid_utf8(
                #[trigger] received(addr, before.subrange(i, j)),
            ) implies valid_utf8((#[trigger] before[k]).1) by {
            assert(before.subrange(i, j) =~= fs.subrange(i, j));
            assert(before[k] == fs[k]);
        }
        let start = lemma_damaged_reply(v, before);
        let was = after_frames(v, before);
        assert(fs.take(n - 1) =~= before);
        assert(!complete(gathered(addr, fs.take(n - 1))));
        let piece = fs.subrange(start, n);
        assert(piece.drop_last() =~= before.subrange(start, n - 1));
        assert(piece.last() == fs.last());
        if fs.last().0 != addr {
            start
        } else {
            let p = fs.last().1;
            let joint = was.held + p;
            assert(joint == received(addr, piece));
            let alone = fs.subrange(n - 1, n);
            assert(alone.drop_last() =~= Seq::<Frame>::empty());
            assert(received(addr, alone.drop_last()) =~= Seq::<u8>::empty());
            assert(alone.last() == fs.last());
            assert(received(addr, alone) =~= p);
            let none = fs.subrange(n, n);
            assert(none =~= Seq::<Frame>::empty());
            assert(was.text + Seq::<char>::empty() =~= was.text);
            law_whole_text_is_taken(joint);
            law_whole_text_is_taken(p);
            if was.held.len() == 0 {
                assert(joint =~= p);
            } else {
                if valid_utf8(joint) {
                    assert forall|k: int|
                        0 <= k < piece.drop_last().len() && piece.drop_last()[k].0
                            == addr implies valid_utf8((#[trigger] piece.drop_last()[k]).1) by {
                        assert(piece.drop_last()[k] == fs[start + k]);
                        assert(valid_utf8(received(addr, fs.subrange(start, n))));
                    }
                    lemma_received_is_valid(addr, piece.drop_last());
                }
                if valid_utf8(p) && p.len() > 0 {
                    law_whole_text_does_not_go_on(was.held, p);
                }
                if p.len() == 0 {
                    assert(joint =~= was.held);
                }
            }
            if after_frames(v, fs).held == joint && joint.len() > 0 {
                start
            } else if after_frames(v, fs).held == p && p.len() > 0 {
                n - 1
            } else {
                n
            }
        }
    }
}

/// Where no cut character is completed, a payload that is not valid UTF-8 counts as nothing:
/// the reply is the text of the payloads, each by itself, and is there with the frame that
/// completes it.
pub proof fn law_invalid_payload_counts_as_nothing(v: ReadView, fs: Seq<Frame>)
    requires
        v.phase == ReadPhase::Receiving,
        v.text == Seq::<char>::empty(),
        v.held == Seq::<u8>::empty(),
        no_cut_is_completed(settings_channel(v.device_type), fs),
        forall|k: int|
            0 <= k < fs.len() ==> !complete(
                #[trigger] gathered(settings_channel(v.device_type), fs.take(k)),
            ),
    ensures
        ({
            let text = gathered(settings_channel(v.device_type), fs);
            &&& after_frames(v, fs).text == text
            &&& after_frames(v, fs).phase == (if complete(text) {
                ReadPhase::Finished(Ok(text))
            } else {
                ReadPhase::Receiving
            })
        }),
{
    lemma_damaged_reply(v, fs);
}

// ---------------------------------------------------------------------------
// Step by step
// ---------------------------------------------------------------------------

/// The request is an empty JSON object on the settings channel of the device, and the port is
/// opened at the speed of the device, with four seconds to answer.
pub proof fn law_what_a_read_asks_for(v: ReadView, step: SettingsStep)
    requires
        is_read_step_of(step, v),
    ensures
        v.phase is Opening ==> (step matches SettingsStep::OpenPort {
            port,
            baud_rate,
            timeout_secs,
        } && port@ == v.port && baud_rate == line_speed(v.device_type) && timeout_secs == 4),
        v.phase is Sending ==> (step matches SettingsStep::Send(bytes) && bytes@ == seq![
            settings_channel(v.device_type),
            0x7Bu8,
            0x7D,
            0x0A,
        ]),
        v.phase is Flushing ==> step is Flush,
        v.phase is Receiving ==> (step matches SettingsStep::Receive { timeout_secs }
            && timeout_secs == 4),
        (v.phase matches ReadPhase::Finished(Ok(text)) ==> (step matches SettingsStep::Finish(Ok(s))
            && s@ == text)),
        (v.phase matches ReadPhase::Finished(Err(e)) ==> (step matches SettingsStep::Finish(Err(s))
            && s@ == e)),
{
    if v.phase is Sending {
        let data = seq![settings_channel(v.device_type)] + settings_request();
        law_plain_data_is_sent_as_it_is(data);
        assert(data.push(0x0A) =~= seq![settings_channel(v.device_type), 0x7Bu8, 0x7D, 0x0A]);
    }
}

/// A read opens the port, sends, flushes and then receives, each where the step before was
/// done. Only what it waits for takes it further, and nothing else about it changes.
pub proof fn law_how_a_read_goes_on(v: ReadView)
    ensures
        v.phase is Opening ==> answered(v, Event::Done) == (ReadView {
            phase: ReadPhase::Sending,
            ..v
        }),
        v.phase is Sending ==> answered(v, Event::Done) == (ReadView {
            phase: ReadPhase::Flushing,
            ..v
        }),
        v.phase is Flushing ==> answered(v, Event::Done) == (ReadView {
            phase: ReadPhase::Receiving,
            ..v
        }),
        v.phase is Receiving ==> answered(v, Event::Done) == v,
        !(v.phase is Receiving) ==> answered(v, Event::TimedOut) == v,
        forall|addr: u8, payload: Seq<u8>|
            !(v.phase is Receiving) ==> #[trigger] answered(v, Event::Frame(addr, payload)) == v,
{
}

/// A step that fails ends the read, with a report that says which step it was and why it
/// failed.
pub proof fn law_how_a_read_fails(v: ReadView, why: Seq<char>)
    ensures
        v.phase is Opening ==> answered(v, Event::Failed(why)) == (ReadView {
            phase: ReadPhase::Finished(
                Err("Failed to open serial port '"@ + v.port + "': "@ + why),
            ),
            ..v
        }),
        v.phase is Sending ==> answered(v, Event::Failed(why)) == (ReadView {
            phase: ReadPhase::Finished(Err("Failed to send settings request: "@ + why)),
            ..v
        }),
        v.phase is Flushing ==> answered(v, Event::Failed(why)) == (ReadView {
            phase: ReadPhase::Finished(Err("Failed to flush: "@ + why)),
            ..v
        }),
        v.phase is Receiving ==> answered(v, Event::Failed(why)) == (ReadView {
            phase: ReadPhase::Finished(Err("Failed to read frame: "@ + why)),
            ..v
        }),
        v.phase is Receiving ==> answered(v, Event::TimedOut) == (ReadView {
            phase: ReadPhase::Finished(
                Err("Timeout waiting for settings response from device"@),
            ),
            ..v
        }),
{
}

/// A frame of the settings channel adds its text to what came in before, and ends the read
/// with all of it where that is then complete. Otherwise the read goes on.
pub proof fn law_what_a_frame_does(v: ReadView, payload: Seq<u8>)
    requires
        v.phase is Receiving,
    ensures
        ({
            let now = answered(v, Event::Frame(settings_channel(v.device_type), payload));
            let text = v.text + brought(v.held, payload).0;
            &&& now.text == text
            &&& now.held == brought(v.held, payload).1
            &&& now.port == v.port
            &&& now.device_type == v.device_type
            &&& complete(text) ==> now.phase == ReadPhase::Finished(Ok(text))
            &&& !complete(text) ==> now.phase is Receiving
        }),
{
}

/// What a payload brings, by what is valid UTF-8 and what can still become so: the payload
/// with what was held back where that is valid; nothing yet where that can go on; the payload
/// by itself, or nothing yet, where what was held back does not go on; nothing at all else.
pub proof fn law_what_a_payload_brings(held: Seq<u8>, payload: Seq<u8>)
    ensures
        ({
            let all = held + payload;
            let all_goes_on = exists|rest: Seq<u8>| valid_utf8(#[trigger] (all + rest));
            let goes_on = exists|rest: Seq<u8>| valid_utf8(#[trigger] (payload + rest));
            let nothing = Seq::<char>::empty();
            let none = Seq::<u8>::empty();
            &&& valid_utf8(all) ==> brought(held, payload) == (decode_utf8(all), none)
            &&& !valid_utf8(all) && all_goes_on ==> brought(held, payload) == (nothing, all)
            &&& !all_goes_on && valid_utf8(payload) ==> brought(held, payload) == (
                decode_utf8(payload),
                none,
            )
            &&& !all_goes_on && !valid_utf8(payload) && goes_on ==> brought(held, payload) == (
                nothing,
                payload,
            )
            &&& !all_goes_on && !goes_on ==> brought(held, payload) == (nothing, none)
        }),
{
    let all = held + payload;
    law_bytes_that_can_go_on_are_taken(all);
    law_bytes_that_can_go_on_are_taken(payload);
    law_whole_text_is_taken(all);
    law_whole_text_is_taken(payload);
}

/// Payloads of plain text are put one after the other.
pub proof fn law_plain_payloads_are_joined(v: ReadView, text: Seq<char>)
    requires
        v.phase is Receiving,
        v.held == Seq::<u8>::empty(),
    ensures
        ({
            let now = answered(
                v,
                Event::Frame(settings_channel(v.device_type), encode_utf8(text)),
            );
            &&& now.text == v.text + text
            &&& now.held == Seq::<u8>::empty()
        }),
{
    encode_utf8_valid_utf8(text);
    encode_utf8_decode_utf8(text);
    assert(v.held + encode_utf8(text) =~= encode_utf8(text));
}

/// Answers and replies are taken for what they hold.
pub proof fn law_what_answers_hold(addr: u8, payload: Vec<u8>, why: String, text: String)
    ensures
        SettingsEvent::Done@ == Event::Done,
        SettingsEvent::TimedOut@ == Event::TimedOut,
        SettingsEvent::Failed(why)@ == Event::Failed(why@),
        SettingsEvent::Frame(addr, payload)@ == Event::Frame(addr, payload@),
        reply(Ok(text)) == Ok::<Seq<char>, Seq<char>>(text@),
        reply(Err(why)) == Err::<Seq<char>, Seq<char>>(why@),
{
}

} // verus!

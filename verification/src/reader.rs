//! The receiving side of the serial pump: bytes from the device are gathered
//! into lines, each line is decoded and checked, and what the clients are to
//! see comes out.

use vstd::prelude::*;
use vstd::string::*;
use vstd::utf8::{decode_utf8, valid_utf8};
use crate::auth::{SessionState, SessionView};
use crate::protocol::{decode, decode_range, encode, lemma_decode_encode, MessageType,
    ProtocolMessage, RecordView};
use crate::text::{chars_of, find_char, first_index, is_first, lemma_first_index,
    lemma_first_index_found, string_of_range, trim, trim_range, utf8_text};

verus! {

/// The texts of a list of strings.
pub open spec fn texts(v: Seq<String>) -> Seq<Seq<char>> {
    Seq::new(v.len(), |i: int| v[i]@)
}

/// The record that reports a line that holds no record: an `ERR` whose data
/// is the line.
pub open spec fn invalid_record(text: Seq<char>) -> RecordView {
    RecordView { kind: MessageType::ERR, data: text, auth: Seq::empty() }
}

/// The record that reports a failed authentication.
pub open spec fn auth_failed() -> RecordView {
    RecordView { kind: MessageType::ERR, data: "Authentication failed"@, auth: Seq::empty() }
}

/// The record that tells the clients that a new handshake is due.
pub open spec fn rehandshake_needed() -> RecordView {
    RecordView { kind: MessageType::AUTH, data: "REHANDSHAKE_NEEDED"@, auth: Seq::empty() }
}

/// Whether the authentication of a received record is checked: it is for
/// every kind but `AUTH`, where the record carries one.
pub open spec fn is_checked(r: RecordView) -> bool {
    r.kind != MessageType::AUTH && r.auth.len() > 0
}

/// What is published for a decoded record, given how its check ended: the
/// record itself where it passed (or none was due); else one `ERR`, followed
/// by the `AUTH` event where a new handshake is due.
pub open spec fn routed(r: RecordView, auth_ok: bool, rehandshake: bool) -> Seq<Seq<char>> {
    if auth_ok {
        seq![encode(r)]
    } else if rehandshake {
        seq![encode(auth_failed()), encode(rehandshake_needed())]
    } else {
        seq![encode(auth_failed())]
    }
}

/// What one line gives: what is published, and the session after it.
pub open spec fn line_outcome(line: Seq<char>, key: Seq<char>, session: SessionView) -> (
    Seq<Seq<char>>,
    SessionView,
) {
    let text = trim(line);
    match decode(text) {
        None => (seq![encode(invalid_record(text))], session),
        Some(r) => if is_checked(r) {
            let receiving = session.directed(false);
            let ok = !receiving.exhausted() && r.auth == receiving.value(key);
            let after = if receiving.exhausted() {
                receiving
            } else {
                receiving.advanced()
            };
            (routed(r, ok, after.rehandshake_due()), after)
        } else {
            (seq![encode(r)], session)
        },
    }
}

/// What a buffer of text gives: what is published for its complete lines, in
/// order; the text after the last newline, which stays; and the session after
/// the last line.
pub open spec fn pump(buffer: Seq<char>, key: Seq<char>, session: SessionView) -> (
    Seq<Seq<char>>,
    Seq<char>,
    SessionView,
)
    decreases buffer.len(),
{
    match first_index(buffer, '\n') {
        Some(i) => if 0 <= i < buffer.len() {
            let first = line_outcome(buffer.subrange(0, i), key, session);
            let rest = pump(buffer.subrange(i + 1, buffer.len() as int), key, first.1);
            (first.0 + rest.0, rest.1, rest.2)
        } else {
            (Seq::empty(), buffer, session)
        },
        None => (Seq::empty(), buffer, session),
    }
}

/// The complete lines of a buffer of text, each without its newline and
/// without the white space around it, and the text after the last newline.
pub open spec fn lines_of(buffer: Seq<char>) -> (Seq<Seq<char>>, Seq<char>)
    decreases buffer.len(),
{
    match first_index(buffer, '\n') {
        Some(i) => if 0 <= i < buffer.len() {
            let rest = lines_of(buffer.subrange(i + 1, buffer.len() as int));
            (seq![trim(buffer.subrange(0, i))] + rest.0, rest.1)
        } else {
            (Seq::empty(), buffer)
        },
        None => (Seq::empty(), buffer),
    }
}

/// The text that a chunk of bytes adds to the buffer: what it encodes, or
/// nothing where it is not valid UTF-8.
pub open spec fn chunk_text(bytes: Seq<u8>) -> Seq<char> {
    if valid_utf8(bytes) {
        decode_utf8(bytes)
    } else {
        Seq::empty()
    }
}

/// What is published for a decoded record, given how its check ended.
pub fn route_record(message: &ProtocolMessage, auth_ok: bool, rehandshake: bool) -> (out: Vec<
    String,
>)
    ensures
        texts(out@) == routed(message@, auth_ok, rehandshake),
{
    let mut out: Vec<String> = Vec::new();
    proof {
        reveal_strlit("");
    }
    if auth_ok {
        out.push(message.to_string());
    } else {
        let failed = ProtocolMessage::new(MessageType::ERR, "Authentication failed", "");
        assert(failed@.auth =~= Seq::<char>::empty());
        out.push(failed.to_string());
        if rehandshake {
            let needed = ProtocolMessage::new(MessageType::AUTH, "REHANDSHAKE_NEEDED", "");
            assert(needed@.auth =~= Seq::<char>::empty());
            out.push(needed.to_string());
        }
    }
    assert(texts(out@) =~= routed(message@, auth_ok, rehandshake));
    out
}

/// Handles the line `buffer[lo..hi]`: trims it, decodes it, checks its
/// authentication where one is due, and returns what is to be published.
pub fn process_line(
    buffer: &Vec<char>,
    lo: usize,
    hi: usize,
    secret_key: &str,
    session: &mut SessionState,
) -> (out: Vec<String>)
    requires
        lo <= hi <= buffer.len(),
    ensures
        (texts(out@), final(session)@) == line_outcome(
            buffer@.subrange(lo as int, hi as int),
            secret_key@,
            old(session)@,
        ),
{
    let (a, b) = trim_range(buffer, lo, hi);
    match decode_range(buffer, a, b) {
        None => {
            let raw = string_of_range(buffer, a, b);
            proof {
                reveal_strlit("");
            }
            let err = ProtocolMessage::new(MessageType::ERR, raw.as_str(), "");
            assert(err@.auth =~= Seq::<char>::empty());
            let mut out: Vec<String> = Vec::new();
            out.push(err.to_string());
            assert(texts(out@) =~= seq![encode(invalid_record(raw@))]);
            out
        },
        Some(message) => {
            if message.message_type != MessageType::AUTH && !message.auth.as_str().is_empty() {
                let ok = session.for_receiving().try_validate_hash(
                    secret_key,
                    message.auth.as_str(),
                );
                let rehandshake = session.needs_rehandshake();
                route_record(&message, ok, rehandshake)
            } else {
                let mut out: Vec<String> = Vec::new();
                out.push(message.to_string());
                assert(texts(out@) =~= seq![encode(message@)]);
                out
            }
        },
    }
}

/// The text that was read from the device and has not made a line yet.
#[derive(Debug)]
pub struct ReaderState {
    buffer: Vec<char>,
}

impl View for ReaderState {
    type V = Seq<char>;

    closed spec fn view(&self) -> Seq<char> {
        self.buffer@
    }
}

/// What a read from the device gave.
#[derive(Debug)]
pub enum ReadEvent {
    /// The bytes that were read; none where the read returned nothing.
    Data(Vec<u8>),
    /// The read timed out.
    TimedOut,
    /// The read failed otherwise.
    Failed,
}

/// What the pump does after a read.
#[derive(Debug)]
pub struct ReaderStep {
    /// What goes to the broadcast topic, in order.
    pub broadcasts: Vec<String>,
    /// How many milliseconds to wait before the next read.
    pub pause_ms: u64,
    /// Whether the failure of the read is to be logged.
    pub report: bool,
}

/// The wait after an event: none after data, 10 ms after an empty or timed
/// out read, 100 ms after a failure.
pub open spec fn pause_after(event: ReadEvent) -> int {
    match event {
        ReadEvent::Data(bytes) => if bytes@.len() > 0 {
            0
        } else {
            10
        },
        ReadEvent::TimedOut => 10,
        ReadEvent::Failed => 100,
    }
}

impl ReaderState {
    /// A reader that has seen nothing.
    pub fn new() -> (r: Self)
        ensures
            r@ == Seq::<char>::empty(),
    {
        ReaderState { buffer: Vec::new() }
    }

    /// The text that waits for its newline.
    pub fn pending(&self) -> (s: String)
        ensures
            s@ == self@,
    {
        assert(self.buffer@.subrange(0, self.buffer@.len() as int) =~= self.buffer@);
        string_of_range(&self.buffer, 0, self.buffer.len())
    }

    /// Adds `text` to the buffer and takes every complete line out of it.
    pub fn take_lines(&mut self, text: &str) -> (out: Vec<String>)
        ensures
            (texts(out@), final(self)@) == lines_of(old(self)@ + text@),
    {
        let mut added = chars_of(text);
        self.buffer.append(&mut added);
        let ghost all = self.buffer@;
        let len = self.buffer.len();
        let mut out: Vec<String> = Vec::new();
        let mut pos: usize = 0;
        assert(all.subrange(0, len as int) =~= all);
        assert(texts(out@) + lines_of(all).0 =~= lines_of(all).0);
        let mut next = find_char(&self.buffer, pos, len, '\n');
        while next.is_some()
            invariant
                pos <= len,
                len == self.buffer.len(),
                self.buffer@ == all,
                match next {
                    Some(i) => first_index(all.subrange(pos as int, len as int), '\n') == Some(
                        i as int,
                    ),
                    None => first_index(all.subrange(pos as int, len as int), '\n') is None,
                },
                lines_of(all).0 == texts(out@) + lines_of(all.subrange(pos as int, len as int)).0,
                lines_of(all).1 == lines_of(all.subrange(pos as int, len as int)).1,
            decreases len - pos,
        {
            let i = next.unwrap();
            let ghost rest = all.subrange(pos as int, len as int);
            let ghost seen = texts(out@);
            proof {
                lemma_first_index(rest, '\n');
                assert(rest.subrange(0, i as int) =~= all.subrange(pos as int, pos + i));
                assert(rest.subrange(i + 1, rest.len() as int) =~= all.subrange(
                    pos + i + 1,
                    len as int,
                ));
            }
            let (a, b) = trim_range(&self.buffer, pos, pos + i);
            let line = string_of_range(&self.buffer, a, b);
            out.push(line);
            assert(texts(out@) =~= seen + seq![line@]);
            pos = pos + i + 1;
            proof {
                let tail = lines_of(all.subrange(pos as int, len as int));
                assert(lines_of(rest).0 == seq![line@] + tail.0);
                assert(seen + (seq![line@] + tail.0) =~= (seen + seq![line@]) + tail.0);
            }
            next = find_char(&self.buffer, pos, len, '\n');
        }
        assert(texts(out@) + Seq::<Seq<char>>::empty() =~= texts(out@));
        let rest = self.buffer.split_off(pos);
        self.buffer = rest;
        out
    }

    /// Adds `text` to the buffer and handles every complete line in it.
    pub fn feed(&mut self, text: &str, secret_key: &str, session: &mut SessionState) -> (out: Vec<
        String,
    >)
        ensures
            (texts(out@), final(self)@, final(session)@) == pump(
                old(self)@ + text@,
                secret_key@,
                old(session)@,
            ),
    {
        let mut added = chars_of(text);
        self.buffer.append(&mut added);
        let ghost all = self.buffer@;
        let ghost key = secret_key@;
        let ghost start = session@;
        let len = self.buffer.len();
        let mut out: Vec<String> = Vec::new();
        let mut pos: usize = 0;
        assert(all.subrange(0, len as int) =~= all);
        assert(texts(out@) + pump(all, key, start).0 =~= pump(all, key, start).0);
        let mut next = find_char(&self.buffer, pos, len, '\n');
        while next.is_some()
            invariant
                pos <= len,
                len == self.buffer.len(),
                self.buffer@ == all,
                key == secret_key@,
                match next {
                    Some(i) => first_index(all.subrange(pos as int, len as int), '\n') == Some(
                        i as int,
                    ),
                    None => first_index(all.subrange(pos as int, len as int), '\n') is None,
                },
                pump(all, key, start).0 == texts(out@) + pump(
                    all.subrange(pos as int, len as int),
                    key,
                    session@,
                ).0,
                pump(all, key, start).1 == pump(
                    all.subrange(pos as int, len as int),
                    key,
                    session@,
                ).1,
                pump(all, key, start).2 == pump(
                    all.subrange(pos as int, len as int),
                    key,
                    session@,
                ).2,
            decreases len - pos,
        {
            let i = next.unwrap();
            let ghost rest = all.subrange(pos as int, len as int);
            let ghost before = session@;
            let ghost seen = texts(out@);
            proof {
                lemma_first_index(rest, '\n');
                assert(rest.subrange(0, i as int) =~= all.subrange(pos as int, pos + i));
                assert(rest.subrange(i + 1, rest.len() as int) =~= all.subrange(
                    pos + i + 1,
                    len as int,
                ));
            }
            let mut line_out = process_line(&self.buffer, pos, pos + i, secret_key, session);
            let ghost first = texts(line_out@);
            out.append(&mut line_out);
            assert(texts(out@) =~= seen + first);
            pos = pos + i + 1;
            proof {
                let tail = pump(all.subrange(pos as int, len as int), key, session@);
                assert(pump(rest, key, before).0 == first + tail.0);
                assert(seen + (first + tail.0) =~= (seen + first) + tail.0);
            }
            next = find_char(&self.buffer, pos, len, '\n');
        }
        assert(texts(out@) + Seq::<Seq<char>>::empty() =~= texts(out@));
        let rest = self.buffer.split_off(pos);
        self.buffer = rest;
        out
    }
}

/// One turn of the receiving pump. Bytes that were read are added to the
/// buffer as text (a chunk that is not valid UTF-8 is dropped), and every
/// complete line is handled; the next read follows at once. After an empty or
/// timed out read nothing changes and the pump waits briefly; after a failed
/// read nothing changes either, the failure is reported and the pump waits
/// longer.
pub fn process_serial_data_with_broadcast(
    state: &mut ReaderState,
    session: &mut SessionState,
    secret_key: &str,
    event: ReadEvent,
) -> (step: ReaderStep)
    ensures
        match event {
            ReadEvent::Data(bytes) if bytes@.len() > 0 => (
                texts(step.broadcasts@),
                final(state)@,
                final(session)@,
            ) == pump(old(state)@ + chunk_text(bytes@), secret_key@, old(session)@),
            _ => {
                &&& step.broadcasts@.len() == 0
                &&& final(state)@ == old(state)@
                &&& final(session)@ == old(session)@
            },
        },
        step.pause_ms == pause_after(event),
        step.report == (event is Failed),
{
    match event {
        ReadEvent::Data(bytes) => {
            if bytes.len() > 0 {
                let broadcasts = match utf8_text(bytes) {
                    Some(text) => state.feed(text.as_str(), secret_key, session),
                    None => {
                        proof {
                            reveal_strlit("");
                        }
                        assert(state@ + ""@ =~= state@ + Seq::<char>::empty());
                        state.feed("", secret_key, session)
                    },
                };
                ReaderStep { broadcasts, pause_ms: 0, report: false }
            } else {
                ReaderStep { broadcasts: Vec::new(), pause_ms: 10, report: false }
            }
        },
        ReadEvent::TimedOut => ReaderStep { broadcasts: Vec::new(), pause_ms: 10, report: false },
        ReadEvent::Failed => ReaderStep { broadcasts: Vec::new(), pause_ms: 100, report: true },
    }
}

/// A record that fails its check is not published. For a line that holds a
/// record whose authentication is checked and does not pass, exactly one `ERR`
/// record comes out, followed by the `AUTH` event exactly where a new
/// handshake is due after the check; nothing that comes out is the text of
/// the record.
pub proof fn lemma_rejected_not_forwarded(
    line: Seq<char>,
    key: Seq<char>,
    session: SessionView,
    r: RecordView,
)
    requires
        decode(trim(line)) == Some(r),
        is_checked(r),
        session.exhausted() || r.auth != session.value(key),
    ensures
        ({
            let out = line_outcome(line, key, session).0;
            let after = line_outcome(line, key, session).1;
            &&& 1 <= out.len() <= 2
            &&& decode(out[0]) == Some(auth_failed())
            &&& out.len() == 2 <==> after.rehandshake_due()
            &&& out.len() == 2 ==> decode(out[1]) == Some(rehandshake_needed())
            &&& forall|i: int| 0 <= i < out.len() ==> out[i] != encode(r)
        }),
{
    reveal_strlit("Authentication failed");
    reveal_strlit("REHANDSHAKE_NEEDED");
    let failed = auth_failed();
    let needed = rehandshake_needed();
    assert(!failed.data.contains('|')) by {
        assert forall|j: int| 0 <= j < failed.data.len() implies failed.data[j] != '|' by {}
    }
    assert(!needed.data.contains('|')) by {
        assert forall|j: int| 0 <= j < needed.data.len() implies needed.data[j] != '|' by {}
    }
    lemma_decode_encode(failed);
    lemma_decode_encode(needed);
    let text = encode(r);
    let head = r.kind.text() + seq!['_'] + r.data;
    assert(text[head.len() as int] == '|');
    assert(text[0] == r.kind.text()[0]);
    assert(text[1] == r.kind.text()[1]);
    let e = encode(failed);
    assert forall|j: int| 0 <= j < e.len() implies e[j] != '|' by {
        if j >= 4 {
            assert(e[j] == failed.data[j - 4]);
        }
    }
    assert(e != text);
    let a = encode(needed);
    assert(a[0] == 'A' && a[1] == 'U');
    assert(a != text);
}

/// It does not matter how the text is cut into reads. Feeding `a` and then
/// `b` publishes what feeding `a + b` at once publishes, and leaves the same
/// text and the same session behind: a record that is split across two reads
/// comes out once, when its newline has arrived.
pub proof fn lemma_pump_in_parts(a: Seq<char>, b: Seq<char>, key: Seq<char>, session: SessionView)
    ensures
        ({
            let first = pump(a, key, session);
            let second = pump(first.1 + b, key, first.2);
            pump(a + b, key, session) == (first.0 + second.0, second.1, second.2)
        }),
    decreases a.len(),
{
    let first = pump(a, key, session);
    let second = pump(first.1 + b, key, first.2);
    lemma_first_index(a, '\n');
    match first_index(a, '\n') {
        None => {
            assert(first.0 + second.0 =~= second.0);
        },
        Some(i) => {
            let whole = a + b;
            assert(is_first(whole, '\n', i));
            lemma_first_index_found(whole, '\n', i);
            assert(whole.subrange(0, i) =~= a.subrange(0, i));
            let rest = a.subrange(i + 1, a.len() as int);
            assert(whole.subrange(i + 1, whole.len() as int) =~= rest + b);
            let line = line_outcome(a.subrange(0, i), key, session);
            lemma_pump_in_parts(rest, b, key, line.1);
            let inner = pump(rest, key, line.1);
            assert(line.0 + (inner.0 + second.0) =~= (line.0 + inner.0) + second.0);
        },
    }
}

/// What stays in the buffer holds no newline: every complete line is handled.
pub proof fn lemma_pump_leaves_no_line(buffer: Seq<char>, key: Seq<char>, session: SessionView)
    ensures
        first_index(pump(buffer, key, session).1, '\n') is None,
    decreases buffer.len(),
{
    lemma_first_index(buffer, '\n');
    match first_index(buffer, '\n') {
        None => {},
        Some(i) => {
            let line = line_outcome(buffer.subrange(0, i), key, session);
            lemma_pump_leaves_no_line(buffer.subrange(i + 1, buffer.len() as int), key, line.1);
        },
    }
}

/// What the pump does to a session: the counter never moves back, the step
/// and the limit stay, and a handshake that was due stays due.
pub proof fn lemma_pump_moves_forward(buffer: Seq<char>, key: Seq<char>, session: SessionView)
    requires
        session.wf(),
    ensures
        ({
            let after = pump(buffer, key, session).2;
            &&& after.wf()
            &&& after.init >= session.init
            &&& after.step == session.step
            &&& after.limit == session.limit
            &&& session.rehandshake_due() ==> after.rehandshake_due()
        }),
    decreases buffer.len(),
{
    lemma_first_index(buffer, '\n');
    match first_index(buffer, '\n') {
        None => {},
        Some(i) => {
            let line = line_outcome(buffer.subrange(0, i), key, session);
            lemma_pump_moves_forward(buffer.subrange(i + 1, buffer.len() as int), key, line.1);
        },
    }
}

} // verus!

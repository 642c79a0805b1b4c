//! Watching the device for card hashes, and sorting its acknowledgements.

use vstd::prelude::*;
use vstd::string::*;
use crate::reader::{chunk_text, lines_of, texts, ReadEvent, ReaderState};
use crate::text::{chars_of, find_char, first_index, lemma_first_index, range_equals,
    string_of_range, utf8_text};

verus! {

/// Whether `c` is a hexadecimal digit, in either case.
pub open spec fn is_hex_char(c: char) -> bool {
    let n = c as u32;
    ||| 0x30 <= n <= 0x39
    ||| 0x41 <= n <= 0x46
    ||| 0x61 <= n <= 0x66
}

/// Whether `line` is a complete hash: 64 hexadecimal digits.
pub open spec fn is_hash_text(line: Seq<char>) -> bool {
    line.len() == 64 && forall|i: int| 0 <= i < line.len() ==> is_hex_char(#[trigger] line[i])
}

/// Whether `line` is a complete hash: 64 hexadecimal digits.
pub fn is_complete_hash(line: &str) -> (b: bool)
    ensures
        b == is_hash_text(line@),
{
    let v = chars_of(line);
    if v.len() != 64 {
        return false;
    }
    let mut i: usize = 0;
    while i < v.len()
        invariant
            i <= v.len(),
            v@ == line@,
            v.len() == 64,
            forall|j: int| 0 <= j < i ==> is_hex_char(#[trigger] v@[j]),
        decreases v.len() - i,
    {
        let n: u32 = v[i] as u32;
        let hex = (0x30 <= n && n <= 0x39) || (0x41 <= n && n <= 0x46) || (0x61 <= n && n <= 0x66);
        if !hex {
            return false;
        }
        i += 1;
    }
    true
}

/// A line that the monitor read.
#[derive(Debug)]
pub struct MonitorLine {
    /// The line, without the white space around it.
    pub text: String,
    /// Whether the line is a complete hash.
    pub complete_hash: bool,
}

/// What the monitor does after a read.
#[derive(Debug)]
pub struct MonitorStep {
    /// The lines that were completed by this read, in order.
    pub lines: Vec<MonitorLine>,
    /// How many milliseconds to wait before the next read.
    pub pause_ms: u64,
    /// Whether the monitor ends with the failure of the read.
    pub give_up: bool,
}

/// How long the line may stay silent before a failed read ends the monitor:
/// five minutes, in seconds.
pub const SILENCE_LIMIT_SECS: u64 = 300;

/// Whether `out` holds the given lines, each marked as a hash or not.
pub open spec fn marks(out: Seq<MonitorLine>, lines: Seq<Seq<char>>) -> bool {
    &&& out.len() == lines.len()
    &&& forall|i: int|
        0 <= i < out.len() ==> (#[trigger] out[i]).text@ == lines[i] && out[i].complete_hash
            == is_hash_text(lines[i])
}

fn mark_lines(lines: &Vec<String>) -> (out: Vec<MonitorLine>)
    ensures
        marks(out@, texts(lines@)),
{
    let mut out: Vec<MonitorLine> = Vec::new();
    let mut i: usize = 0;
    while i < lines.len()
        invariant
            i <= lines.len(),
            out.len() == i,
            forall|k: int|
                0 <= k < i ==> (#[trigger] out@[k]).text@ == lines@[k]@ && out@[k].complete_hash
                    == is_hash_text(lines@[k]@),
        decreases lines.len() - i,
    {
        let text = lines[i].clone();
        let complete_hash = is_complete_hash(text.as_str());
        out.push(MonitorLine { text, complete_hash });
        i += 1;
    }
    out
}

/// One turn of the monitor. Bytes that were read are added to the buffer as
/// text (a chunk that is not valid UTF-8 is dropped), and every line that is
/// complete comes out, marked as a hash or not; the next read follows at once.
/// After an empty or timed out read the monitor waits briefly. After a failed
/// read it waits longer, and ends if the line has been silent for more than
/// five minutes.
pub fn process_serial_data(state: &mut ReaderState, event: ReadEvent, silent_secs: u64) -> (step:
    MonitorStep)
    ensures
        match event {
            ReadEvent::Data(bytes) if bytes@.len() > 0 => {
                &&& marks(step.lines@, lines_of(old(state)@ + chunk_text(bytes@)).0)
                &&& final(state)@ == lines_of(old(state)@ + chunk_text(bytes@)).1
                &&& step.pause_ms == 0
                &&& !step.give_up
            },
            ReadEvent::Failed => {
                &&& step.lines@.len() == 0
                &&& final(state)@ == old(state)@
                &&& step.pause_ms == 100
                &&& step.give_up == (silent_secs > SILENCE_LIMIT_SECS)
            },
            _ => {
                &&& step.lines@.len() == 0
                &&& final(state)@ == old(state)@
                &&& step.pause_ms == 10
                &&& !step.give_up
            },
        },
{
    match event {
        ReadEvent::Data(bytes) => {
            if bytes.len() > 0 {
                let lines = match utf8_text(bytes) {
                    Some(text) => state.take_lines(text.as_str()),
                    None => {
                        proof {
                            reveal_strlit("");
                        }
                        assert(state@ + ""@ =~= state@ + Seq::<char>::empty());
                        state.take_lines("")
                    },
                };
                MonitorStep { lines: mark_lines(&lines), pause_ms: 0, give_up: false }
            } else {
                MonitorStep { lines: Vec::new(), pause_ms: 10, give_up: false }
            }
        },
        ReadEvent::TimedOut => MonitorStep { lines: Vec::new(), pause_ms: 10, give_up: false },
        ReadEvent::Failed => MonitorStep {
            lines: Vec::new(),
            pause_ms: 100,
            give_up: silent_secs > SILENCE_LIMIT_SECS,
        },
    }
}

/// The part of `s` with the number `k`, counted from 0, where `s` is cut at
/// every `_`; `None` where `s` has fewer parts.
pub open spec fn part(s: Seq<char>, k: nat) -> Option<Seq<char>>
    decreases k,
{
    match first_index(s, '_') {
        None => if k == 0 {
            Some(s)
        } else {
            None
        },
        Some(i) => if k == 0 {
            Some(s.subrange(0, i))
        } else {
            part(s.subrange(i + 1, s.len() as int), (k - 1) as nat)
        },
    }
}

/// What an acknowledgement is.
#[derive(Debug)]
pub enum AckOutcome {
    /// The message has no second part: it is no acknowledgement.
    Invalid,
    /// A command was acknowledged, with this status.
    Command(String),
    /// A status was reported, with these details.
    Status(String),
    /// A command or status acknowledgement without its third part.
    Incomplete,
    /// An acknowledgement of a type that is not known, with the type.
    Unknown(String),
}

/// An acknowledgement as a mathematical value.
pub enum AckView {
    Invalid,
    Command(Seq<char>),
    Status(Seq<char>),
    Incomplete,
    Unknown(Seq<char>),
}

impl View for AckOutcome {
    type V = AckView;

    open spec fn view(&self) -> AckView {
        match self {
            AckOutcome::Invalid => AckView::Invalid,
            AckOutcome::Command(s) => AckView::Command(s@),
            AckOutcome::Status(s) => AckView::Status(s@),
            AckOutcome::Incomplete => AckView::Incomplete,
            AckOutcome::Unknown(s) => AckView::Unknown(s@),
        }
    }
}

/// What the acknowledgement `message` is. Its second part is its type: for
/// `CMD` and `STATUS` the third part is what is acknowledged.
pub open spec fn ack_of(message: Seq<char>) -> AckView {
    match part(message, 1) {
        None => AckView::Invalid,
        Some(ack_type) => if ack_type == "CMD"@ {
            match part(message, 2) {
                Some(status) => AckView::Command(status),
                None => AckView::Incomplete,
            }
        } else if ack_type == "STATUS"@ {
            match part(message, 2) {
                Some(details) => AckView::Status(details),
                None => AckView::Incomplete,
            }
        } else {
            AckView::Unknown(ack_type)
        },
    }
}

/// Whether an acknowledgement goes to the clients: every one does but those
/// that are invalid or incomplete.
pub open spec fn is_forwarded(ack: AckView) -> bool {
    !(ack is Invalid) && !(ack is Incomplete)
}

impl AckOutcome {
    /// Whether the acknowledgement goes to the clients.
    pub fn forwarded(&self) -> (b: bool)
        ensures
            b == is_forwarded(self@),
    {
        match self {
            AckOutcome::Invalid => false,
            AckOutcome::Incomplete => false,
            _ => true,
        }
    }
}

/// Sorts an acknowledgement by its type.
pub fn process_ack_message(message: &str) -> (ack: AckOutcome)
    ensures
        ack@ == ack_of(message@),
{
    let v = chars_of(message);
    let n = v.len();
    let ghost s = v@;
    assert(s.subrange(0, n as int) =~= s);
    proof {
        reveal_with_fuel(part, 3);
    }
    let first = match find_char(&v, 0, n, '_') {
        None => {
            return AckOutcome::Invalid;
        },
        Some(i) => i,
    };
    let ghost rest1 = s.subrange(first + 1, n as int);
    proof {
        lemma_first_index(s, '_');
        lemma_first_index(rest1, '_');
    }
    let second = find_char(&v, first + 1, n, '_');
    let type_end = match second {
        Some(j) => first + 1 + j,
        None => n,
    };
    assert(part(s, 1) == Some(s.subrange(first + 1, type_end as int))) by {
        if second is Some {
            assert(rest1.subrange(0, second.unwrap() as int) =~= s.subrange(
                first + 1,
                type_end as int,
            ));
        }
    }
    let is_command = range_equals(&v, first + 1, type_end, "CMD");
    let is_status = range_equals(&v, first + 1, type_end, "STATUS");
    if is_command || is_status {
        match second {
            None => AckOutcome::Incomplete,
            Some(j) => {
                let start = type_end + 1;
                let ghost rest2 = s.subrange(start as int, n as int);
                assert(rest1.subrange(j + 1, rest1.len() as int) =~= rest2);
                proof {
                    lemma_first_index(rest2, '_');
                }
                let end = match find_char(&v, start, n, '_') {
                    Some(k) => start + k,
                    None => n,
                };
                assert(part(s, 2) == Some(s.subrange(start as int, end as int))) by {
                    if end < n {
                        assert(rest2.subrange(0, end - start) =~= s.subrange(
                            start as int,
                            end as int,
                        ));
                    }
                }
                let what = string_of_range(&v, start, end);
                if is_command {
                    AckOutcome::Command(what)
                } else {
                    AckOutcome::Status(what)
                }
            },
        }
    } else {
        AckOutcome::Unknown(string_of_range(&v, first + 1, type_end))
    }
}

} // verus!

//! The record codec: `KIND_data` with an optional `|auth` part.

use vstd::prelude::*;
use vstd::string::*;
use crate::text::{chars_of, find_char, first_index, is_first, lemma_first_index,
    lemma_first_index_absent, lemma_first_index_found, range_equals, string_of_range};

verus! {

/// The kind of a record.
#[derive(Debug, Clone, Copy, PartialEq, Eq, Structural)]
pub enum MessageType {
    /// Authentication message to verify identity.
    AUTH,
    /// Info message to transfer pure data.
    INFO,
    /// Error message to warn.
    ERR,
    /// Acknowledgment message to confirm.
    ACK,
    /// Missed message to warn about missing data.
    MISS,
    /// Command message to execute a specific action.
    CMD,
    /// Ok message to confirm success of a process.
    OK,
}

impl MessageType {
    /// The name of the kind as it stands at the start of a record.
    pub open spec fn text(self) -> Seq<char> {
        match self {
            MessageType::AUTH => seq!['A', 'U', 'T', 'H'],
            MessageType::INFO => seq!['I', 'N', 'F', 'O'],
            MessageType::ERR => seq!['E', 'R', 'R'],
            MessageType::ACK => seq!['A', 'C', 'K'],
            MessageType::MISS => seq!['M', 'I', 'S', 'S'],
            MessageType::CMD => seq!['C', 'M', 'D'],
            MessageType::OK => seq!['O', 'K'],
        }
    }

    /// The name of the kind, as a string.
    pub fn to_string(&self) -> (s: String)
        ensures
            s@ == self.text(),
    {
        proof {
            reveal_strlit("AUTH");
            reveal_strlit("INFO");
            reveal_strlit("ERR");
            reveal_strlit("ACK");
            reveal_strlit("MISS");
            reveal_strlit("CMD");
            reveal_strlit("OK");
        }
        let name = match self {
            MessageType::AUTH => "AUTH",
            MessageType::INFO => "INFO",
            MessageType::ERR => "ERR",
            MessageType::ACK => "ACK",
            MessageType::MISS => "MISS",
            MessageType::CMD => "CMD",
            MessageType::OK => "OK",
        };
        assert(name@ =~= self.text());
        String::from_str(name)
    }
}

/// The kind that `name` names, if it names one.
pub open spec fn kind_of(name: Seq<char>) -> Option<MessageType> {
    if name == MessageType::AUTH.text() {
        Some(MessageType::AUTH)
    } else if name == MessageType::INFO.text() {
        Some(MessageType::INFO)
    } else if name == MessageType::ERR.text() {
        Some(MessageType::ERR)
    } else if name == MessageType::ACK.text() {
        Some(MessageType::ACK)
    } else if name == MessageType::MISS.text() {
        Some(MessageType::MISS)
    } else if name == MessageType::CMD.text() {
        Some(MessageType::CMD)
    } else if name == MessageType::OK.text() {
        Some(MessageType::OK)
    } else {
        None
    }
}

/// A record as a mathematical value.
pub struct RecordView {
    pub kind: MessageType,
    pub data: Seq<char>,
    pub auth: Seq<char>,
}

/// One record of the line protocol.
#[derive(Debug, Clone)]
pub struct ProtocolMessage {
    pub message_type: MessageType,
    pub data: String,
    pub auth: String,
}

impl View for ProtocolMessage {
    type V = RecordView;

    open spec fn view(&self) -> RecordView {
        RecordView { kind: self.message_type, data: self.data@, auth: self.auth@ }
    }
}

/// The text of a record: `KIND_data`, followed by `|auth` where `auth` is not empty.
pub open spec fn encode(r: RecordView) -> Seq<char> {
    let head = r.kind.text() + seq!['_'] + r.data;
    if r.auth.len() == 0 {
        head
    } else {
        head + seq!['|'] + r.auth
    }
}

/// `t` without one leading byte-order mark.
pub open spec fn strip_bom(t: Seq<char>) -> Seq<char> {
    if t.len() > 0 && t[0] == '\u{feff}' {
        t.subrange(1, t.len() as int)
    } else {
        t
    }
}

/// `t` split at its first `|` into what stands before it and what stands
/// after it; without a `|` the second part is empty.
pub open spec fn split_auth(t: Seq<char>) -> (Seq<char>, Seq<char>) {
    match first_index(t, '|') {
        Some(i) => (t.subrange(0, i), t.subrange(i + 1, t.len() as int)),
        None => (t, Seq::empty()),
    }
}

/// The record that `text` holds, if it holds one: after a leading byte-order
/// mark is dropped, the text is split at its first `|`, and the part before it
/// at its first `_` into the name of a kind and the data.
pub open spec fn decode(text: Seq<char>) -> Option<RecordView> {
    let (base, auth) = split_auth(strip_bom(text));
    match first_index(base, '_') {
        None => None,
        Some(j) => match kind_of(base.subrange(0, j)) {
            None => None,
            Some(kind) => Some(
                RecordView { kind, data: base.subrange(j + 1, base.len() as int), auth },
            ),
        },
    }
}

/// The kind named by `v[lo..hi]`.
fn parse_kind(v: &Vec<char>, lo: usize, hi: usize) -> (r: Option<MessageType>)
    requires
        lo <= hi <= v.len(),
    ensures
        r == kind_of(v@.subrange(lo as int, hi as int)),
{
    proof {
        reveal_strlit("AUTH");
        reveal_strlit("INFO");
        reveal_strlit("ERR");
        reveal_strlit("ACK");
        reveal_strlit("MISS");
        reveal_strlit("CMD");
        reveal_strlit("OK");
        assert("AUTH"@ =~= MessageType::AUTH.text());
        assert("INFO"@ =~= MessageType::INFO.text());
        assert("ERR"@ =~= MessageType::ERR.text());
        assert("ACK"@ =~= MessageType::ACK.text());
        assert("MISS"@ =~= MessageType::MISS.text());
        assert("CMD"@ =~= MessageType::CMD.text());
        assert("OK"@ =~= MessageType::OK.text());
    }
    if range_equals(v, lo, hi, "AUTH") {
        Some(MessageType::AUTH)
    } else if range_equals(v, lo, hi, "INFO") {
        Some(MessageType::INFO)
    } else if range_equals(v, lo, hi, "ERR") {
        Some(MessageType::ERR)
    } else if range_equals(v, lo, hi, "ACK") {
        Some(MessageType::ACK)
    } else if range_equals(v, lo, hi, "MISS") {
        Some(MessageType::MISS)
    } else if range_equals(v, lo, hi, "CMD") {
        Some(MessageType::CMD)
    } else if range_equals(v, lo, hi, "OK") {
        Some(MessageType::OK)
    } else {
        None
    }
}

/// Decodes the record that `v[lo..hi]` holds.
pub fn decode_range(v: &Vec<char>, lo: usize, hi: usize) -> (r: Option<ProtocolMessage>)
    requires
        lo <= hi <= v.len(),
    ensures
        match r {
            Some(m) => decode(v@.subrange(lo as int, hi as int)) == Some(m@),
            None => decode(v@.subrange(lo as int, hi as int)) is None,
        },
{
    let ghost text = v@.subrange(lo as int, hi as int);
    let start: usize = if lo < hi && v[lo] == '\u{feff}' {
        lo + 1
    } else {
        lo
    };
    let ghost t = v@.subrange(start as int, hi as int);
    assert(t =~= strip_bom(text));
    let (base_end, auth): (usize, String) = match find_char(v, start, hi, '|') {
        Some(i) => (start + i, string_of_range(v, start + i + 1, hi)),
        None => (hi, String::new()),
    };
    let ghost base = v@.subrange(start as int, base_end as int);
    proof {
        lemma_first_index(t, '|');
        assert(base =~= split_auth(t).0);
        assert(auth@ =~= split_auth(t).1);
    }
    match find_char(v, start, base_end, '_') {
        None => None,
        Some(j) => {
            assert(base.subrange(0, j as int) =~= v@.subrange(start as int, start + j));
            assert(base.subrange(j + 1, base.len() as int) =~= v@.subrange(
                start + j + 1,
                base_end as int,
            )) by {
                lemma_first_index(base, '_');
            }
            proof {
                lemma_first_index(base, '_');
            }
            match parse_kind(v, start, start + j) {
                None => None,
                Some(kind) => {
                    let data = string_of_range(v, start + j + 1, base_end);
                    Some(ProtocolMessage { message_type: kind, data, auth })
                },
            }
        },
    }
}

impl ProtocolMessage {
    /// A record of the given kind, data and authentication text.
    pub fn new(message_type: MessageType, data: &str, auth: &str) -> (m: Self)
        ensures
            m@ == (RecordView { kind: message_type, data: data@, auth: auth@ }),
    {
        ProtocolMessage {
            message_type,
            data: String::from_str(data),
            auth: String::from_str(auth),
        }
    }

    /// The text of the record.
    pub fn to_string(&self) -> (s: String)
        ensures
            s@ == encode(self@),
    {
        let mut s = self.message_type.to_string();
        s.push('_');
        s.append(self.data.as_str());
        if !self.auth.as_str().is_empty() {
            s.push('|');
            s.append(self.auth.as_str());
        }
        assert(s@ =~= encode(self@));
        s
    }

    /// Decodes the record that `message` holds; `None` where it holds none.
    pub fn from_string(message: &str) -> (r: Option<Self>)
        ensures
            match r {
                Some(m) => decode(message@) == Some(m@),
                None => decode(message@) is None,
            },
    {
        let v = chars_of(message);
        assert(v@.subrange(0, v.len() as int) =~= message@);
        decode_range(&v, 0, v.len())
    }
}

/// Decoding the text of a record gives the record back, provided its data
/// holds no `|`: the first `|` of the text is then the one before `auth`, and
/// the first `_` the one after the kind.
pub proof fn lemma_decode_encode(r: RecordView)
    requires
        !r.data.contains('|'),
    ensures
        decode(encode(r)) == Some(r),
{
    let k = r.kind.text();
    let text = encode(r);
    let head = k + seq!['_'] + r.data;
    assert(strip_bom(text) == text);
    assert(forall|j: int| 0 <= j < k.len() ==> k[j] != '|' && k[j] != '_');
    assert forall|j: int| 0 <= j < head.len() implies head[j] != '|' by {
        if j > k.len() {
            assert(head[j] == r.data[j - k.len() - 1]);
            assert(r.data.contains(head[j]));
        }
    }
    if r.auth.len() == 0 {
        lemma_first_index_absent(text, '|');
        assert(split_auth(text).0 == head);
        assert(split_auth(text).1 =~= r.auth);
    } else {
        assert(is_first(text, '|', head.len() as int));
        lemma_first_index_found(text, '|', head.len() as int);
        assert(split_auth(text).0 =~= head);
        assert(split_auth(text).1 =~= r.auth);
    }
    assert(is_first(head, '_', k.len() as int));
    lemma_first_index_found(head, '_', k.len() as int);
    assert(head.subrange(0, k.len() as int) =~= k);
    assert(head.subrange(k.len() as int + 1, head.len() as int) =~= r.data);
    assert(kind_of(k) == Some(r.kind));
}

} // verus!

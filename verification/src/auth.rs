//! The rolling hash chain, the session that walks it, and the handshake that
//! starts a session.
//!
//! A session keeps one counter. Sending and receiving both move it: a hash
//! attached to an outgoing record advances the same chain that the next
//! incoming hash is checked against. The handshake is one-way: a request is
//! sent and no answer is awaited. Hashes are compared by plain equality, not
//! in constant time.

use vstd::prelude::*;
use vstd::string::*;
use vstd::utf8::encode_utf8;
use sha2::{Digest, Sha256};
use crate::config::AppConfig;
use crate::protocol::{encode, MessageType, ProtocolMessage, RecordView};
use crate::security::HashBuilder;
use crate::text::{decimal, push_decimal, same_text};

verus! {

/// The SHA-256 digest of `data`.
pub uninterp spec fn sha256(data: Seq<u8>) -> Seq<u8>;

/// Computes the SHA-256 digest of `data` with `sha2::Sha256::digest`. The
/// digest is a function of the bytes alone and is 32 bytes long.
#[verifier::external_body]
fn sha256_digest(data: &[u8]) -> (out: Vec<u8>)
    ensures
        out@ == sha256(data@),
        out@.len() == 32,
{
    Sha256::digest(data).to_vec()
}

/// The lower-case hexadecimal digit of `n`.
pub open spec fn hex_digit(n: int) -> char {
    if n == 0 {
        '0'
    } else if n == 1 {
        '1'
    } else if n == 2 {
        '2'
    } else if n == 3 {
        '3'
    } else if n == 4 {
        '4'
    } else if n == 5 {
        '5'
    } else if n == 6 {
        '6'
    } else if n == 7 {
        '7'
    } else if n == 8 {
        '8'
    } else if n == 9 {
        '9'
    } else if n == 10 {
        'a'
    } else if n == 11 {
        'b'
    } else if n == 12 {
        'c'
    } else if n == 13 {
        'd'
    } else if n == 14 {
        'e'
    } else {
        'f'
    }
}

/// Two lower-case hexadecimal digits for each byte, the high one first.
pub open spec fn hex_lower(bytes: Seq<u8>) -> Seq<char> {
    Seq::new(
        2 * bytes.len(),
        |i: int|
            if i % 2 == 0 {
                hex_digit(bytes[i / 2] as int / 16)
            } else {
                hex_digit(bytes[i / 2] as int % 16)
            },
    )
}

/// Renders `data` in lower-case hexadecimal with `hex::encode`: two digits
/// for each byte, the high one first.
#[verifier::external_body]
fn hex_encode(data: &[u8]) -> (s: String)
    ensures
        s@ == hex_lower(data@),
{
    hex::encode(data)
}

/// The first 16 bytes of `digest` in lower-case hexadecimal: 32 characters.
pub fn truncated_hex(digest: &[u8]) -> (s: String)
    requires
        digest@.len() >= 16,
    ensures
        s@ == hex_lower(digest@.take(16)),
{
    let head = vstd::slice::slice_subrange(digest, 0, 16);
    assert(head@ =~= digest@.take(16));
    hex_encode(head)
}

/// Whether the three numbers that enter a hash fit their 32 bits.
pub open spec fn chain_fits(init: int, step: int, limit: int) -> bool {
    &&& init * step <= u32::MAX
    &&& limit + step <= u32::MAX
    &&& init <= step + limit
}

/// Whether the three numbers that enter a hash fit their 32 bits.
pub fn can_hash(init: u32, step: u32, limit: u32) -> (b: bool)
    ensures
        b == chain_fits(init as int, step as int, limit as int),
{
    assert(init * step <= 0xffff_ffff * 0xffff_ffff) by (nonlinear_arith)
        requires
            0 <= init <= 0xffff_ffff,
            0 <= step <= 0xffff_ffff,
    ;
    let product: u64 = init as u64 * step as u64;
    let sum: u64 = limit as u64 + step as u64;
    product <= 0xffff_ffff && sum <= 0xffff_ffff && init as u64 <= sum
}

/// The text that is hashed: the key, then `init * step`, `limit + step` and
/// `step + limit - init` in decimal.
pub open spec fn chain_input(key: Seq<char>, init: int, step: int, limit: int) -> Seq<char> {
    key + decimal((init * step) as nat) + decimal((limit + step) as nat) + decimal(
        (step + limit - init) as nat,
    )
}

/// The hash of a text: the first 16 bytes of the SHA-256 digest of its UTF-8
/// bytes, in lower-case hexadecimal.
pub open spec fn hash_text(t: Seq<char>) -> Seq<char> {
    hex_lower(sha256(encode_utf8(t)).take(16))
}

/// The value of the chain at `(init, step, limit)` under `key`.
pub open spec fn chain_value(key: Seq<char>, init: int, step: int, limit: int) -> Seq<char> {
    hash_text(chain_input(key, init, step, limit))
}

/// The text that is hashed for the chain at `(init, step, limit)`.
pub fn generate_hash(key: &str, init: u32, step: u32, limit: u32) -> (s: String)
    requires
        chain_fits(init as int, step as int, limit as int),
    ensures
        s@ == chain_input(key@, init as int, step as int, limit as int),
{
    let f_part1: u32 = init * step;
    let f_part2: u32 = limit + step;
    let f_part3: u32 = step + limit - init;
    let mut s = String::from_str(key);
    push_decimal(&mut s, f_part1);
    push_decimal(&mut s, f_part2);
    push_decimal(&mut s, f_part3);
    s
}

/// The hash of `key`: 32 hexadecimal characters.
pub fn hash_key(key: &str) -> (s: String)
    ensures
        s@ == hash_text(key@),
{
    let digest = sha256_digest(key.as_bytes());
    truncated_hex(digest.as_slice())
}

/// The key that a nonce is made with: the handshake key where `handshake` is
/// `Some(true)`, the session key otherwise.
pub open spec fn nonce_key(config: &AppConfig, handshake: Option<bool>) -> Seq<char> {
    if handshake == Some(true) {
        config.handshake_key@
    } else {
        config.secret_key@
    }
}

/// The value of the chain at the parameters of `hash_builder`, under the
/// handshake key or the session key. It depends on nothing else.
pub fn generate_nonce(config: &AppConfig, hash_builder: &HashBuilder, handshake: Option<bool>) -> (s:
    String)
    requires
        chain_fits(
            hash_builder.init as int,
            hash_builder.step as int,
            hash_builder.limit as int,
        ),
    ensures
        s@ == chain_value(
            nonce_key(config, handshake),
            hash_builder.init as int,
            hash_builder.step as int,
            hash_builder.limit as int,
        ),
{
    let for_handshake = match handshake {
        Some(b) => b,
        None => false,
    };
    let combined = if for_handshake {
        generate_hash(
            config.handshake_key.as_str(),
            hash_builder.init,
            hash_builder.step,
            hash_builder.limit,
        )
    } else {
        generate_hash(
            config.secret_key.as_str(),
            hash_builder.init,
            hash_builder.step,
            hash_builder.limit,
        )
    };
    hash_key(combined.as_str())
}

/// A session as a mathematical value.
pub struct SessionView {
    pub init: int,
    pub step: int,
    pub limit: int,
    pub sending: bool,
}

impl SessionView {
    /// The parameters are those of a chain that was drawn from the ranges,
    /// and the counter has not run past what two steps beyond the limit allow.
    pub open spec fn wf(self) -> bool {
        &&& 1 <= self.step <= 25
        &&& 4000 <= self.limit <= 9000
        &&& 1 <= self.init <= self.limit + 2 * self.step
    }

    /// The counter has passed the limit: a new handshake is due.
    pub open spec fn rehandshake_due(self) -> bool {
        self.init > self.limit
    }

    /// The counter has passed the limit by more than one step: the chain has
    /// no value any more, because `step + limit - init` would be negative.
    pub open spec fn exhausted(self) -> bool {
        self.init > self.limit + self.step
    }

    /// The value of the chain at this state under `key`.
    pub open spec fn value(self, key: Seq<char>) -> Seq<char> {
        chain_value(key, self.init, self.step, self.limit)
    }

    /// The state one step further.
    pub open spec fn advanced(self) -> SessionView {
        SessionView { init: self.init + self.step, ..self }
    }

    /// The state with the given direction.
    pub open spec fn directed(self, sending: bool) -> SessionView {
        SessionView { sending, ..self }
    }
}

/// The state of a session: where its chain stands.
#[derive(Debug)]
pub struct SessionState {
    init: u32,
    step: u32,
    limit: u32,
    is_sending: bool,
}

impl View for SessionState {
    type V = SessionView;

    closed spec fn view(&self) -> SessionView {
        SessionView {
            init: self.init as int,
            step: self.step as int,
            limit: self.limit as int,
            sending: self.is_sending,
        }
    }
}

impl SessionState {
    #[verifier::type_invariant]
    closed spec fn well_formed(&self) -> bool {
        self@.wf()
    }

    /// A session at the start of the chain that `hash_builder` describes.
    pub fn new(hash_builder: HashBuilder) -> (s: Self)
        requires
            hash_builder.in_range(),
        ensures
            s@ == (SessionView {
                init: hash_builder.init as int,
                step: hash_builder.step as int,
                limit: hash_builder.limit as int,
                sending: false,
            }),
            s@.wf(),
    {
        Self {
            init: hash_builder.init,
            step: hash_builder.step,
            limit: hash_builder.limit,
            is_sending: false,
        }
    }

    /// Where the chain stands.
    pub fn init(&self) -> (n: u32)
        ensures
            n == self@.init,
    {
        self.init
    }

    /// How far one hash moves the chain.
    pub fn step(&self) -> (n: u32)
        ensures
            n == self@.step,
    {
        self.step
    }

    /// Where the chain ends.
    pub fn limit(&self) -> (n: u32)
        ensures
            n == self@.limit,
    {
        self.limit
    }

    /// Whether the session was last taken for sending.
    pub fn is_sending(&self) -> (b: bool)
        ensures
            b == self@.sending,
    {
        self.is_sending
    }

    /// Marks the session as taken for sending. The chain is not touched.
    pub fn for_sending(&mut self) -> (r: &mut Self)
        ensures
            r@ == old(self)@.directed(true),
            *final(self) == *final(r),
    {
        proof {
            use_type_invariant(&*self);
        }
        self.is_sending = true;
        self
    }

    /// Marks the session as taken for receiving. The chain is not touched.
    pub fn for_receiving(&mut self) -> (r: &mut Self)
        ensures
            r@ == old(self)@.directed(false),
            *final(self) == *final(r),
    {
        proof {
            use_type_invariant(&*self);
        }
        self.is_sending = false;
        self
    }

    /// The value of the chain where it stands; with `increment` the chain
    /// then moves on by exactly one step, without it the state is unchanged.
    pub fn calculate_next_hash(&mut self, secret_key: &str, increment: bool) -> (s: String)
        requires
            !old(self)@.exhausted(),
        ensures
            s@ == old(self)@.value(secret_key@),
            final(self)@ == if increment {
                old(self)@.advanced()
            } else {
                old(self)@
            },
            final(self)@.wf(),
            final(self)@.init >= old(self)@.init,
            old(self)@.rehandshake_due() ==> final(self)@.rehandshake_due(),
    {
        proof {
            use_type_invariant(&*self);
        }
        assert(self.init * self.step <= 9050 * 25) by (nonlinear_arith)
            requires
                0 <= self.init <= 9050,
                0 <= self.step <= 25,
        ;
        let combined = generate_hash(secret_key, self.init, self.step, self.limit);
        if increment {
            self.init += self.step;
        }
        hash_key(combined.as_str())
    }

    /// Whether the chain has passed its limit, so that a new handshake is due.
    pub fn needs_rehandshake(&self) -> (b: bool)
        ensures
            b == self@.rehandshake_due(),
            self@.wf(),
    {
        proof {
            use_type_invariant(self);
        }
        self.init > self.limit
    }

    /// Whether the chain has run so far past its limit that it has no value.
    pub fn is_exhausted(&self) -> (b: bool)
        ensures
            b == self@.exhausted(),
            self@.wf(),
    {
        proof {
            use_type_invariant(self);
        }
        self.init > self.limit + self.step
    }

    /// Whether `received_hash` is the value of the chain where it stands. The
    /// chain moves on by one step whatever the answer.
    pub fn validate_hash(&mut self, secret_key: &str, received_hash: &str) -> (ok: bool)
        requires
            !old(self)@.exhausted(),
        ensures
            ok == (received_hash@ == old(self)@.value(secret_key@)),
            final(self)@ == old(self)@.advanced(),
            final(self)@.wf(),
            old(self)@.rehandshake_due() ==> final(self)@.rehandshake_due(),
    {
        let expected_hash = self.calculate_next_hash(secret_key, true);
        same_text(expected_hash.as_str(), received_hash)
    }

    /// As `calculate_next_hash`, for every state: an exhausted chain gives
    /// `None` and is left as it is.
    pub fn try_next_hash(&mut self, secret_key: &str, increment: bool) -> (r: Option<String>)
        ensures
            match r {
                Some(s) => {
                    &&& !old(self)@.exhausted()
                    &&& s@ == old(self)@.value(secret_key@)
                    &&& final(self)@ == if increment {
                        old(self)@.advanced()
                    } else {
                        old(self)@
                    }
                },
                None => old(self)@.exhausted() && final(self)@ == old(self)@,
            },
            final(self)@.wf(),
            old(self)@.rehandshake_due() ==> final(self)@.rehandshake_due(),
    {
        if self.is_exhausted() {
            None
        } else {
            Some(self.calculate_next_hash(secret_key, increment))
        }
    }

    /// As `validate_hash`, for every state: an exhausted chain accepts
    /// nothing and is left as it is.
    pub fn try_validate_hash(&mut self, secret_key: &str, received_hash: &str) -> (ok: bool)
        ensures
            ok == (!old(self)@.exhausted() && received_hash@ == old(self)@.value(secret_key@)),
            final(self)@ == if old(self)@.exhausted() {
                old(self)@
            } else {
                old(self)@.advanced()
            },
            final(self)@.wf(),
            old(self)@.rehandshake_due() ==> final(self)@.rehandshake_due(),
    {
        if self.is_exhausted() {
            false
        } else {
            self.validate_hash(secret_key, received_hash)
        }
    }
}

/// The place where the current session is kept, with the mark that a new
/// handshake was asked for.
#[derive(Debug)]
pub struct SessionSlot {
    session: Option<SessionState>,
    handshake_in_progress: bool,
}

/// A slot as a mathematical value.
pub struct SlotView {
    pub session: Option<SessionView>,
    pub handshake_in_progress: bool,
}

impl View for SessionSlot {
    type V = SlotView;

    closed spec fn view(&self) -> SlotView {
        SlotView {
            session: match self.session {
                Some(s) => Some(s@),
                None => None,
            },
            handshake_in_progress: self.handshake_in_progress,
        }
    }
}

impl SessionSlot {
    /// A slot without a session.
    pub fn new() -> (slot: Self)
        ensures
            slot@ == (SlotView { session: None, handshake_in_progress: false }),
    {
        SessionSlot { session: None, handshake_in_progress: false }
    }

    /// Whether a session is kept.
    pub fn has_session(&self) -> (b: bool)
        ensures
            b == self@.session is Some,
    {
        self.session.is_some()
    }

    /// Whether a new handshake was asked for.
    pub fn handshake_in_progress(&self) -> (b: bool)
        ensures
            b == self@.handshake_in_progress,
    {
        self.handshake_in_progress
    }
}

/// The word that stands in place of a hash when a new handshake is due.
pub open spec fn rehandshake_word() -> Seq<char> {
    "REHANDSHAKE"@
}

/// Puts a new session, at the start of the chain of `hash_builder`, in the
/// slot. What was there is replaced as a whole.
pub fn initialize_session(slot: &mut SessionSlot, hash_builder: HashBuilder)
    requires
        hash_builder.in_range(),
    ensures
        final(slot)@ == (SlotView {
            session: Some(
                SessionView {
                    init: hash_builder.init as int,
                    step: hash_builder.step as int,
                    limit: hash_builder.limit as int,
                    sending: false,
                },
            ),
            handshake_in_progress: old(slot)@.handshake_in_progress,
        }),
{
    slot.session = Some(SessionState::new(hash_builder));
}

/// What is attached to the next outgoing record. Without a session it is
/// empty. With a session whose chain has passed its limit it is the word
/// `REHANDSHAKE`, and a handshake is marked as asked for. Otherwise it is the
/// value of the chain, which moves on by one step.
pub fn get_auth_for_message(slot: &mut SessionSlot, secret_key: &str) -> (s: String)
    ensures
        match old(slot)@.session {
            None => s@ == Seq::<char>::empty() && final(slot)@ == old(slot)@,
            Some(v) => if v.rehandshake_due() {
                &&& s@ == rehandshake_word()
                &&& final(slot)@ == (SlotView { session: Some(v), handshake_in_progress: true })
            } else {
                &&& s@ == v.value(secret_key@)
                &&& final(slot)@ == (SlotView {
                    session: Some(v.directed(true).advanced()),
                    handshake_in_progress: old(slot)@.handshake_in_progress,
                })
            },
        },
{
    match slot.session.take() {
        Some(mut state) => {
            if state.needs_rehandshake() {
                slot.session = Some(state);
                slot.handshake_in_progress = true;
                String::from_str("REHANDSHAKE")
            } else {
                let hash = state.for_sending().calculate_next_hash(secret_key, true);
                slot.session = Some(state);
                hash
            }
        },
        None => String::new(),
    }
}

/// Whether an incoming `auth` is accepted. Without a session nothing is. The
/// word `REHANDSHAKE` is accepted, and marks a handshake as asked for.
/// Anything else must be the value of the chain, which moves on by one step
/// whatever the answer; an exhausted chain accepts nothing and stays.
pub fn validate_received_message(slot: &mut SessionSlot, secret_key: &str, auth: &str) -> (ok: bool)
    ensures
        match old(slot)@.session {
            None => !ok && final(slot)@ == old(slot)@,
            Some(v) => if auth@ == rehandshake_word() {
                &&& ok
                &&& final(slot)@ == (SlotView { session: Some(v), handshake_in_progress: true })
            } else {
                &&& ok == (!v.exhausted() && auth@ == v.value(secret_key@))
                &&& final(slot)@ == (SlotView {
                    session: Some(
                        if v.exhausted() {
                            v.directed(false)
                        } else {
                            v.directed(false).advanced()
                        },
                    ),
                    handshake_in_progress: old(slot)@.handshake_in_progress,
                })
            },
        },
{
    match slot.session.take() {
        Some(mut state) => {
            if same_text(auth, "REHANDSHAKE") {
                slot.session = Some(state);
                slot.handshake_in_progress = true;
                true
            } else {
                let ok = state.for_receiving().try_validate_hash(secret_key, auth);
                slot.session = Some(state);
                ok
            }
        },
        None => false,
    }
}

/// The data of a handshake request: `HDSHK_INIT|`, the nonce, `&`, and the
/// parameters as `init:step:limit`.
pub open spec fn handshake_data(nonce: Seq<char>, params: Seq<char>) -> Seq<char> {
    "HDSHK_INIT|"@ + nonce + seq!['&'] + params
}

/// The record that asks the device for a handshake.
pub fn handshake_request(hash_builder: &HashBuilder, nonce: &str) -> (m: ProtocolMessage)
    ensures
        m@ == (RecordView {
            kind: MessageType::AUTH,
            data: handshake_data(nonce@, hash_builder.text()),
            auth: Seq::<char>::empty(),
        }),
{
    let mut data = String::from_str("HDSHK_INIT|");
    data.append(nonce);
    data.push('&');
    let params = hash_builder.to_string();
    data.append(params.as_str());
    proof {
        reveal_strlit("");
    }
    assert(data@ =~= handshake_data(nonce@, hash_builder.text()));
    let m = ProtocolMessage::new(MessageType::AUTH, data.as_str(), "");
    assert(m@.auth =~= Seq::<char>::empty());
    m
}

/// The line that asks the device for a handshake: the text of the request
/// and a newline.
pub open spec fn handshake_line(nonce: Seq<char>, params: Seq<char>) -> Seq<char> {
    encode(
        RecordView {
            kind: MessageType::AUTH,
            data: handshake_data(nonce, params),
            auth: Seq::<char>::empty(),
        },
    ) + seq!['\n']
}

/// The line that is written to the device to ask for a handshake.
pub fn send_handshake_request(hash_builder: &HashBuilder, nonce: &str) -> (line: String)
    ensures
        line@ == handshake_line(nonce@, hash_builder.text()),
{
    let command = handshake_request(hash_builder, nonce);
    let mut line = command.to_string();
    line.push('\n');
    line
}

/// A handshake that is ready to be sent.
#[derive(Debug)]
pub struct Handshake {
    /// The parameters of the chain that the handshake proposes.
    pub params: HashBuilder,
    /// The line to write to the device.
    pub request: String,
}

/// Parameters drawn from the ranges fit the arithmetic of the chain.
pub proof fn lemma_in_range_fits(hash_builder: HashBuilder)
    requires
        hash_builder.in_range(),
    ensures
        chain_fits(
            hash_builder.init as int,
            hash_builder.step as int,
            hash_builder.limit as int,
        ),
{
    assert(hash_builder.init * hash_builder.step <= 1000 * 25) by (nonlinear_arith)
        requires
            0 <= hash_builder.init <= 1000,
            0 <= hash_builder.step <= 25,
    ;
}

/// Prepares a handshake: draws fresh parameters, makes the nonce from them
/// under the handshake key, and builds the request line. No answer to the
/// request is awaited: once the line is written the handshake counts as done.
pub fn perform_handshake(config: &AppConfig) -> (h: Handshake)
    ensures
        h.params.in_range(),
        h.request@ == handshake_line(
            chain_value(
                config.handshake_key@,
                h.params.init as int,
                h.params.step as int,
                h.params.limit as int,
            ),
            h.params.text(),
        ),
{
    let hash_builder = HashBuilder::new();
    proof {
        lemma_in_range_fits(hash_builder);
    }
    let client_nonce = generate_nonce(config, &hash_builder, Some(true));
    let request = send_handshake_request(&hash_builder, client_nonce.as_str());
    Handshake { params: hash_builder, request }
}

/// The session that the pump starts with. Where the request was written it
/// stands at the start of the chain that was proposed. Where writing failed it
/// stands at the start of a chain that is drawn afresh and that the device
/// never saw, so that nothing it sends will pass.
pub fn complete_handshake(params: HashBuilder, sent: bool) -> (session: SessionState)
    requires
        params.in_range(),
    ensures
        session@.wf(),
        !session@.sending,
        1 <= session@.init <= 1000,
        sent ==> session@ == (SessionView {
            init: params.init as int,
            step: params.step as int,
            limit: params.limit as int,
            sending: false,
        }),
{
    if sent {
        SessionState::new(params)
    } else {
        SessionState::new(HashBuilder::new())
    }
}

/// A step moves the counter forward by exactly the step of the chain, and
/// never back; the step and the limit stay as they are.
pub proof fn lemma_advance_moves_forward(v: SessionView)
    requires
        v.wf(),
    ensures
        v.advanced().init == v.init + v.step,
        v.advanced().init > v.init,
        v.advanced().step == v.step,
        v.advanced().limit == v.limit,
{
}

/// A new handshake is due exactly when the counter has passed the limit, and
/// once it is due it stays due: neither a step nor a change of direction
/// takes it back.
pub proof fn lemma_due_stays_due(v: SessionView, sending: bool)
    requires
        v.wf(),
    ensures
        v.rehandshake_due() <==> v.init > v.limit,
        v.rehandshake_due() ==> v.advanced().rehandshake_due(),
        v.rehandshake_due() ==> v.directed(sending).rehandshake_due(),
        v.exhausted() ==> v.rehandshake_due(),
{
}

} // verus!

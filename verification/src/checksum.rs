//! The checksum variant of the codec: a record is followed by `;` and four
//! upper-case hexadecimal digits, the sum of its bytes in 16 bits.

use vstd::prelude::*;
use vstd::string::*;
use vstd::utf8::{decode_utf8, encode_utf8, valid_utf8};
use crate::protocol::{decode, encode, lemma_decode_encode, ProtocolMessage, RecordView};
use crate::text::{first_index, is_first, lemma_first_index, lemma_first_index_absent,
    lemma_first_index_found, utf8_text};

verus! {

/// The sum of the bytes.
pub open spec fn byte_sum(bytes: Seq<u8>) -> int
    decreases bytes.len(),
{
    if bytes.len() == 0 {
        0
    } else {
        byte_sum(bytes.drop_last()) + bytes.last()
    }
}

/// The sum of the bytes, wrapped around at 16 bits.
pub open spec fn checksum(bytes: Seq<u8>) -> int {
    byte_sum(bytes) % 0x10000
}

/// The upper-case hexadecimal digit of `n`, as a byte of text.
pub open spec fn upper_hex_digit(n: int) -> u8 {
    if n < 10 {
        (0x30 + n) as u8
    } else {
        (0x41 + n - 10) as u8
    }
}

/// The four upper-case hexadecimal digits of `c`, the highest first.
pub open spec fn checksum_digits(c: int) -> Seq<u8> {
    seq![
        upper_hex_digit(c / 0x1000),
        upper_hex_digit(c / 0x100 % 16),
        upper_hex_digit(c / 0x10 % 16),
        upper_hex_digit(c % 16),
    ]
}

/// The byte `;`.
pub const SEPARATOR: u8 = 0x3b;

/// `body` followed by `;` and the digits of its checksum.
pub open spec fn with_checksum(body: Seq<u8>) -> Seq<u8> {
    body + seq![SEPARATOR] + checksum_digits(checksum(body))
}

/// What stands before the first `;` of `frame`, where what stands after it
/// is exactly the digits of the checksum of what stands before; else `None`.
pub open spec fn checked_body(frame: Seq<u8>) -> Option<Seq<u8>> {
    match first_index(frame, SEPARATOR) {
        None => None,
        Some(i) => {
            let left = frame.subrange(0, i);
            let right = frame.subrange(i + 1, frame.len() as int);
            if right == checksum_digits(checksum(left)) {
                Some(left)
            } else {
                None
            }
        },
    }
}

/// The four digits of `c` as characters.
pub open spec fn checksum_chars(c: int) -> Seq<char> {
    Seq::new(4, |i: int| checksum_digits(c)[i] as char)
}

/// `t` followed by `;` and the digits of the checksum of its bytes.
pub open spec fn checked_text(t: Seq<char>) -> Seq<char> {
    t + seq![';'] + checksum_chars(checksum(encode_utf8(t)))
}

/// The record that a frame with a checksum holds: the checksum must agree,
/// what stands before it must be text, and the text must hold a record.
pub open spec fn decode_checked(frame: Seq<u8>) -> Option<RecordView> {
    match checked_body(frame) {
        None => None,
        Some(body) => if valid_utf8(body) {
            decode(decode_utf8(body))
        } else {
            None
        },
    }
}

/// The checksum of `bytes`.
pub fn checksum_of(bytes: &[u8]) -> (c: u16)
    ensures
        c == checksum(bytes@),
{
    let mut sum: u32 = 0;
    let mut i: usize = 0;
    while i < bytes.len()
        invariant
            i <= bytes.len(),
            sum < 0x10000,
            sum == byte_sum(bytes@.take(i as int)) % 0x10000,
        decreases bytes.len() - i,
    {
        assert(bytes@.take(i + 1).drop_last() =~= bytes@.take(i as int));
        sum = (sum + bytes[i] as u32) % 0x10000;
        i += 1;
    }
    assert(bytes@.take(bytes.len() as int) =~= bytes@);
    sum as u16
}

fn upper_hex(n: u16) -> (d: u8)
    requires
        n < 16,
    ensures
        d == upper_hex_digit(n as int),
{
    if n < 10 {
        (0x30 + n) as u8
    } else {
        (0x41 + n - 10) as u8
    }
}

/// `body` followed by `;` and the digits of its checksum.
pub fn append_checksum(body: &[u8]) -> (frame: Vec<u8>)
    ensures
        frame@ == with_checksum(body@),
{
    let c = checksum_of(body);
    let mut frame: Vec<u8> = Vec::new();
    let mut i: usize = 0;
    while i < body.len()
        invariant
            i <= body.len(),
            frame@ == body@.take(i as int),
        decreases body.len() - i,
    {
        frame.push(body[i]);
        i += 1;
        assert(body@.take(i as int) =~= body@.take(i - 1).push(body@[i - 1]));
    }
    assert(body@.take(body.len() as int) =~= body@);
    frame.push(SEPARATOR);
    frame.push(upper_hex(c / 0x1000));
    frame.push(upper_hex(c / 0x100 % 16));
    frame.push(upper_hex(c / 0x10 % 16));
    frame.push(upper_hex(c % 16));
    assert(frame@ =~= with_checksum(body@));
    frame
}

/// What stands before the checksum of `frame`, where the checksum agrees.
pub fn strip_checksum(frame: &[u8]) -> (body: Option<Vec<u8>>)
    ensures
        match body {
            Some(b) => checked_body(frame@) == Some(b@),
            None => checked_body(frame@) is None,
        },
{
    let mut i: usize = 0;
    while i < frame.len() && frame[i] != SEPARATOR
        invariant
            i <= frame.len(),
            forall|j: int| 0 <= j < i ==> frame@[j] != SEPARATOR,
        decreases frame.len() - i,
    {
        i += 1;
    }
    if i == frame.len() {
        proof {
            lemma_first_index_absent(frame@, SEPARATOR);
        }
        return None;
    }
    proof {
        lemma_first_index_found(frame@, SEPARATOR, i as int);
    }
    let left = vstd::slice::slice_subrange(frame, 0, i);
    let c = checksum_of(left);
    let ghost right = frame@.subrange(i + 1, frame.len() as int);
    let ghost digits = checksum_digits(c as int);
    if frame.len() - i != 5 {
        assert(right.len() != digits.len());
        return None;
    }
    if frame[i + 1] == upper_hex(c / 0x1000) && frame[i + 2] == upper_hex(c / 0x100 % 16)
        && frame[i + 3] == upper_hex(c / 0x10 % 16) && frame[i + 4] == upper_hex(c % 16) {
        assert(right =~= digits);
        Some(vstd::slice::slice_to_vec(left))
    } else {
        assert(right[0] == frame@[i + 1] && right[1] == frame@[i + 2] && right[2] == frame@[i + 3]
            && right[3] == frame@[i + 4]);
        None
    }
}

impl ProtocolMessage {
    /// The bytes of the record in the checksum variant.
    pub fn to_checked_bytes(&self) -> (frame: Vec<u8>)
        ensures
            frame@ == with_checksum(encode_utf8(encode(self@))),
    {
        let text = self.to_string();
        append_checksum(text.as_str().as_bytes())
    }

    /// The text of the record in the checksum variant.
    pub fn to_string_with_checksum(&self) -> (s: String)
        ensures
            s@ == checked_text(encode(self@)),
    {
        let mut s = self.to_string();
        let c = checksum_of(s.as_str().as_bytes());
        s.push(';');
        s.push(upper_hex(c / 0x1000) as char);
        s.push(upper_hex(c / 0x100 % 16) as char);
        s.push(upper_hex(c / 0x10 % 16) as char);
        s.push(upper_hex(c % 16) as char);
        assert(s@ =~= checked_text(encode(self@)));
        s
    }

    /// Decodes a text in the checksum variant; `None` where the checksum is
    /// missing or disagrees, or where what it covers holds no record.
    pub fn from_string_with_checksum(message: &str) -> (r: Option<Self>)
        ensures
            match r {
                Some(m) => decode_checked(encode_utf8(message@)) == Some(m@),
                None => decode_checked(encode_utf8(message@)) is None,
            },
    {
        ProtocolMessage::from_checked_bytes(message.as_bytes())
    }

    /// Decodes a record in the checksum variant; `None` where the checksum
    /// is missing or disagrees, or where what it covers holds no record.
    pub fn from_checked_bytes(frame: &[u8]) -> (r: Option<Self>)
        ensures
            match r {
                Some(m) => decode_checked(frame@) == Some(m@),
                None => decode_checked(frame@) is None,
            },
    {
        match strip_checksum(frame) {
            None => None,
            Some(body) => match utf8_text(body) {
                None => None,
                Some(text) => ProtocolMessage::from_string(text.as_str()),
            },
        }
    }
}

proof fn lemma_sum_update(s: Seq<u8>, i: int, b: u8)
    requires
        0 <= i < s.len(),
    ensures
        byte_sum(s.update(i, b)) == byte_sum(s) - s[i] + b,
    decreases s.len(),
{
    let t = s.update(i, b);
    if i == s.len() - 1 {
        assert(t.drop_last() =~= s.drop_last());
    } else {
        assert(t.drop_last() =~= s.drop_last().update(i, b));
        lemma_sum_update(s.drop_last(), i, b);
    }
}

proof fn lemma_hex_digit_injective(x: int, y: int)
    requires
        0 <= x < 16,
        0 <= y < 16,
        upper_hex_digit(x) == upper_hex_digit(y),
    ensures
        x == y,
{
}

proof fn lemma_four_digits(c: int)
    requires
        0 <= c < 0x10000,
    ensures
        0 <= c / 0x1000 < 16,
        c == 0x1000 * (c / 0x1000) + 0x100 * (c / 0x100 % 16) + 0x10 * (c / 0x10 % 16) + c % 16,
{
}

proof fn lemma_digits_injective(c1: int, c2: int)
    requires
        0 <= c1 < 0x10000,
        0 <= c2 < 0x10000,
        checksum_digits(c1) == checksum_digits(c2),
    ensures
        c1 == c2,
{
    let d1 = checksum_digits(c1);
    let d2 = checksum_digits(c2);
    assert(d1[0] == d2[0] && d1[1] == d2[1] && d1[2] == d2[2] && d1[3] == d2[3]);
    lemma_four_digits(c1);
    lemma_four_digits(c2);
    lemma_hex_digit_injective(c1 / 0x1000, c2 / 0x1000);
    lemma_hex_digit_injective(c1 / 0x100 % 16, c2 / 0x100 % 16);
    lemma_hex_digit_injective(c1 / 0x10 % 16, c2 / 0x10 % 16);
    lemma_hex_digit_injective(c1 % 16, c2 % 16);
}

proof fn lemma_change_shows(sum: int, change: int)
    requires
        -0x10000 < change < 0x10000,
        change != 0,
    ensures
        (sum + change) % 0x10000 != sum % 0x10000,
        0 <= sum % 0x10000 < 0x10000,
        0 <= (sum + change) % 0x10000 < 0x10000,
{
}

/// A frame in which one byte was changed is refused: whichever byte of a
/// record with its checksum is replaced by another value, the checksum does
/// not agree any more, or is not there.
pub proof fn lemma_corruption_detected(body: Seq<u8>, i: int, b: u8)
    requires
        0 <= i < with_checksum(body).len(),
        b != with_checksum(body)[i],
    ensures
        checked_body(with_checksum(body).update(i, b)) is None,
        decode_checked(with_checksum(body).update(i, b)) is None,
{
    let f = with_checksum(body);
    let g = f.update(i, b);
    let n = body.len() as int;
    if checked_body(g) is Some {
        lemma_first_index(g, SEPARATOR);
        let k = first_index(g, SEPARATOR).unwrap();
        let left = g.subrange(0, k);
        let right = g.subrange(k + 1, g.len() as int);
        assert(right == checksum_digits(checksum(left)));
        assert(right.len() == 4);
        assert(k == n);
        assert(g[n] == SEPARATOR);
        assert(f[n] == SEPARATOR);
        if i < n {
            assert(left =~= body.update(i, b));
            lemma_sum_update(body, i, b);
            assert(right =~= checksum_digits(checksum(body)));
            assert(f[i] == body[i]);
            lemma_change_shows(byte_sum(body), b - body[i]);
            lemma_digits_injective(checksum(left), checksum(body));
            assert(false);
        } else {
            assert(left =~= body);
            assert(right[i - n - 1] == b);
            assert(checksum_digits(checksum(body))[i - n - 1] == f[i]);
            assert(false);
        }
    }
}

/// A record comes back from its bytes in the checksum variant, provided its
/// data holds no `|` and its text no `;`.
pub proof fn lemma_checked_roundtrip(r: RecordView)
    requires
        !r.data.contains('|'),
        !encode_utf8(encode(r)).contains(SEPARATOR),
    ensures
        decode_checked(with_checksum(encode_utf8(encode(r)))) == Some(r),
{
    let body = encode_utf8(encode(r));
    let f = with_checksum(body);
    let n = body.len() as int;
    assert forall|j: int| 0 <= j < n implies f[j] != SEPARATOR by {
        assert(f[j] == body[j]);
        assert(body.contains(body[j]));
    }
    assert(is_first(f, SEPARATOR, n));
    lemma_first_index_found(f, SEPARATOR, n);
    assert(f.subrange(0, n) =~= body);
    assert(f.subrange(n + 1, f.len() as int) =~= checksum_digits(checksum(body)));
    vstd::utf8::encode_utf8_valid_utf8(encode(r));
    vstd::utf8::encode_utf8_decode_utf8(encode(r));
    lemma_decode_encode(r);
}

proof fn lemma_encode_concat(a: Seq<char>, b: Seq<char>)
    ensures
        encode_utf8(a + b) == encode_utf8(a) + encode_utf8(b),
    decreases a.len(),
{
    if a.len() == 0 {
        assert(a + b =~= b);
        assert(encode_utf8(a) + encode_utf8(b) =~= encode_utf8(b));
    } else {
        assert((a + b).drop_first() =~= a.drop_first() + b);
        lemma_encode_concat(a.drop_first(), b);
        assert(encode_utf8(a + b) =~= encode_utf8(a) + encode_utf8(b));
    }
}

/// The bytes of a text in the checksum variant are the bytes of the text in
/// the checksum variant: what is appended is the same five bytes.
pub proof fn lemma_checked_text_bytes(t: Seq<char>)
    ensures
        encode_utf8(checked_text(t)) == with_checksum(encode_utf8(t)),
{
    let c = checksum(encode_utf8(t));
    let tail = seq![';'] + checksum_chars(c);
    assert(checked_text(t) =~= t + tail);
    lemma_encode_concat(t, tail);
    assert(vstd::utf8::is_ascii_chars(tail));
    vstd::utf8::is_ascii_chars_encode_utf8(tail);
    let digits = checksum_digits(c);
    assert(forall|i: int| 0 <= i < 4 ==> (digits[i] as char) as u8 == digits[i]);
    assert(encode_utf8(tail) =~= seq![SEPARATOR] + digits);
    assert(encode_utf8(t) + (seq![SEPARATOR] + digits) =~= with_checksum(encode_utf8(t)));
}

} // verus!

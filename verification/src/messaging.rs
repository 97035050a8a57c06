//! Direct messaging between peers.
//!
//! A text message travels as a single JSON object on one line of a stream
//! connection. This module defines the message type and its wire codec with
//! the round-trip law, the display form of a received message, the events the
//! messaging engine emits, and the lookup that resolves a nickname to the
//! peer address an outbound connection should dial.

use vstd::prelude::*;
use crate::codec::{
    append_chars, append_escaped, brace_only, dec_u64_chars, i64_value, is_dec_digit, json_string,
    key_colon, lemma_i64_value_prefix, lemma_key_colon_prefix, lemma_object_end_prefix,
    lemma_string_value_prefix, lemma_ws_char_prefix, object_end, spec_dec_i64, spec_i64_value,
    spec_key_colon, spec_object_end, spec_string_value, spec_ws_char, string_value, ws_char,
};
use crate::error::ParlanceError;
use crate::peer::{Peer, PeerAddr};
use crate::text::{chars_to_string, push_char, str_chars, str_eq};
use vstd::string::StringExecFns;

verus! {

/// A text message sent between peers.
#[derive(Debug, Clone)]
pub struct TextMessage {
    /// Sender's nickname
    pub from: String,
    /// Message content
    pub content: String,
    /// Unix timestamp (seconds since epoch)
    pub timestamp: i64,
}

/// The mathematical value of a text message.
pub struct TextMessageView {
    pub from: Seq<char>,
    pub content: Seq<char>,
    pub timestamp: i64,
}

impl View for TextMessage {
    type V = TextMessageView;

    open spec fn view(&self) -> TextMessageView {
        TextMessageView { from: self.from@, content: self.content@, timestamp: self.timestamp }
    }
}

/// Events that occur in the messaging system.
#[derive(Debug, Clone)]
pub enum MessageEvent {
    /// A message was received from a peer
    Received(TextMessage),
    /// A message was successfully sent to a peer
    Sent { to: String, content: String },
    /// An error occurred while sending a message
    SendError { to: String, error: String },
}

/// The quoted key naming the sender field.
pub open spec fn key_from() -> Seq<char> {
    seq!['\u{22}', 'f', 'r', 'o', 'm', '\u{22}']
}

/// The quoted key naming the content field.
pub open spec fn key_content() -> Seq<char> {
    seq!['\u{22}', 'c', 'o', 'n', 't', 'e', 'n', 't', '\u{22}']
}

/// The quoted key naming the timestamp field.
pub open spec fn key_timestamp() -> Seq<char> {
    seq!['\u{22}', 't', 'i', 'm', 'e', 's', 't', 'a', 'm', 'p', '\u{22}']
}

fn chars_key_from() -> (v: Vec<char>)
    ensures
        v@ == key_from(),
{
    let mut v: Vec<char> = Vec::new();
    v.push('"');
    v.push('f');
    v.push('r');
    v.push('o');
    v.push('m');
    v.push('"');
    proof {
        assert(v@ =~= key_from());
    }
    v
}

fn chars_key_content() -> (v: Vec<char>)
    ensures
        v@ == key_content(),
{
    let mut v: Vec<char> = Vec::new();
    v.push('"');
    v.push('c');
    v.push('o');
    v.push('n');
    v.push('t');
    v.push('e');
    v.push('n');
    v.push('t');
    v.push('"');
    proof {
        assert(v@ =~= key_content());
    }
    v
}

fn chars_key_timestamp() -> (v: Vec<char>)
    ensures
        v@ == key_timestamp(),
{
    let mut v: Vec<char> = Vec::new();
    v.push('"');
    v.push('t');
    v.push('i');
    v.push('m');
    v.push('e');
    v.push('s');
    v.push('t');
    v.push('a');
    v.push('m');
    v.push('p');
    v.push('"');
    proof {
        assert(v@ =~= key_timestamp());
    }
    v
}

/// The canonical wire form of a text message, without the line terminator.
pub open spec fn spec_encode_text(m: TextMessageView) -> Seq<char> {
    seq!['\u{7b}'] + key_from() + seq![':'] + json_string(m.from) + seq![','] + key_content()
        + seq![':'] + json_string(m.content) + seq![','] + key_timestamp() + seq![':']
        + spec_dec_i64(m.timestamp as int) + brace_only()
}

/// The tail of a text-message line after the sender value: the content and
/// timestamp fields and the closing brace.
pub open spec fn spec_text_after_from(s: Seq<char>, from: Seq<char>) -> Option<TextMessageView> {
    match spec_ws_char(s, ',') {
        None => None,
        Some(s1) => match spec_key_colon(s1, key_content()) {
            None => None,
            Some(s2) => match spec_string_value(s2) {
                None => None,
                Some((content, s3)) => spec_text_after_content(s3, from, content),
            },
        },
    }
}

/// The tail of a text-message line after the content value: the timestamp
/// field and the closing brace.
pub open spec fn spec_text_after_content(
    s: Seq<char>,
    from: Seq<char>,
    content: Seq<char>,
) -> Option<TextMessageView> {
    match spec_ws_char(s, ',') {
        None => None,
        Some(s1) => match spec_key_colon(s1, key_timestamp()) {
            None => None,
            Some(s2) => match spec_i64_value(s2) {
                None => None,
                Some((ts, s3)) => if spec_object_end(s3) {
                    Some(TextMessageView { from: from, content: content, timestamp: ts })
                } else {
                    None
                },
            },
        },
    }
}

/// Parses a whole text-message line.
pub open spec fn spec_decode_text(s: Seq<char>) -> Option<TextMessageView> {
    match spec_ws_char(s, '\u{7b}') {
        None => None,
        Some(s1) => match spec_key_colon(s1, key_from()) {
            None => None,
            Some(s2) => match spec_string_value(s2) {
                None => None,
                Some((from, s3)) => spec_text_after_from(s3, from),
            },
        },
    }
}

/// The message carried by every decode failure.
pub open spec fn invalid_text_message() -> Seq<char> {
    "invalid text message"@
}

/// Relies on chrono's `Utc::now` and `DateTime::timestamp` for the current
/// time as Unix seconds. Nothing is assumed of the clock's value.
#[verifier::external_body]
fn now_unix_seconds() -> i64 {
    chrono::Utc::now().timestamp()
}

impl TextMessage {
    /// Creates a message stamped with the current time.
    pub fn new(from: String, content: String) -> (m: TextMessage)
        ensures
            m@.from == from@,
            m@.content == content@,
    {
        let timestamp = now_unix_seconds();
        TextMessage { from, content, timestamp }
    }

    /// Encodes the message as one JSON object in canonical form, without the
    /// line terminator.
    pub fn encode(&self) -> (r: String)
        ensures
            r@ == spec_encode_text(self@),
    {
        let mut out = String::new();
        push_char(&mut out, '{');
        let kf = chars_key_from();
        append_chars(&mut out, &kf);
        push_char(&mut out, ':');
        push_char(&mut out, '"');
        let fromv = str_chars(self.from.as_str());
        append_escaped(&mut out, &fromv);
        push_char(&mut out, '"');
        push_char(&mut out, ',');
        let kc = chars_key_content();
        append_chars(&mut out, &kc);
        push_char(&mut out, ':');
        push_char(&mut out, '"');
        let contentv = str_chars(self.content.as_str());
        append_escaped(&mut out, &contentv);
        push_char(&mut out, '"');
        push_char(&mut out, ',');
        let kt = chars_key_timestamp();
        append_chars(&mut out, &kt);
        push_char(&mut out, ':');
        if self.timestamp < 0 {
            push_char(&mut out, '-');
            let mag: u64 = if self.timestamp == i64::MIN {
                0x8000000000000000u64
            } else {
                (-self.timestamp) as u64
            };
            let dg = dec_u64_chars(mag);
            append_chars(&mut out, &dg);
        } else {
            let dg = dec_u64_chars(self.timestamp as u64);
            append_chars(&mut out, &dg);
        }
        push_char(&mut out, '}');
        proof {
            assert(out@ =~= spec_encode_text(self@));
        }
        out
    }

    /// Decodes one text-message line, the line terminator already stripped.
    /// The canonical field order the encoder emits is required; whitespace
    /// between tokens and the full set of string escapes are accepted.
    pub fn decode(s: &str) -> (r: Result<TextMessage, ParlanceError>)
        ensures
            match r {
                Ok(m) => spec_decode_text(s@) == Some(m@),
                Err(e) => spec_decode_text(s@) is None && (e matches ParlanceError::Serialization(
                    msg,
                ) && msg@ == invalid_text_message()),
            },
    {
        let v = str_chars(s);
        proof {
            assert(v@.skip(0) =~= s@);
        }
        let i1 = match ws_char(&v, 0, '{') {
            Some(i) => i,
            None => {
                return Err(ParlanceError::Serialization(String::from_str("invalid text message")));
            },
        };
        let kf = chars_key_from();
        let i2 = match key_colon(&v, i1, &kf) {
            Some(i) => i,
            None => {
                return Err(ParlanceError::Serialization(String::from_str("invalid text message")));
            },
        };
        let (fromv, i3) = match string_value(&v, i2) {
            Some(p) => p,
            None => {
                return Err(ParlanceError::Serialization(String::from_str("invalid text message")));
            },
        };
        let i4 = match ws_char(&v, i3, ',') {
            Some(i) => i,
            None => {
                return Err(ParlanceError::Serialization(String::from_str("invalid text message")));
            },
        };
        let kc = chars_key_content();
        let i5 = match key_colon(&v, i4, &kc) {
            Some(i) => i,
            None => {
                return Err(ParlanceError::Serialization(String::from_str("invalid text message")));
            },
        };
        let (contentv, i6) = match string_value(&v, i5) {
            Some(p) => p,
            None => {
                return Err(ParlanceError::Serialization(String::from_str("invalid text message")));
            },
        };
        let i7 = match ws_char(&v, i6, ',') {
            Some(i) => i,
            None => {
                return Err(ParlanceError::Serialization(String::from_str("invalid text message")));
            },
        };
        let kt = chars_key_timestamp();
        let i8 = match key_colon(&v, i7, &kt) {
            Some(i) => i,
            None => {
                return Err(ParlanceError::Serialization(String::from_str("invalid text message")));
            },
        };
        let (ts, i9) = match i64_value(&v, i8) {
            Some(p) => p,
            None => {
                return Err(ParlanceError::Serialization(String::from_str("invalid text message")));
            },
        };
        if !object_end(&v, i9) {
            return Err(ParlanceError::Serialization(String::from_str("invalid text message")));
        }
        let from = chars_to_string(&fromv);
        let content = chars_to_string(&contentv);
        Ok(TextMessage { from, content, timestamp: ts })
    }
}

proof fn lemma_text_tail_content(m: TextMessageView)
    ensures
        spec_text_after_content(
            seq![','] + key_timestamp() + seq![':'] + spec_dec_i64(m.timestamp as int)
                + brace_only(),
            m.from,
            m.content,
        ) == Some(m),
{
    let r7 = key_timestamp() + seq![':'] + spec_dec_i64(m.timestamp as int) + brace_only();
    let s = seq![','] + key_timestamp() + seq![':'] + spec_dec_i64(m.timestamp as int)
        + brace_only();
    assert(s =~= seq![','] + r7);
    lemma_ws_char_prefix(',', r7);
    let r8 = spec_dec_i64(m.timestamp as int) + brace_only();
    assert(r7 =~= key_timestamp() + seq![':'] + r8);
    lemma_key_colon_prefix(key_timestamp(), r8);
    assert(!is_dec_digit(brace_only()[0]));
    lemma_i64_value_prefix(m.timestamp, brace_only());
    lemma_object_end_prefix();
}

proof fn lemma_text_tail_from(m: TextMessageView)
    ensures
        spec_text_after_from(
            seq![','] + key_content() + seq![':'] + json_string(m.content) + seq![',']
                + key_timestamp() + seq![':'] + spec_dec_i64(m.timestamp as int) + brace_only(),
            m.from,
        ) == Some(m),
{
    let s = seq![','] + key_content() + seq![':'] + json_string(m.content) + seq![',']
        + key_timestamp() + seq![':'] + spec_dec_i64(m.timestamp as int) + brace_only();
    let r4 = key_content() + seq![':'] + json_string(m.content) + seq![','] + key_timestamp()
        + seq![':'] + spec_dec_i64(m.timestamp as int) + brace_only();
    assert(s =~= seq![','] + r4);
    lemma_ws_char_prefix(',', r4);
    let r5 = json_string(m.content) + seq![','] + key_timestamp() + seq![':'] + spec_dec_i64(
        m.timestamp as int,
    ) + brace_only();
    assert(r4 =~= key_content() + seq![':'] + r5);
    lemma_key_colon_prefix(key_content(), r5);
    let r6 = seq![','] + key_timestamp() + seq![':'] + spec_dec_i64(m.timestamp as int)
        + brace_only();
    assert(r5 =~= json_string(m.content) + r6);
    lemma_string_value_prefix(m.content, r6);
    lemma_text_tail_content(m);
}

/// Encoding a text message and decoding the result yields the original
/// message: sender, content and timestamp survive exactly.
#[verifier::rlimit(100)]
pub proof fn lemma_text_round_trip(m: TextMessageView)
    ensures
        spec_decode_text(spec_encode_text(m)) == Some(m),
{
    let s = spec_encode_text(m);
    let r1 = key_from() + seq![':'] + json_string(m.from) + seq![','] + key_content() + seq![':']
        + json_string(m.content) + seq![','] + key_timestamp() + seq![':'] + spec_dec_i64(
        m.timestamp as int,
    ) + brace_only();
    assert(s =~= seq!['\u{7b}'] + r1);
    lemma_ws_char_prefix('\u{7b}', r1);
    let r2 = json_string(m.from) + seq![','] + key_content() + seq![':'] + json_string(m.content)
        + seq![','] + key_timestamp() + seq![':'] + spec_dec_i64(m.timestamp as int)
        + brace_only();
    assert(r1 =~= key_from() + seq![':'] + r2);
    lemma_key_colon_prefix(key_from(), r2);
    let r3 = seq![','] + key_content() + seq![':'] + json_string(m.content) + seq![',']
        + key_timestamp() + seq![':'] + spec_dec_i64(m.timestamp as int) + brace_only();
    assert(r2 =~= json_string(m.from) + r3);
    lemma_string_value_prefix(m.from, r3);
    lemma_text_tail_from(m);
    assert(spec_decode_text(s) == Some(m));
}

/// No record in the snapshot carries the given nickname.
pub open spec fn no_peer_named(s: Seq<Peer>, nick: Seq<char>) -> bool {
    forall|i: int| 0 <= i < s.len() ==> (#[trigger] s[i]@.nickname) != nick
}

/// Finds the first record carrying the given nickname in a snapshot.
pub fn find_peer_by_nickname(peers: &Vec<Peer>, nickname: &str) -> (r: Option<usize>)
    ensures
        match r {
            Some(i) => i < peers@.len() && peers@[i as int]@.nickname == nickname@ && (forall|
                j: int,
            | 0 <= j < i ==> (#[trigger] peers@[j]@.nickname) != nickname@),
            None => no_peer_named(peers@, nickname@),
        },
{
    let n = peers.len();
    let mut i: usize = 0;
    while i < n
        invariant
            i <= n,
            n == peers@.len(),
            forall|j: int| 0 <= j < i ==> (#[trigger] peers@[j]@.nickname) != nickname@,
        decreases n - i,
    {
        if str_eq(peers[i].nickname.as_str(), nickname) {
            return Some(i);
        }
        i = i + 1;
    }
    None
}

/// Resolves the address an outbound message to `to_nickname` should dial:
/// the address of the first matching record in the snapshot. When no record
/// matches, the peer is not known and no connection should be attempted.
pub fn prepare_send(peers: &Vec<Peer>, to_nickname: &str) -> (r: Result<PeerAddr, ParlanceError>)
    ensures
        match r {
            Ok(a) => exists|i: int|
                0 <= i < peers@.len() && (#[trigger] peers@[i]@.nickname) == to_nickname@ && a
                    == peers@[i]@.addr && (forall|j: int|
                    0 <= j < i ==> (#[trigger] peers@[j]@.nickname) != to_nickname@),
            Err(e) => no_peer_named(peers@, to_nickname@) && (e matches ParlanceError::PeerNotFound(
                n,
            ) && n@ == to_nickname@),
        },
{
    match find_peer_by_nickname(peers, to_nickname) {
        Some(i) => Ok(peers[i].addr),
        None => Err(ParlanceError::PeerNotFound(String::from_str(to_nickname))),
    }
}

/// The two-digit decimal form of a value below 100.
pub open spec fn two_digits(n: nat) -> Seq<char> {
    seq![crate::codec::dec_digit_char(n / 10), crate::codec::dec_digit_char(n % 10)]
}

/// The second of the day a timestamp falls on, in Coordinated Universal
/// Time: the timestamp reduced modulo the seconds of a day, with negative
/// timestamps wrapping backwards from midnight.
pub open spec fn spec_time_of_day(ts: i64) -> int {
    (ts as int) % 86400
}

/// The first second of the earliest calendar day the display can name:
/// January 1 of year -262143, the start of chrono's date range.
pub const MIN_DISPLAY_TS: i64 = -8_334_601_228_800;

/// The last second of the latest calendar day the display can name:
/// December 31 of year 262142, the end of chrono's date range.
pub const MAX_DISPLAY_TS: i64 = 8_210_266_876_799;

/// The time-of-day field of the display form: two digits each of hours,
/// minutes and seconds for a timestamp whose calendar date is nameable, and
/// a placeholder outside that range.
pub open spec fn spec_time_field(ts: i64) -> Seq<char> {
    if MIN_DISPLAY_TS <= ts && ts <= MAX_DISPLAY_TS {
        let tod = spec_time_of_day(ts);
        two_digits((tod / 3600) as nat) + seq![':'] + two_digits(((tod / 60) % 60) as nat)
            + seq![':'] + two_digits((tod % 60) as nat)
    } else {
        seq!['?', '?', ':', '?', '?', ':', '?', '?']
    }
}

/// The display form of a message: the time of day in brackets, the sender,
/// a colon, and the content.
pub open spec fn spec_format_text(m: TextMessageView) -> Seq<char> {
    seq!['['] + spec_time_field(m.timestamp) + seq![']', ' '] + m.from + seq![':', ' ']
        + m.content
}

proof fn lemma_time_of_day_negative(m: int)
    requires
        m >= 0,
    ensures
        (-(m + 1)) % 86400 == 86399 - (m % 86400),
{
    let n = 86400;
    let a = m / n;
    let q = m % n;
    vstd::arithmetic::div_mod::lemma_fundamental_div_mod(m, n);
    assert(m == n * a + q);
    assert(-(m + 1) == n * (-a - 1) + (n - q - 1)) by (nonlinear_arith)
        requires
            m == n * a + q,
            n == 86400,
    ;
    vstd::arithmetic::div_mod::lemma_fundamental_div_mod_converse(
        -(m + 1),
        n,
        -a - 1,
        n - q - 1,
    );
}

impl TextMessage {
    /// Formats the message for display.
    pub fn format(&self) -> (r: String)
        ensures
            r@ == spec_format_text(self@),
    {
        let ts = self.timestamp;
        let mut out = String::new();
        push_char(&mut out, '[');
        if MIN_DISPLAY_TS <= ts && ts <= MAX_DISPLAY_TS {
            let tod: u64 = if ts >= 0 {
                (ts as u64) % 86400
            } else {
                let m: u64 = (-(ts + 1)) as u64;
                proof {
                    lemma_time_of_day_negative(m as int);
                }
                86399 - (m % 86400)
            };
            proof {
                assert(tod as int == spec_time_of_day(self.timestamp));
            }
            let h = tod / 3600;
            let mi = (tod / 60) % 60;
            let se = tod % 60;
            push_char(&mut out, (48 + (h / 10) as u8) as char);
            push_char(&mut out, (48 + (h % 10) as u8) as char);
            push_char(&mut out, ':');
            push_char(&mut out, (48 + (mi / 10) as u8) as char);
            push_char(&mut out, (48 + (mi % 10) as u8) as char);
            push_char(&mut out, ':');
            push_char(&mut out, (48 + (se / 10) as u8) as char);
            push_char(&mut out, (48 + (se % 10) as u8) as char);
        } else {
            push_char(&mut out, '?');
            push_char(&mut out, '?');
            push_char(&mut out, ':');
            push_char(&mut out, '?');
            push_char(&mut out, '?');
            push_char(&mut out, ':');
            push_char(&mut out, '?');
            push_char(&mut out, '?');
        }
        push_char(&mut out, ']');
        push_char(&mut out, ' ');
        out.append(self.from.as_str());
        push_char(&mut out, ':');
        push_char(&mut out, ' ');
        out.append(self.content.as_str());
        proof {
            assert(out@ =~= spec_format_text(self@));
        }
        out
    }
}

} // verus!

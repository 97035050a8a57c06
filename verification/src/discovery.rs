//! The presence-discovery protocol.
//!
//! Peers advertise themselves with datagrams multicast to a well-known group.
//! Each datagram carries one JSON object: an announcement naming the sender's
//! nickname and messaging port, or an advisory goodbye. This module defines
//! the message type, its wire codec, and the round-trip law.

use vstd::prelude::*;
use crate::codec::{
    append_chars, append_escaped, brace_only, dec_u64_chars, expect_lit, is_dec_digit, json_string,
    key_colon, lemma_key_colon_prefix, lemma_lit_prefix, lemma_object_end_prefix,
    lemma_skip_ws_id, lemma_string_value_prefix, lemma_u16_value_prefix, lemma_ws_char_prefix,
    object_end, skip_ws, spec_dec_digits, spec_key_colon, spec_lit, spec_object_end, spec_skip_ws,
    spec_string_value, spec_u16_value, spec_ws_char, string_value, u16_value, ws_char,
};
use crate::error::ParlanceError;
use crate::peer::{Peer, PeerAddr, spec_peer_id};
use crate::text::{chars_to_string, push_char, str_chars, str_eq};
use vstd::string::StringExecFns;

verus! {

/// Multicast group address for peer discovery, packed as four octets,
/// highest first: 239.255.255.250. Every peer must use the same group.
pub const MULTICAST_ADDR: u32 = 0xEFFFFFFA;

/// Multicast port for peer discovery. Every peer must use the same port.
pub const MULTICAST_PORT: u16 = 6789;

/// Discovery message types.
#[derive(Debug, Clone)]
pub enum DiscoveryMessage {
    /// Announce presence to other peers
    Announce { nickname: String, tcp_port: u16 },
    /// Goodbye message when shutting down
    Goodbye { nickname: String },
}

/// The mathematical value of a discovery message.
pub enum DiscoveryMessageView {
    Announce { nickname: Seq<char>, tcp_port: u16 },
    Goodbye { nickname: Seq<char> },
}

impl View for DiscoveryMessage {
    type V = DiscoveryMessageView;

    open spec fn view(&self) -> DiscoveryMessageView {
        match self {
            DiscoveryMessage::Announce { nickname, tcp_port } => DiscoveryMessageView::Announce {
                nickname: nickname@,
                tcp_port: *tcp_port,
            },
            DiscoveryMessage::Goodbye { nickname } => DiscoveryMessageView::Goodbye {
                nickname: nickname@,
            },
        }
    }
}

/// The quoted key naming the tag field.
pub open spec fn key_type() -> Seq<char> {
    seq!['\u{22}', 't', 'y', 'p', 'e', '\u{22}']
}

/// The quoted key naming the nickname field.
pub open spec fn key_nickname() -> Seq<char> {
    seq!['\u{22}', 'n', 'i', 'c', 'k', 'n', 'a', 'm', 'e', '\u{22}']
}

/// The quoted key naming the messaging-port field.
pub open spec fn key_tcp_port() -> Seq<char> {
    seq!['\u{22}', 't', 'c', 'p', '_', 'p', 'o', 'r', 't', '\u{22}']
}

/// The quoted tag value of an announcement.
pub open spec fn tag_announce() -> Seq<char> {
    seq!['\u{22}', 'a', 'n', 'n', 'o', 'u', 'n', 'c', 'e', '\u{22}']
}

/// The quoted tag value of a goodbye.
pub open spec fn tag_goodbye() -> Seq<char> {
    seq!['\u{22}', 'g', 'o', 'o', 'd', 'b', 'y', 'e', '\u{22}']
}

fn chars_key_type() -> (v: Vec<char>)
    ensures
        v@ == key_type(),
{
    let mut v: Vec<char> = Vec::new();
    v.push('"');
    v.push('t');
    v.push('y');
    v.push('p');
    v.push('e');
    v.push('"');
    proof {
        assert(v@ =~= key_type());
    }
    v
}

fn chars_key_nickname() -> (v: Vec<char>)
    ensures
        v@ == key_nickname(),
{
    let mut v: Vec<char> = Vec::new();
    v.push('"');
    v.push('n');
    v.push('i');
    v.push('c');
    v.push('k');
    v.push('n');
    v.push('a');
    v.push('m');
    v.push('e');
    v.push('"');
    proof {
        assert(v@ =~= key_nickname());
    }
    v
}

fn chars_key_tcp_port() -> (v: Vec<char>)
    ensures
        v@ == key_tcp_port(),
{
    let mut v: Vec<char> = Vec::new();
    v.push('"');
    v.push('t');
    v.push('c');
    v.push('p');
    v.push('_');
    v.push('p');
    v.push('o');
    v.push('r');
    v.push('t');
    v.push('"');
    proof {
        assert(v@ =~= key_tcp_port());
    }
    v
}

fn chars_tag_announce() -> (v: Vec<char>)
    ensures
        v@ == tag_announce(),
{
    let mut v: Vec<char> = Vec::new();
    v.push('"');
    v.push('a');
    v.push('n');
    v.push('n');
    v.push('o');
    v.push('u');
    v.push('n');
    v.push('c');
    v.push('e');
    v.push('"');
    proof {
        assert(v@ =~= tag_announce());
    }
    v
}

fn chars_tag_goodbye() -> (v: Vec<char>)
    ensures
        v@ == tag_goodbye(),
{
    let mut v: Vec<char> = Vec::new();
    v.push('"');
    v.push('g');
    v.push('o');
    v.push('o');
    v.push('d');
    v.push('b');
    v.push('y');
    v.push('e');
    v.push('"');
    proof {
        assert(v@ =~= tag_goodbye());
    }
    v
}

/// The canonical wire form of a discovery message.
pub open spec fn spec_encode_discovery(m: DiscoveryMessageView) -> Seq<char> {
    match m {
        DiscoveryMessageView::Announce { nickname, tcp_port } => seq!['\u{7b}'] + key_type()
            + seq![':'] + tag_announce() + seq![','] + key_nickname() + seq![':'] + json_string(
            nickname,
        ) + seq![','] + key_tcp_port() + seq![':'] + spec_dec_digits(tcp_port as nat)
            + brace_only(),
        DiscoveryMessageView::Goodbye { nickname } => seq!['\u{7b}'] + key_type() + seq![':']
            + tag_goodbye() + seq![','] + key_nickname() + seq![':'] + json_string(nickname)
            + brace_only(),
    }
}

/// The fields of an announcement, after its tag.
pub open spec fn spec_announce_fields(s: Seq<char>) -> Option<DiscoveryMessageView> {
    match spec_ws_char(s, ',') {
        None => None,
        Some(s1) => match spec_key_colon(s1, key_nickname()) {
            None => None,
            Some(s2) => match spec_string_value(s2) {
                None => None,
                Some((nick, s3)) => match spec_ws_char(s3, ',') {
                    None => None,
                    Some(s4) => match spec_key_colon(s4, key_tcp_port()) {
                        None => None,
                        Some(s5) => match spec_u16_value(s5) {
                            None => None,
                            Some((port, s6)) => if spec_object_end(s6) {
                                Some(
                                    DiscoveryMessageView::Announce {
                                        nickname: nick,
                                        tcp_port: port,
                                    },
                                )
                            } else {
                                None
                            },
                        },
                    },
                },
            },
        },
    }
}

/// The fields of a goodbye, after its tag.
pub open spec fn spec_goodbye_fields(s: Seq<char>) -> Option<DiscoveryMessageView> {
    match spec_ws_char(s, ',') {
        None => None,
        Some(s1) => match spec_key_colon(s1, key_nickname()) {
            None => None,
            Some(s2) => match spec_string_value(s2) {
                None => None,
                Some((nick, s3)) => if spec_object_end(s3) {
                    Some(DiscoveryMessageView::Goodbye { nickname: nick })
                } else {
                    None
                },
            },
        },
    }
}

/// Parses a whole discovery datagram. Unknown tags are rejected.
pub open spec fn spec_decode_discovery(s: Seq<char>) -> Option<DiscoveryMessageView> {
    match spec_ws_char(s, '\u{7b}') {
        None => None,
        Some(s1) => match spec_key_colon(s1, key_type()) {
            None => None,
            Some(s2) => {
                let s3 = spec_skip_ws(s2);
                match spec_lit(s3, tag_announce()) {
                    Some(s4) => spec_announce_fields(s4),
                    None => match spec_lit(s3, tag_goodbye()) {
                        Some(s4) => spec_goodbye_fields(s4),
                        None => None,
                    },
                }
            },
        },
    }
}

/// The message carried by every decode failure.
pub open spec fn invalid_discovery_text() -> Seq<char> {
    "invalid discovery message"@
}

impl DiscoveryMessage {
    /// Encodes the message as one JSON object in canonical form.
    pub fn encode(&self) -> (r: String)
        ensures
            r@ == spec_encode_discovery(self@),
    {
        let mut out = String::new();
        push_char(&mut out, '{');
        let kt = chars_key_type();
        append_chars(&mut out, &kt);
        push_char(&mut out, ':');
        match self {
            DiscoveryMessage::Announce { nickname, tcp_port } => {
                let tag = chars_tag_announce();
                append_chars(&mut out, &tag);
                push_char(&mut out, ',');
                let kn = chars_key_nickname();
                append_chars(&mut out, &kn);
                push_char(&mut out, ':');
                push_char(&mut out, '"');
                let nickv = str_chars(nickname.as_str());
                append_escaped(&mut out, &nickv);
                push_char(&mut out, '"');
                push_char(&mut out, ',');
                let kp = chars_key_tcp_port();
                append_chars(&mut out, &kp);
                push_char(&mut out, ':');
                let dg = dec_u64_chars(*tcp_port as u64);
                append_chars(&mut out, &dg);
                push_char(&mut out, '}');
                proof {
                    assert(out@ =~= spec_encode_discovery(self@));
                }
            },
            DiscoveryMessage::Goodbye { nickname } => {
                let tag = chars_tag_goodbye();
                append_chars(&mut out, &tag);
                push_char(&mut out, ',');
                let kn = chars_key_nickname();
                append_chars(&mut out, &kn);
                push_char(&mut out, ':');
                push_char(&mut out, '"');
                let nickv = str_chars(nickname.as_str());
                append_escaped(&mut out, &nickv);
                push_char(&mut out, '"');
                push_char(&mut out, '}');
                proof {
                    assert(out@ =~= spec_encode_discovery(self@));
                }
            },
        }
        out
    }

    /// Decodes one discovery datagram. The canonical field order the
    /// encoder emits is required; whitespace between tokens and the full
    /// set of string escapes are accepted.
    pub fn decode(s: &str) -> (r: Result<DiscoveryMessage, ParlanceError>)
        ensures
            match r {
                Ok(m) => spec_decode_discovery(s@) == Some(m@),
                Err(e) => spec_decode_discovery(s@) is None && (e matches
                    ParlanceError::Serialization(msg) && msg@ == invalid_discovery_text()),
            },
    {
        let v = str_chars(s);
        proof {
            assert(v@.skip(0) =~= s@);
        }
        let i1 = match ws_char(&v, 0, '{') {
            Some(i) => i,
            None => {
                return Err(
                    ParlanceError::Serialization(String::from_str("invalid discovery message")),
                );
            },
        };
        let kt = chars_key_type();
        let i2 = match key_colon(&v, i1, &kt) {
            Some(i) => i,
            None => {
                return Err(
                    ParlanceError::Serialization(String::from_str("invalid discovery message")),
                );
            },
        };
        let i3 = skip_ws(&v, i2);
        let ta = chars_tag_announce();
        match expect_lit(&v, i3, &ta) {
            Some(i4) => {
                let i5 = match ws_char(&v, i4, ',') {
                    Some(i) => i,
                    None => {
                        return Err(
                            ParlanceError::Serialization(
                                String::from_str("invalid discovery message"),
                            ),
                        );
                    },
                };
                let kn = chars_key_nickname();
                let i6 = match key_colon(&v, i5, &kn) {
                    Some(i) => i,
                    None => {
                        return Err(
                            ParlanceError::Serialization(
                                String::from_str("invalid discovery message"),
                            ),
                        );
                    },
                };
                let (nickv, i7) = match string_value(&v, i6) {
                    Some(p) => p,
                    None => {
                        return Err(
                            ParlanceError::Serialization(
                                String::from_str("invalid discovery message"),
                            ),
                        );
                    },
                };
                let i8 = match ws_char(&v, i7, ',') {
                    Some(i) => i,
                    None => {
                        return Err(
                            ParlanceError::Serialization(
                                String::from_str("invalid discovery message"),
                            ),
                        );
                    },
                };
                let kp = chars_key_tcp_port();
                let i9 = match key_colon(&v, i8, &kp) {
                    Some(i) => i,
                    None => {
                        return Err(
                            ParlanceError::Serialization(
                                String::from_str("invalid discovery message"),
                            ),
                        );
                    },
                };
                let (port, i10) = match u16_value(&v, i9) {
                    Some(p) => p,
                    None => {
                        return Err(
                            ParlanceError::Serialization(
                                String::from_str("invalid discovery message"),
                            ),
                        );
                    },
                };
                if !object_end(&v, i10) {
                    return Err(
                        ParlanceError::Serialization(String::from_str("invalid discovery message")),
                    );
                }
                let nickname = chars_to_string(&nickv);
                Ok(DiscoveryMessage::Announce { nickname, tcp_port: port })
            },
            None => {
                let tg = chars_tag_goodbye();
                match expect_lit(&v, i3, &tg) {
                    Some(i4) => {
                        let i5 = match ws_char(&v, i4, ',') {
                            Some(i) => i,
                            None => {
                                return Err(
                                    ParlanceError::Serialization(
                                        String::from_str("invalid discovery message"),
                                    ),
                                );
                            },
                        };
                        let kn = chars_key_nickname();
                        let i6 = match key_colon(&v, i5, &kn) {
                            Some(i) => i,
                            None => {
                                return Err(
                                    ParlanceError::Serialization(
                                        String::from_str("invalid discovery message"),
                                    ),
                                );
                            },
                        };
                        let (nickv, i7) = match string_value(&v, i6) {
                            Some(p) => p,
                            None => {
                                return Err(
                                    ParlanceError::Serialization(
                                        String::from_str("invalid discovery message"),
                                    ),
                                );
                            },
                        };
                        if !object_end(&v, i7) {
                            return Err(
                                ParlanceError::Serialization(
                                    String::from_str("invalid discovery message"),
                                ),
                            );
                        }
                        let nickname = chars_to_string(&nickv);
                        Ok(DiscoveryMessage::Goodbye { nickname })
                    },
                    None => Err(
                        ParlanceError::Serialization(String::from_str("invalid discovery message")),
                    ),
                }
            },
        }
    }
}

/// Encoding a discovery message and decoding the result yields the original
/// message, for every nickname and port.
pub proof fn lemma_discovery_round_trip(m: DiscoveryMessageView)
    ensures
        spec_decode_discovery(spec_encode_discovery(m)) == Some(m),
{
    match m {
        DiscoveryMessageView::Announce { nickname, tcp_port } => {
            lemma_announce_round_trip(m);
        },
        DiscoveryMessageView::Goodbye { nickname } => {
            lemma_goodbye_round_trip(m);
        },
    }
}

#[verifier::rlimit(100)]
proof fn lemma_announce_fields_prefix(nickname: Seq<char>, tcp_port: u16)
    ensures
        spec_announce_fields(
            seq![','] + key_nickname() + seq![':'] + json_string(nickname) + seq![',']
                + key_tcp_port() + seq![':'] + spec_dec_digits(tcp_port as nat) + brace_only(),
        ) == (Some(DiscoveryMessageView::Announce { nickname: nickname, tcp_port: tcp_port })),
{
    let r3 = seq![','] + key_nickname() + seq![':'] + json_string(nickname) + seq![',']
        + key_tcp_port() + seq![':'] + spec_dec_digits(tcp_port as nat) + brace_only();
    let r4 = key_nickname() + seq![':'] + json_string(nickname) + seq![','] + key_tcp_port()
        + seq![':'] + spec_dec_digits(tcp_port as nat) + brace_only();
    assert(r3 =~= seq![','] + r4);
    lemma_ws_char_prefix(',', r4);
    let r5 = json_string(nickname) + seq![','] + key_tcp_port() + seq![':'] + spec_dec_digits(
        tcp_port as nat,
    ) + brace_only();
    assert(r4 =~= key_nickname() + seq![':'] + r5);
    lemma_key_colon_prefix(key_nickname(), r5);
    let r6 = seq![','] + key_tcp_port() + seq![':'] + spec_dec_digits(tcp_port as nat)
        + brace_only();
    assert(r5 =~= json_string(nickname) + r6);
    lemma_string_value_prefix(nickname, r6);
    let r7 = key_tcp_port() + seq![':'] + spec_dec_digits(tcp_port as nat) + brace_only();
    assert(r6 =~= seq![','] + r7);
    lemma_ws_char_prefix(',', r7);
    let r8 = spec_dec_digits(tcp_port as nat) + brace_only();
    assert(r7 =~= key_tcp_port() + seq![':'] + r8);
    lemma_key_colon_prefix(key_tcp_port(), r8);
    assert(!is_dec_digit(brace_only()[0]));
    lemma_u16_value_prefix(tcp_port, brace_only());
    lemma_object_end_prefix();
}

#[verifier::rlimit(100)]
proof fn lemma_announce_round_trip(m: DiscoveryMessageView)
    requires
        m is Announce,
    ensures
        spec_decode_discovery(spec_encode_discovery(m)) == Some(m),
{
    match m {
        DiscoveryMessageView::Announce { nickname, tcp_port } => {
            let s = spec_encode_discovery(m);
            let r1 = key_type() + seq![':'] + tag_announce() + seq![','] + key_nickname()
                + seq![':'] + json_string(nickname) + seq![','] + key_tcp_port() + seq![':']
                + spec_dec_digits(tcp_port as nat) + brace_only();
            assert(s =~= seq!['\u{7b}'] + r1);
            lemma_ws_char_prefix('\u{7b}', r1);
            let r2 = tag_announce() + seq![','] + key_nickname() + seq![':'] + json_string(
                nickname,
            ) + seq![','] + key_tcp_port() + seq![':'] + spec_dec_digits(tcp_port as nat)
                + brace_only();
            assert(r1 =~= key_type() + seq![':'] + r2);
            lemma_key_colon_prefix(key_type(), r2);
            let r3 = seq![','] + key_nickname() + seq![':'] + json_string(nickname) + seq![',']
                + key_tcp_port() + seq![':'] + spec_dec_digits(tcp_port as nat) + brace_only();
            assert(r2 =~= tag_announce() + r3);
            lemma_skip_ws_id(r2);
            lemma_lit_prefix(tag_announce(), r3);
            lemma_announce_fields_prefix(nickname, tcp_port);
            assert(spec_decode_discovery(s) == Some(m));
        },
        DiscoveryMessageView::Goodbye { nickname } => {
        },
    }
}

#[verifier::rlimit(100)]
proof fn lemma_goodbye_round_trip(m: DiscoveryMessageView)
    requires
        m is Goodbye,
    ensures
        spec_decode_discovery(spec_encode_discovery(m)) == Some(m),
{
    match m {
        DiscoveryMessageView::Announce { nickname, tcp_port } => {
        },
        DiscoveryMessageView::Goodbye { nickname } => {
            let s = spec_encode_discovery(m);
            let r1 = key_type() + seq![':'] + tag_goodbye() + seq![','] + key_nickname()
                + seq![':'] + json_string(nickname) + brace_only();
            assert(s =~= seq!['\u{7b}'] + r1);
            lemma_ws_char_prefix('\u{7b}', r1);
            let r2 = tag_goodbye() + seq![','] + key_nickname() + seq![':'] + json_string(nickname)
                + brace_only();
            assert(r1 =~= key_type() + seq![':'] + r2);
            lemma_key_colon_prefix(key_type(), r2);
            let r3 = seq![','] + key_nickname() + seq![':'] + json_string(nickname) + brace_only();
            assert(r2 =~= tag_goodbye() + r3);
            lemma_skip_ws_id(r2);
            lemma_lit_prefix(tag_goodbye(), r3);
            assert(spec_lit(spec_skip_ws(r2), tag_announce()) is None) by {
                assert(r2[1] == 'g');
                assert(tag_announce()[1] == 'a');
                if spec_lit(r2, tag_announce()) is Some {
                    assert(r2.take(tag_announce().len() as int)[1] == r2[1]);
                }
            }
            let r4 = key_nickname() + seq![':'] + json_string(nickname) + brace_only();
            assert(r3 =~= seq![','] + r4);
            lemma_ws_char_prefix(',', r4);
            let r5 = json_string(nickname) + brace_only();
            assert(r4 =~= key_nickname() + seq![':'] + r5);
            lemma_key_colon_prefix(key_nickname(), r5);
            assert(r5 =~= json_string(nickname) + brace_only());
            lemma_string_value_prefix(nickname, brace_only());
            lemma_object_end_prefix();
            assert(spec_decode_discovery(s) == Some(m));
        },
    }
}


/// What the listener should do with one received datagram.
pub enum DiscoveryAction {
    /// A peer announced itself: insert or refresh this record.
    AddPeer(Peer),
    /// A peer said goodbye; its record is left for the timeout sweep.
    GoodbyeFrom(String),
    /// The datagram carries the local peer's own announcement; it is
    /// discarded so a peer never learns about itself.
    SelfAnnounce,
    /// The datagram is not a valid discovery message; it is ignored.
    Malformed,
}

/// Decides what one received datagram means for the directory.
///
/// A valid announcement from another peer yields the record to insert: the
/// announced nickname, reachable at the sender's observed address combined
/// with the announced port, seen now. An announcement carrying the local
/// nickname is discarded, never inserted. A goodbye only names the departing
/// peer. Anything else is malformed and ignored.
pub fn handle_datagram(local_nickname: &str, data: &str, sender_ip: u32, now: u64) -> (a:
    DiscoveryAction)
    ensures
        match spec_decode_discovery(data@) {
            None => a is Malformed,
            Some(m) => match m {
                DiscoveryMessageView::Announce { nickname, tcp_port } => {
                    if nickname == local_nickname@ {
                        a is SelfAnnounce
                    } else {
                        &&& a matches DiscoveryAction::AddPeer(p)
                        &&& p@.nickname == nickname
                        &&& p@.addr == (PeerAddr { ip: sender_ip, port: tcp_port })
                        &&& p@.id == spec_peer_id(PeerAddr { ip: sender_ip, port: tcp_port })
                        &&& p@.last_seen == now
                    }
                },
                DiscoveryMessageView::Goodbye { nickname } => (a matches
                    DiscoveryAction::GoodbyeFrom(n) && n@ == nickname),
            },
        },
{
    match DiscoveryMessage::decode(data) {
        Err(_) => DiscoveryAction::Malformed,
        Ok(msg) => match msg {
            DiscoveryMessage::Announce { nickname, tcp_port } => {
                if str_eq(nickname.as_str(), local_nickname) {
                    DiscoveryAction::SelfAnnounce
                } else {
                    let addr = PeerAddr { ip: sender_ip, port: tcp_port };
                    let peer = Peer::new(nickname, addr, now);
                    DiscoveryAction::AddPeer(peer)
                }
            },
            DiscoveryMessage::Goodbye { nickname } => DiscoveryAction::GoodbyeFrom(nickname),
        },
    }
}

} // verus!

//! Control messages carried on each peer's reliable channel, and their wire
//! form: a JSON object tagged by a `"type"` discriminator string. The mesh
//! manager is the sole writer and reader of this set; a well-formed message
//! with an unknown tag is ignored rather than treated as fatal, so the
//! protocol can evolve.

use vstd::prelude::*;

verus! {

/// A connection offer or answer, base64-encoded for the out-of-band
/// signaling path, with a flag telling the recipient which it is.
#[derive(Debug)]
pub struct ConnectionOffer {
    /// Base64 text wrapping a serialized session description.
    pub sdp_base64: String,
    /// True for an offer, false for an answer.
    pub is_offer: bool,
}

/// A chat line as surfaced to the application layer.
#[derive(Debug)]
pub struct ChatMessage {
    /// Sender's username.
    pub sender: String,
    /// Message body.
    pub content: String,
    /// Seconds since the epoch at send time.
    pub timestamp: u64,
}

/// Messages sent over the reliable control channel.
#[derive(Debug)]
pub enum SignalingMessage {
    /// Chat line.
    Chat { sender: String, content: String, timestamp: u64 },
    /// A user joined the session.
    UserJoined { username: String },
    /// A user left the session.
    UserLeft { username: String },
    /// Keepalive probe.
    Ping { timestamp: u64 },
    /// Keepalive reply.
    Pong { timestamp: u64 },
    /// Offer relayed through an already-connected intermediary.
    PeerOffer { from_peer: String, sdp_base64: String },
    /// Answer relayed through an already-connected intermediary.
    PeerAnswer { from_peer: String, sdp_base64: String },
    /// Announcement of a newly joined peer, for mesh expansion.
    NewPeerAnnounce { username: String },
    /// Request that the recipient connect to the named peer.
    ConnectRequest { peer_id: String, peer_username: String },
}

/// Escape of one character inside a JSON string.
pub open spec fn escape_char(c: char) -> Seq<char> {
    if c == '"' {
        seq!['\\', '"']
    } else if c == '\\' {
        seq!['\\', '\\']
    } else if c == '\n' {
        seq!['\\', 'n']
    } else if c == '\r' {
        seq!['\\', 'r']
    } else if c == '\t' {
        seq!['\\', 't']
    } else {
        seq![c]
    }
}

/// Escape of a whole string body.
pub open spec fn escape_str(s: Seq<char>) -> Seq<char>
    decreases s.len(),
{
    if s.len() == 0 {
        Seq::empty()
    } else {
        escape_str(s.drop_last()) + escape_char(s.last())
    }
}

/// Decimal digit character for one digit value.
pub open spec fn dec_digit(d: int) -> char {
    if d == 0 {
        '0'
    } else if d == 1 {
        '1'
    } else if d == 2 {
        '2'
    } else if d == 3 {
        '3'
    } else if d == 4 {
        '4'
    } else if d == 5 {
        '5'
    } else if d == 6 {
        '6'
    } else if d == 7 {
        '7'
    } else if d == 8 {
        '8'
    } else {
        '9'
    }
}

/// Decimal rendering of an unsigned number, most significant digit first.
pub open spec fn dec_digits(n: int) -> Seq<char>
    decreases n,
{
    if n < 10 {
        seq![dec_digit(n)]
    } else {
        dec_digits(n / 10) + seq![dec_digit(n % 10)]
    }
}

/// Canonical wire form of a message: the exact character sequence the
/// serializer emits.
pub open spec fn render(m: SignalingMessage) -> Seq<char> {
    match m {
        SignalingMessage::Chat { sender, content, timestamp } => "{\"type\":\"chat\",\"sender\":\""@
            + escape_str(sender@) + "\",\"content\":\""@ + escape_str(content@)
            + "\",\"timestamp\":"@ + dec_digits(timestamp as int) + "}"@,
        SignalingMessage::UserJoined { username } => "{\"type\":\"user_joined\",\"username\":\""@
            + escape_str(username@) + "\"}"@,
        SignalingMessage::UserLeft { username } => "{\"type\":\"user_left\",\"username\":\""@
            + escape_str(username@) + "\"}"@,
        SignalingMessage::Ping { timestamp } => "{\"type\":\"ping\",\"timestamp\":"@ + dec_digits(
            timestamp as int,
        ) + "}"@,
        SignalingMessage::Pong { timestamp } => "{\"type\":\"pong\",\"timestamp\":"@ + dec_digits(
            timestamp as int,
        ) + "}"@,
        SignalingMessage::PeerOffer { from_peer, sdp_base64 } => "{\"type\":\"peer_offer\",\"from_peer\":\""@
            + escape_str(from_peer@) + "\",\"sdp_base64\":\""@ + escape_str(sdp_base64@) + "\"}"@,
        SignalingMessage::PeerAnswer { from_peer, sdp_base64 } => "{\"type\":\"peer_answer\",\"from_peer\":\""@
            + escape_str(from_peer@) + "\",\"sdp_base64\":\""@ + escape_str(sdp_base64@) + "\"}"@,
        SignalingMessage::NewPeerAnnounce { username } => "{\"type\":\"new_peer_announce\",\"username\":\""@
            + escape_str(username@) + "\"}"@,
        SignalingMessage::ConnectRequest { peer_id, peer_username } => "{\"type\":\"connect_request\",\"peer_id\":\""@
            + escape_str(peer_id@) + "\",\"peer_username\":\""@ + escape_str(peer_username@)
            + "\"}"@,
    }
}

/// Append the escaped body of `s` to `out`.
fn escape_into(out: &mut String, s: &str)
    ensures
        final(out)@ == old(out)@ + escape_str(s@),
{
    let n: usize = s.unicode_len();
    let mut i: usize = 0;
    proof {
        assert(s@.take(0) =~= Seq::<char>::empty());
        assert(out@ =~= old(out)@ + escape_str(s@.take(0)));
    }
    while i < n
        invariant
            i <= n,
            n == s@.len(),
            out@ == old(out)@ + escape_str(s@.take(i as int)),
        decreases n - i,
    {
        let c: char = s.get_char(i);
        proof {
            assert(s@.take(i + 1).drop_last() =~= s@.take(i as int));
            assert(s@.take(i + 1).last() == s@[i as int]);
        }
        if c == '"' {
            out.append("\\\"");
            proof {
                reveal_strlit("\\\"");
                assert("\\\""@ =~= escape_char(c));
            }
        } else if c == '\\' {
            out.append("\\\\");
            proof {
                reveal_strlit("\\\\");
                assert("\\\\"@ =~= escape_char(c));
            }
        } else if c == '\n' {
            out.append("\\n");
            proof {
                reveal_strlit("\\n");
                assert("\\n"@ =~= escape_char(c));
            }
        } else if c == '\r' {
            out.append("\\r");
            proof {
                reveal_strlit("\\r");
                assert("\\r"@ =~= escape_char(c));
            }
        } else if c == '\t' {
            out.append("\\t");
            proof {
                reveal_strlit("\\t");
                assert("\\t"@ =~= escape_char(c));
            }
        } else {
            let piece: &str = s.substring_char(i, i + 1);
            out.append(piece);
            proof {
                assert(piece@ =~= escape_char(c));
            }
        }
        i = i + 1;
    }
    proof {
        assert(s@.take(n as int) =~= s@);
    }
}

/// Append the decimal rendering of `n` to `out`.
pub(crate) fn dec_into(out: &mut String, n: u64)
    ensures
        final(out)@ == old(out)@ + dec_digits(n as int),
    decreases n,
{
    if n >= 10 {
        dec_into(out, n / 10);
    }
    let d: u64 = n % 10;
    if d == 0 {
        out.append("0");
        proof {
            reveal_strlit("0");
            assert("0"@ =~= seq![dec_digit(0)]);
        }
    } else if d == 1 {
        out.append("1");
        proof {
            reveal_strlit("1");
            assert("1"@ =~= seq![dec_digit(1)]);
        }
    } else if d == 2 {
        out.append("2");
        proof {
            reveal_strlit("2");
            assert("2"@ =~= seq![dec_digit(2)]);
        }
    } else if d == 3 {
        out.append("3");
        proof {
            reveal_strlit("3");
            assert("3"@ =~= seq![dec_digit(3)]);
        }
    } else if d == 4 {
        out.append("4");
        proof {
            reveal_strlit("4");
            assert("4"@ =~= seq![dec_digit(4)]);
        }
    } else if d == 5 {
        out.append("5");
        proof {
            reveal_strlit("5");
            assert("5"@ =~= seq![dec_digit(5)]);
        }
    } else if d == 6 {
        out.append("6");
        proof {
            reveal_strlit("6");
            assert("6"@ =~= seq![dec_digit(6)]);
        }
    } else if d == 7 {
        out.append("7");
        proof {
            reveal_strlit("7");
            assert("7"@ =~= seq![dec_digit(7)]);
        }
    } else if d == 8 {
        out.append("8");
        proof {
            reveal_strlit("8");
            assert("8"@ =~= seq![dec_digit(8)]);
        }
    } else {
        out.append("9");
        proof {
            reveal_strlit("9");
            assert("9"@ =~= seq![dec_digit(9)]);
        }
    }
    proof {
        if n < 10 {
            assert(dec_digits(n as int) =~= seq![dec_digit(n as int)]);
        } else {
            assert(dec_digits(n as int) =~= dec_digits(n as int / 10) + seq![
                dec_digit(n as int % 10),
            ]);
        }
        assert(out@ =~= old(out)@ + dec_digits(n as int));
    }
}

impl SignalingMessage {
    /// Chat message with the given send time.
    pub fn chat(sender: String, content: String, timestamp: u64) -> (r: SignalingMessage)
        ensures
            r == (SignalingMessage::Chat { sender, content, timestamp }),
    {
        SignalingMessage::Chat { sender, content, timestamp }
    }

    /// Notification that a user joined.
    pub fn user_joined(username: String) -> (r: SignalingMessage)
        ensures
            r == (SignalingMessage::UserJoined { username }),
    {
        SignalingMessage::UserJoined { username }
    }

    /// Notification that a user left.
    pub fn user_left(username: String) -> (r: SignalingMessage)
        ensures
            r == (SignalingMessage::UserLeft { username }),
    {
        SignalingMessage::UserLeft { username }
    }

    /// Serialize to the canonical wire form.
    pub fn to_json(&self) -> (r: String)
        ensures
            r@ == render(*self),
    {
        let mut out: String = String::new();
        match self {
            SignalingMessage::Chat { sender, content, timestamp } => {
                out.append("{\"type\":\"chat\",\"sender\":\"");
                escape_into(&mut out, sender.as_str());
                out.append("\",\"content\":\"");
                escape_into(&mut out, content.as_str());
                out.append("\",\"timestamp\":");
                dec_into(&mut out, *timestamp);
                out.append("}");
            },
            SignalingMessage::UserJoined { username } => {
                out.append("{\"type\":\"user_joined\",\"username\":\"");
                escape_into(&mut out, username.as_str());
                out.append("\"}");
            },
            SignalingMessage::UserLeft { username } => {
                out.append("{\"type\":\"user_left\",\"username\":\"");
                escape_into(&mut out, username.as_str());
                out.append("\"}");
            },
            SignalingMessage::Ping { timestamp } => {
                out.append("{\"type\":\"ping\",\"timestamp\":");
                dec_into(&mut out, *timestamp);
                out.append("}");
            },
            SignalingMessage::Pong { timestamp } => {
                out.append("{\"type\":\"pong\",\"timestamp\":");
                dec_into(&mut out, *timestamp);
                out.append("}");
            },
            SignalingMessage::PeerOffer { from_peer, sdp_base64 } => {
                out.append("{\"type\":\"peer_offer\",\"from_peer\":\"");
                escape_into(&mut out, from_peer.as_str());
                out.append("\",\"sdp_base64\":\"");
                escape_into(&mut out, sdp_base64.as_str());
                out.append("\"}");
            },
            SignalingMessage::PeerAnswer { from_peer, sdp_base64 } => {
                out.append("{\"type\":\"peer_answer\",\"from_peer\":\"");
                escape_into(&mut out, from_peer.as_str());
                out.append("\",\"sdp_base64\":\"");
                escape_into(&mut out, sdp_base64.as_str());
                out.append("\"}");
            },
            SignalingMessage::NewPeerAnnounce { username } => {
                out.append("{\"type\":\"new_peer_announce\",\"username\":\"");
                escape_into(&mut out, username.as_str());
                out.append("\"}");
            },
            SignalingMessage::ConnectRequest { peer_id, peer_username } => {
                out.append("{\"type\":\"connect_request\",\"peer_id\":\"");
                escape_into(&mut out, peer_id.as_str());
                out.append("\",\"peer_username\":\"");
                escape_into(&mut out, peer_username.as_str());
                out.append("\"}");
            },
        }
        proof {
            assert(out@ =~= render(*self));
        }
        out
    }
}


/// Outcome of reading one control message off the wire.
#[derive(Debug)]
pub enum ParseOutcome {
    /// A message of the known set, in canonical form.
    Message(SignalingMessage),
    /// A well-shaped envelope whose tag this version does not know;
    /// the reader ignores it.
    Unknown,
    /// Not a canonical message of this protocol.
    Invalid,
}

/// Character-for-character string equality.
pub fn str_eq(a: &str, b: &str) -> (r: bool)
    ensures
        r == (a@ == b@),
{
    let sa: String = a.to_string();
    let sb: String = b.to_string();
    sa == sb
}

/// Whether a character is escaped inside a string body.
pub open spec fn is_special(c: char) -> bool {
    c == '"' || c == '\\' || c == '\n' || c == '\r' || c == '\t'
}

/// The escape of a nonempty body unfolds at the front.
proof fn lemma_escape_unfold(b: Seq<char>)
    requires
        b.len() > 0,
    ensures
        escape_str(b) == escape_char(b[0]) + escape_str(b.skip(1)),
    decreases b.len(),
{
    if b.len() == 1 {
        assert(b.drop_last() =~= Seq::<char>::empty());
        assert(b.skip(1) =~= Seq::<char>::empty());
        assert(escape_str(b) =~= escape_char(b[0]) + escape_str(b.skip(1)));
    } else {
        lemma_escape_unfold(b.drop_last());
        assert(b.skip(1).drop_last() =~= b.drop_last().skip(1));
        assert(b.skip(1).last() == b.last());
        assert(b.drop_last()[0] == b[0]);
        assert(escape_str(b.skip(1)) == escape_str(b.skip(1).drop_last()) + escape_char(
            b.skip(1).last(),
        ));
        assert(escape_str(b) =~= escape_char(b[0]) + escape_str(b.skip(1)));
    }
}

/// Escaping a body without special characters leaves it unchanged.
proof fn lemma_escape_plain(b: Seq<char>)
    requires
        forall|i: int| 0 <= i < b.len() ==> !is_special(#[trigger] b[i]),
    ensures
        escape_str(b) == b,
    decreases b.len(),
{
    if b.len() > 0 {
        lemma_escape_plain(b.drop_last());
        assert(!is_special(b[b.len() - 1]));
        assert(escape_char(b.last()) =~= seq![b.last()]);
        assert(escape_str(b) =~= b);
    }
}

/// Position of the closing quote of a string body starting at `pos`,
/// stepping over escape pairs: what the scanning pass computes.
pub open spec fn spec_scan(s: Seq<char>, pos: int) -> Option<int>
    decreases s.len() - pos,
{
    if pos < 0 || pos >= s.len() {
        None
    } else if s[pos] == '"' {
        Some(pos)
    } else if s[pos] == '\\' {
        if s.len() - pos < 2 {
            None
        } else {
            spec_scan(s, pos + 2)
        }
    } else {
        spec_scan(s, pos + 1)
    }
}

/// Scanning from the start of an escaped body finds exactly the quote that
/// closes it.
proof fn lemma_scan_finds_close(s: Seq<char>, pos: int, b: Seq<char>)
    requires
        0 <= pos,
        pos + escape_str(b).len() < s.len(),
        s.subrange(pos, pos + escape_str(b).len()) == escape_str(b),
        s[pos + escape_str(b).len()] == '"',
    ensures
        spec_scan(s, pos) == Some(pos + escape_str(b).len()),
    decreases b.len(),
{
    let e = escape_str(b);
    if b.len() == 0 {
        assert(e =~= Seq::<char>::empty());
    } else {
        lemma_escape_unfold(b);
        let ec = escape_char(b[0]);
        let rest = escape_str(b.skip(1));
        assert(forall|i: int| 0 <= i < e.len() ==> s[pos + i] == #[trigger] e[i]);
        if is_special(b[0]) {
            assert(ec.len() == 2 && ec[0] == '\\');
            assert(s[pos] == e[0] && e[0] == '\\');
            assert forall|j: int| 0 <= j < rest.len() implies s[pos + 2 + j] == #[trigger] rest[j]
                by {
                assert(e[2 + j] == rest[j]);
                assert(s[pos + (2 + j)] == e[2 + j]);
            }
            assert(s.subrange(pos + 2, pos + e.len()) =~= rest);
            lemma_scan_finds_close(s, pos + 2, b.skip(1));
        } else {
            assert(ec =~= seq![b[0]]);
            assert(s[pos] == e[0] && e[0] == b[0]);
            assert forall|j: int| 0 <= j < rest.len() implies s[pos + 1 + j] == #[trigger] rest[j]
                by {
                assert(e[1 + j] == rest[j]);
                assert(s[pos + (1 + j)] == e[1 + j]);
            }
            assert(s.subrange(pos + 1, pos + e.len()) =~= rest);
            lemma_scan_finds_close(s, pos + 1, b.skip(1));
        }
    }
}

/// The body recovered from an escaped range: what the unescaping pass
/// computes.
pub open spec fn spec_unescape(s: Seq<char>, from: int, to: int) -> Option<Seq<char>>
    decreases to - from,
{
    if from >= to {
        if from == to {
            Some(Seq::empty())
        } else {
            None
        }
    } else if s[from] == '\\' {
        if from + 1 >= to {
            None
        } else {
            let e = s[from + 1];
            let c = if e == '"' {
                '"'
            } else if e == '\\' {
                '\\'
            } else if e == 'n' {
                '\n'
            } else if e == 'r' {
                '\r'
            } else {
                '\t'
            };
            if e == '"' || e == '\\' || e == 'n' || e == 'r' || e == 't' {
                match spec_unescape(s, from + 2, to) {
                    Some(rest) => Some(seq![c] + rest),
                    None => None,
                }
            } else {
                None
            }
        }
    } else {
        match spec_unescape(s, from + 1, to) {
            Some(rest) => Some(seq![s[from]] + rest),
            None => None,
        }
    }
}

/// Unescaping an escaped body gives the body back.
proof fn lemma_unescape_escape(s: Seq<char>, from: int, b: Seq<char>)
    requires
        0 <= from,
        from + escape_str(b).len() <= s.len(),
        s.subrange(from, from + escape_str(b).len()) == escape_str(b),
    ensures
        spec_unescape(s, from, from + escape_str(b).len()) == Some(b),
    decreases b.len(),
{
    let e = escape_str(b);
    if b.len() == 0 {
        assert(e =~= Seq::<char>::empty());
        assert(spec_unescape(s, from, from) == Some(Seq::<char>::empty()));
        assert(Seq::<char>::empty() =~= b);
    } else {
        lemma_escape_unfold(b);
        let ec = escape_char(b[0]);
        let rest = escape_str(b.skip(1));
        assert(forall|i: int| 0 <= i < e.len() ==> s[from + i] == #[trigger] e[i]);
        if is_special(b[0]) {
            assert(ec.len() == 2 && ec[0] == '\\');
            assert(s[from] == e[0] && e[0] == '\\');
            assert(s[from + 1] == e[1] && e[1] == ec[1]);
            assert forall|j: int| 0 <= j < rest.len() implies s[from + 2 + j] == #[trigger] rest[j]
                by {
                assert(e[2 + j] == rest[j]);
                assert(s[from + (2 + j)] == e[2 + j]);
            }
            assert(s.subrange(from + 2, from + e.len()) =~= rest);
            lemma_unescape_escape(s, from + 2, b.skip(1));
            assert(seq![b[0]] + b.skip(1) =~= b);
        } else {
            assert(ec =~= seq![b[0]]);
            assert(s[from] == e[0] && e[0] == b[0]);
            assert(s[from] != '\\');
            assert forall|j: int| 0 <= j < rest.len() implies s[from + 1 + j] == #[trigger] rest[j]
                by {
                assert(e[1 + j] == rest[j]);
                assert(s[from + (1 + j)] == e[1 + j]);
            }
            assert(s.subrange(from + 1, from + e.len()) =~= rest);
            lemma_unescape_escape(s, from + 1, b.skip(1));
            assert(seq![b[0]] + b.skip(1) =~= b);
        }
    }
}

/// Expect the literal `lit` at `pos`; succeeds exactly when it stands
/// there, answering the position after it.
fn eat_lit(s: &str, pos: usize, lit: &str) -> (r: Option<usize>)
    requires
        pos <= s@.len(),
    ensures
        r matches Some(p) ==> p == pos + lit@.len() && p <= s@.len() && s@.subrange(
            pos as int,
            p as int,
        ) == lit@,
        pos + lit@.len() <= s@.len() && s@.subrange(pos as int, pos + lit@.len()) == lit@
            ==> r is Some,
{
    let sn: usize = s.unicode_len();
    let ln: usize = lit.unicode_len();
    if sn - pos < ln {
        return None;
    }
    let mut j: usize = 0;
    while j < ln
        invariant
            j <= ln,
            ln == lit@.len(),
            sn == s@.len(),
            pos + ln <= sn,
            forall|k: int| 0 <= k < j ==> s@[pos + k] == #[trigger] lit@[k],
        decreases ln - j,
    {
        if s.get_char(pos + j) != lit.get_char(j) {
            proof {
                assert(s@.subrange(pos as int, pos + ln as int)[j as int] != lit@[j as int]);
            }
            return None;
        }
        j = j + 1;
    }
    proof {
        assert(s@.subrange(pos as int, pos + ln as int) =~= lit@);
    }
    Some(pos + ln)
}

/// Index of the closing quote of a string body starting at `pos`, skipping
/// escape pairs.
fn scan_string_end(s: &str, pos: usize) -> (r: Option<usize>)
    requires
        pos <= s@.len(),
    ensures
        r matches Some(p) ==> pos <= p < s@.len() && s@[p as int] == '"' && spec_scan(
            s@,
            pos as int,
        ) == Some(p as int),
        r is None ==> spec_scan(s@, pos as int) is None,
{
    let n: usize = s.unicode_len();
    let mut i: usize = pos;
    while i < n
        invariant
            pos <= i <= n,
            n == s@.len(),
            spec_scan(s@, pos as int) == spec_scan(s@, i as int),
        decreases n - i,
    {
        let c: char = s.get_char(i);
        if c == '\\' {
            if n - i < 2 {
                return None;
            }
            i = i + 2;
        } else if c == '"' {
            return Some(i);
        } else {
            i = i + 1;
        }
    }
    None
}

/// Undo the string escaping over `s[from..to]`.
fn unescape_range(s: &str, from: usize, to: usize) -> (r: Option<String>)
    requires
        from <= to <= s@.len(),
    ensures
        r matches Some(u) ==> spec_unescape(s@, from as int, to as int) == Some(u@),
        r is None ==> spec_unescape(s@, from as int, to as int) is None,
{
    let mut out: String = String::new();
    let mut i: usize = from;
    while i < to
        invariant
            from <= i <= to <= s@.len(),
            spec_unescape(s@, i as int, to as int) matches Some(rest) ==> spec_unescape(
                s@,
                from as int,
                to as int,
            ) == Some(out@ + rest),
            spec_unescape(s@, i as int, to as int) is None ==> spec_unescape(
                s@,
                from as int,
                to as int,
            ) is None,
        decreases to - i,
    {
        let c: char = s.get_char(i);
        let ghost out0 = out@;
        if c == '\\' {
            if i + 1 >= to {
                return None;
            }
            let e: char = s.get_char(i + 1);
            let ghost cc: char = 'x';
            if e == '"' {
                out.append("\"");
                proof {
                    reveal_strlit("\"");
                    cc = '"';
                    assert(out@ =~= out0 + seq![cc]);
                }
            } else if e == '\\' {
                out.append("\\");
                proof {
                    reveal_strlit("\\");
                    cc = '\\';
                    assert(out@ =~= out0 + seq![cc]);
                }
            } else if e == 'n' {
                out.append("\n");
                proof {
                    reveal_strlit("\n");
                    cc = '\n';
                    assert(out@ =~= out0 + seq![cc]);
                }
            } else if e == 'r' {
                out.append("\r");
                proof {
                    reveal_strlit("\r");
                    cc = '\r';
                    assert(out@ =~= out0 + seq![cc]);
                }
            } else if e == 't' {
                out.append("\t");
                proof {
                    reveal_strlit("\t");
                    cc = '\t';
                    assert(out@ =~= out0 + seq![cc]);
                }
            } else {
                proof {
                    assert(spec_unescape(s@, i as int, to as int) is None);
                }
                return None;
            }
            proof {
                match spec_unescape(s@, i + 2, to as int) {
                    Some(rest2) => {
                        assert(spec_unescape(s@, i as int, to as int) == Some(seq![cc] + rest2));
                        assert(out0 + (seq![cc] + rest2) =~= out@ + rest2);
                    },
                    None => {
                        assert(spec_unescape(s@, i as int, to as int) is None);
                    },
                }
            }
            i = i + 2;
        } else {
            out.append(s.substring_char(i, i + 1));
            proof {
                assert(out@ =~= out0 + seq![s@[i as int]]);
                match spec_unescape(s@, i + 1, to as int) {
                    Some(rest2) => {
                        assert(spec_unescape(s@, i as int, to as int) == Some(
                            seq![s@[i as int]] + rest2,
                        ));
                        assert(out0 + (seq![s@[i as int]] + rest2) =~= out@ + rest2);
                    },
                    None => {
                        assert(spec_unescape(s@, i as int, to as int) is None);
                    },
                }
            }
            i = i + 1;
        }
    }
    proof {
        assert(spec_unescape(s@, to as int, to as int) == Some(Seq::<char>::empty()));
        assert(out@ + Seq::<char>::empty() =~= out@);
    }
    Some(out)
}

/// Read a string field body starting at `pos`: the unescaped value and the
/// position after the closing quote.
fn read_string_field(s: &str, pos: usize) -> (r: Option<(String, usize)>)
    requires
        pos <= s@.len(),
    ensures
        r matches Some(p) ==> pos <= p.1 <= s@.len() && (spec_scan(s@, pos as int) matches Some(e)
            && p.1 == e + 1 && spec_unescape(s@, pos as int, e) == Some(p.0@)),
        r is None ==> spec_scan(s@, pos as int) is None || (spec_scan(s@, pos as int) matches Some(
            e,
        ) && spec_unescape(s@, pos as int, e) is None),
{
    let n: usize = s.unicode_len();
    match scan_string_end(s, pos) {
        Some(endq) => {
            match unescape_range(s, pos, endq) {
                Some(v) => {
                    proof {
                        assert(endq < n);
                    }
                    Some((v, endq + 1))
                },
                None => None,
            }
        },
        None => None,
    }
}

/// Whether a character is a decimal digit.
pub open spec fn is_digit_char(c: char) -> bool {
    c == '0' || c == '1' || c == '2' || c == '3' || c == '4' || c == '5' || c == '6' || c == '7'
        || c == '8' || c == '9'
}

/// Numeric value of one digit character.
pub open spec fn digit_char_val(c: char) -> int {
    if c == '0' {
        0
    } else if c == '1' {
        1
    } else if c == '2' {
        2
    } else if c == '3' {
        3
    } else if c == '4' {
        4
    } else if c == '5' {
        5
    } else if c == '6' {
        6
    } else if c == '7' {
        7
    } else if c == '8' {
        8
    } else {
        9
    }
}

/// Numeric value of a digit run, most significant digit first.
pub open spec fn digits_val(ds: Seq<char>) -> int
    decreases ds.len(),
{
    if ds.len() == 0 {
        0
    } else {
        digits_val(ds.drop_last()) * 10 + digit_char_val(ds.last())
    }
}

/// A digit run's value is non-negative.
proof fn lemma_digits_val_nonneg(ds: Seq<char>)
    ensures
        digits_val(ds) >= 0,
    decreases ds.len(),
{
    if ds.len() > 0 {
        lemma_digits_val_nonneg(ds.drop_last());
    }
}

/// The decimal rendering consists of digits and reads back to its value.
proof fn lemma_dec_digits_read_back(n: int)
    requires
        n >= 0,
    ensures
        dec_digits(n).len() >= 1,
        forall|i: int| 0 <= i < dec_digits(n).len() ==> is_digit_char(#[trigger] dec_digits(n)[i]),
        digits_val(dec_digits(n)) == n,
    decreases n,
{
    if n < 10 {
        assert(dec_digits(n) =~= seq![dec_digit(n)]);
        assert(dec_digits(n).drop_last() =~= Seq::<char>::empty());
        assert(dec_digits(n).last() == dec_digit(n));
        assert(digits_val(Seq::<char>::empty()) == 0);
        assert(digits_val(dec_digits(n).drop_last()) == 0);
        assert(digits_val(dec_digits(n)) == 0 * 10 + digit_char_val(dec_digit(n)));
        assert(digit_char_val(dec_digit(n)) == n);
        assert(is_digit_char(dec_digit(n)));
        assert forall|i: int| 0 <= i < dec_digits(n).len() implies is_digit_char(
            #[trigger] dec_digits(n)[i],
        ) by {
            assert(dec_digits(n)[i] == dec_digit(n));
        }
    } else {
        lemma_dec_digits_read_back(n / 10);
        let ds = dec_digits(n);
        assert(ds =~= dec_digits(n / 10) + seq![dec_digit(n % 10)]);
        assert(ds.drop_last() =~= dec_digits(n / 10));
        assert(ds.last() == dec_digit(n % 10));
        assert(digit_char_val(dec_digit(n % 10)) == n % 10);
        assert(digits_val(ds) == (n / 10) * 10 + n % 10);
        assert((n / 10) * 10 + n % 10 == n);
        assert forall|i: int| 0 <= i < ds.len() implies is_digit_char(#[trigger] ds[i]) by {
            if i < ds.len() - 1 {
                assert(ds[i] == dec_digits(n / 10)[i]);
                assert(is_digit_char(dec_digits(n / 10)[i]));
            } else {
                assert(ds[i] == dec_digit(n % 10));
            }
        }
    }
}

/// The value of a digit run is at least the value of any prefix.
proof fn lemma_digits_val_prefix(ds: Seq<char>, k: int)
    requires
        0 <= k <= ds.len(),
    ensures
        digits_val(ds.take(k)) <= digits_val(ds),
    decreases ds.len() - k,
{
    if k < ds.len() {
        lemma_digits_val_prefix(ds, k + 1);
        assert(ds.take(k + 1).drop_last() =~= ds.take(k));
        lemma_digits_val_nonneg(ds.take(k));
        assert(digits_val(ds.take(k + 1)) == digits_val(ds.take(k)) * 10 + digit_char_val(
            ds.take(k + 1).last(),
        ));
        assert(digits_val(ds.take(k)) * 10 >= digits_val(ds.take(k))) by (nonlinear_arith)
            requires
                digits_val(ds.take(k)) >= 0,
        ;
    } else {
        assert(ds.take(k) =~= ds);
    }
}

/// Digit value of a decimal character.
fn digit_value(c: char) -> (r: Option<u64>)
    ensures
        r matches Some(d) ==> d < 10 && is_digit_char(c) && d == digit_char_val(c),
        r is None ==> !is_digit_char(c),
{
    if c == '0' {
        Some(0)
    } else if c == '1' {
        Some(1)
    } else if c == '2' {
        Some(2)
    } else if c == '3' {
        Some(3)
    } else if c == '4' {
        Some(4)
    } else if c == '5' {
        Some(5)
    } else if c == '6' {
        Some(6)
    } else if c == '7' {
        Some(7)
    } else if c == '8' {
        Some(8)
    } else if c == '9' {
        Some(9)
    } else {
        None
    }
}

/// Read a run of decimal digits starting at `pos`: the value and the first
/// position after it. Fails on overflow or an empty run; a run whose value
/// fits is read completely and exactly.
fn read_u64_field(s: &str, pos: usize) -> (r: Option<(u64, usize)>)
    requires
        pos <= s@.len(),
    ensures
        r matches Some(p) ==> pos <= p.1 <= s@.len(),
        forall|e2: int|
            pos < e2 <= s@.len() && (forall|k: int|
                pos <= k < e2 ==> is_digit_char(#[trigger] s@[k])) && (e2 == s@.len()
                || !is_digit_char(s@[e2])) && digits_val(#[trigger] s@.subrange(pos as int, e2))
                <= u64::MAX ==> (r matches Some(p) && p.0 == digits_val(
                s@.subrange(pos as int, e2),
            ) && p.1 == e2),
{
    let n: usize = s.unicode_len();
    let mut i: usize = pos;
    let mut v: u64 = 0;
    let mut any: bool = false;
    proof {
        assert(s@.subrange(pos as int, pos as int) =~= Seq::<char>::empty());
    }
    while i < n
        invariant
            pos <= i <= n,
            n == s@.len(),
            any == (i > pos),
            v == digits_val(s@.subrange(pos as int, i as int)),
            forall|k: int| pos <= k < i ==> is_digit_char(#[trigger] s@[k]),
        decreases n - i,
    {
        let c: char = s.get_char(i);
        match digit_value(c) {
            Some(d) => {
                proof {
                    assert(s@.subrange(pos as int, i + 1).drop_last() =~= s@.subrange(
                        pos as int,
                        i as int,
                    ));
                    assert(s@.subrange(pos as int, i + 1).last() == s@[i as int]);
                }
                if v > (u64::MAX - d) / 10 {
                    proof {
                        lemma_digits_val_nonneg(s@.subrange(pos as int, i as int));
                        assert(v * 10 + d > u64::MAX) by (nonlinear_arith)
                            requires
                                v > (u64::MAX as int - d) / 10,
                                0 <= d < 10,
                                v >= 0,
                        ;
                        assert forall|e2: int|
                            pos < e2 <= s@.len() && (forall|k: int|
                                pos <= k < e2 ==> is_digit_char(#[trigger] s@[k])) && (e2
                                == s@.len() || !is_digit_char(s@[e2])) && digits_val(
                                #[trigger] s@.subrange(pos as int, e2),
                            ) <= u64::MAX implies false by {
                            assert(e2 > i) by {
                                if e2 <= i {
                                    assert(is_digit_char(s@[e2]));
                                }
                            }
                            let w = s@.subrange(pos as int, e2);
                            lemma_digits_val_prefix(w, i + 1 - pos);
                            assert(w.take(i + 1 - pos) =~= s@.subrange(pos as int, i + 1));
                            assert(digits_val(s@.subrange(pos as int, i + 1)) == v * 10 + d);
                        }
                    }
                    return None;
                }
                v = v * 10 + d;
                any = true;
                i = i + 1;
            },
            None => {
                if any {
                    proof {
                        assert forall|e2: int|
                            pos < e2 <= s@.len() && (forall|k: int|
                                pos <= k < e2 ==> is_digit_char(#[trigger] s@[k])) && (e2
                                == s@.len() || !is_digit_char(s@[e2])) && digits_val(
                                #[trigger] s@.subrange(pos as int, e2),
                            ) <= u64::MAX implies e2 == i as int by {
                            if e2 < i {
                                assert(is_digit_char(s@[e2]));
                            }
                            if e2 > i {
                                assert(is_digit_char(s@[i as int]));
                            }
                        }
                    }
                    return Some((v, i));
                } else {
                    return None;
                }
            },
        }
    }
    if any {
        proof {
            assert forall|e2: int|
                pos < e2 <= s@.len() && (forall|k: int|
                    pos <= k < e2 ==> is_digit_char(#[trigger] s@[k])) && (e2 == s@.len()
                    || !is_digit_char(s@[e2])) && digits_val(
                    #[trigger] s@.subrange(pos as int, e2),
                ) <= u64::MAX implies e2 == i as int by {
                if e2 < i {
                    assert(is_digit_char(s@[e2]));
                }
            }
        }
        Some((v, i))
    } else {
        None
    }
}

/// The candidate message matches the input exactly when its canonical
/// rendering equals the input text.
fn accept_if_canonical(s: &str, m: SignalingMessage) -> (r: ParseOutcome)
    ensures
        r matches ParseOutcome::Message(m2) ==> s@ == render(m2),
        s@ == render(m) ==> (r matches ParseOutcome::Message(m2) && s@ == render(m2)),
        !(r is Unknown),
{
    let rendered: String = m.to_json();
    if str_eq(rendered.as_str(), s) {
        ParseOutcome::Message(m)
    } else {
        ParseOutcome::Invalid
    }
}

/// Match `head + <escaped body> + "\"}"`; the canonical shape always
/// matches and gives the body back.
fn match_str(s: &str, head: &str) -> (r: Option<String>)
    ensures
        forall|f1: Seq<char>|
            s@ == head@ + #[trigger] escape_str(f1) + "\"}"@ ==> (r matches Some(u) && u@ == f1),
{
    proof {
        reveal_strlit("\"}");
        reveal_strlit("}");
    }
    let n: usize = s.unicode_len();
    let p = match eat_lit(s, 0, head) {
        Some(p) => p,
        None => {
            proof {
                assert forall|f1: Seq<char>|
                    s@ == head@ + #[trigger] escape_str(f1) + "\"}"@ implies false by {
                    assert(s@.subrange(0, head@.len() as int) =~= head@);
                }
            }
            return None;
        },
    };
    let fp = match read_string_field(s, p) {
        Some(x) => x,
        None => {
            proof {
                assert forall|f1: Seq<char>|
                    s@ == head@ + #[trigger] escape_str(f1) + "\"}"@ implies false by {
                    let h = head@.len() as int;
                    let e1 = escape_str(f1);
                    assert(s@.subrange(h, h + e1.len()) =~= e1);
                    assert(s@[h + e1.len()] == '"');
                    lemma_scan_finds_close(s@, h, f1);
                    lemma_unescape_escape(s@, h, f1);
                }
            }
            return None;
        },
    };
    let f = fp.0;
    let p2 = fp.1;
    let p3 = match eat_lit(s, p2, "}") {
        Some(x) => x,
        None => {
            proof {
                assert forall|f1: Seq<char>|
                    s@ == head@ + #[trigger] escape_str(f1) + "\"}"@ implies false by {
                    let h = head@.len() as int;
                    let e1 = escape_str(f1);
                    assert(s@.subrange(h, h + e1.len()) =~= e1);
                    assert(s@[h + e1.len()] == '"');
                    lemma_scan_finds_close(s@, h, f1);
                    assert(p2 == h + e1.len() + 1);
                    assert(s@.subrange(p2 as int, p2 + 1) =~= "}"@);
                }
            }
            return None;
        },
    };
    if p3 != n {
        proof {
            assert forall|f1: Seq<char>|
                s@ == head@ + #[trigger] escape_str(f1) + "\"}"@ implies false by {
                let h = head@.len() as int;
                let e1 = escape_str(f1);
                assert(s@.subrange(h, h + e1.len()) =~= e1);
                assert(s@[h + e1.len()] == '"');
                lemma_scan_finds_close(s@, h, f1);
            }
        }
        return None;
    }
    proof {
        assert forall|f1: Seq<char>|
            s@ == head@ + #[trigger] escape_str(f1) + "\"}"@ implies f@ == f1 by {
            let h = head@.len() as int;
            let e1 = escape_str(f1);
            assert(s@.subrange(h, h + e1.len()) =~= e1);
            assert(s@[h + e1.len()] == '"');
            lemma_scan_finds_close(s@, h, f1);
            lemma_unescape_escape(s@, h, f1);
        }
    }
    Some(f)
}

/// Match `head + <escaped body> + mid + <escaped body> + "\"}"`, with
/// `mid` opening on the quote that closes the first field.
#[verifier::rlimit(100)]
#[verifier::spinoff_prover]
fn match_str_str(s: &str, head: &str, mid: &str) -> (r: Option<(String, String)>)
    requires
        mid@.len() >= 1,
        mid@[0] == '"',
    ensures
        forall|f1: Seq<char>, f2: Seq<char>|
            s@ == head@ + #[trigger] escape_str(f1) + mid@ + #[trigger] escape_str(f2) + "\"}"@
                ==> (r matches Some(u) && u.0@ == f1 && u.1@ == f2),
{
    proof {
        reveal_strlit("\"}");
        reveal_strlit("}");
    }
    let n: usize = s.unicode_len();
    let mid_rest: &str = mid.substring_char(1, mid.unicode_len());
    let p = match eat_lit(s, 0, head) {
        Some(p) => p,
        None => {
            proof {
                assert forall|f1: Seq<char>, f2: Seq<char>|
                    s@ == head@ + #[trigger] escape_str(f1) + mid@ + #[trigger] escape_str(f2)
                        + "\"}"@ implies false by {
                    assert(s@.subrange(0, head@.len() as int) =~= head@);
                }
            }
            return None;
        },
    };
    let fp = match read_string_field(s, p) {
        Some(x) => x,
        None => {
            proof {
                assert forall|f1: Seq<char>, f2: Seq<char>|
                    s@ == head@ + #[trigger] escape_str(f1) + mid@ + #[trigger] escape_str(f2)
                        + "\"}"@ implies false by {
                    let h = head@.len() as int;
                    let e1 = escape_str(f1);
                    assert(s@.subrange(h, h + e1.len()) =~= e1);
                    assert(s@[h + e1.len()] == mid@[0]);
                    lemma_scan_finds_close(s@, h, f1);
                    lemma_unescape_escape(s@, h, f1);
                }
            }
            return None;
        },
    };
    let f1v = fp.0;
    let p2 = fp.1;
    let p3 = match eat_lit(s, p2, mid_rest) {
        Some(x) => x,
        None => {
            proof {
                assert forall|f1: Seq<char>, f2: Seq<char>|
                    s@ == head@ + #[trigger] escape_str(f1) + mid@ + #[trigger] escape_str(f2)
                        + "\"}"@ implies false by {
                    let h = head@.len() as int;
                    let e1 = escape_str(f1);
                    assert(s@.subrange(h, h + e1.len()) =~= e1);
                    assert(s@[h + e1.len()] == mid@[0]);
                    lemma_scan_finds_close(s@, h, f1);
                    assert(p2 == h + e1.len() + 1);
                    assert(s@.subrange(p2 as int, p2 + mid_rest@.len()) =~= mid_rest@);
                }
            }
            return None;
        },
    };
    let fp2 = match read_string_field(s, p3) {
        Some(x) => x,
        None => {
            proof {
                assert forall|f1: Seq<char>, f2: Seq<char>|
                    s@ == head@ + #[trigger] escape_str(f1) + mid@ + #[trigger] escape_str(f2)
                        + "\"}"@ implies false by {
                    let h = head@.len() as int;
                    let e1 = escape_str(f1);
                    let e2 = escape_str(f2);
                    assert(s@.subrange(h, h + e1.len()) =~= e1);
                    assert(s@[h + e1.len()] == mid@[0]);
                    lemma_scan_finds_close(s@, h, f1);
                    assert(p3 == h + e1.len() + mid@.len());
                    assert(s@.subrange(p3 as int, p3 + e2.len()) =~= e2);
                    assert(s@[p3 + e2.len()] == '"');
                    lemma_scan_finds_close(s@, p3 as int, f2);
                    lemma_unescape_escape(s@, p3 as int, f2);
                }
            }
            return None;
        },
    };
    let f2v = fp2.0;
    let p4 = fp2.1;
    let p5 = match eat_lit(s, p4, "}") {
        Some(x) => x,
        None => {
            proof {
                assert forall|f1: Seq<char>, f2: Seq<char>|
                    s@ == head@ + #[trigger] escape_str(f1) + mid@ + #[trigger] escape_str(f2)
                        + "\"}"@ implies false by {
                    let h = head@.len() as int;
                    let e1 = escape_str(f1);
                    let e2 = escape_str(f2);
                    assert(s@.subrange(h, h + e1.len()) =~= e1);
                    assert(s@[h + e1.len()] == mid@[0]);
                    lemma_scan_finds_close(s@, h, f1);
                    assert(p3 == h + e1.len() + mid@.len());
                    assert(s@.subrange(p3 as int, p3 + e2.len()) =~= e2);
                    assert(s@[p3 + e2.len()] == '"');
                    lemma_scan_finds_close(s@, p3 as int, f2);
                    assert(p4 == p3 + e2.len() + 1);
                    assert(s@.subrange(p4 as int, p4 + 1) =~= "}"@);
                }
            }
            return None;
        },
    };
    if p5 != n {
        proof {
            assert forall|f1: Seq<char>, f2: Seq<char>|
                s@ == head@ + #[trigger] escape_str(f1) + mid@ + #[trigger] escape_str(f2)
                    + "\"}"@ implies false by {
                let h = head@.len() as int;
                let e1 = escape_str(f1);
                let e2 = escape_str(f2);
                assert(s@.subrange(h, h + e1.len()) =~= e1);
                assert(s@[h + e1.len()] == mid@[0]);
                lemma_scan_finds_close(s@, h, f1);
                assert(p3 == h + e1.len() + mid@.len());
                assert(s@.subrange(p3 as int, p3 + e2.len()) =~= e2);
                assert(s@[p3 + e2.len()] == '"');
                lemma_scan_finds_close(s@, p3 as int, f2);
            }
        }
        return None;
    }
    proof {
        assert forall|f1: Seq<char>, f2: Seq<char>|
            s@ == head@ + #[trigger] escape_str(f1) + mid@ + #[trigger] escape_str(f2) + "\"}"@
            implies f1v@ == f1 && f2v@ == f2 by {
            let h = head@.len() as int;
            let e1 = escape_str(f1);
            let e2 = escape_str(f2);
            assert(s@.subrange(h, h + e1.len()) =~= e1);
            assert(s@[h + e1.len()] == mid@[0]);
            lemma_scan_finds_close(s@, h, f1);
            lemma_unescape_escape(s@, h, f1);
            assert(p3 == h + e1.len() + mid@.len());
            assert(s@.subrange(p3 as int, p3 + e2.len()) =~= e2);
            assert(s@[p3 + e2.len()] == '"');
            lemma_scan_finds_close(s@, p3 as int, f2);
            lemma_unescape_escape(s@, p3 as int, f2);
        }
    }
    Some((f1v, f2v))
}

/// Match `head + <decimal digits> + "}"`; the canonical shape always
/// matches and gives the value back.
fn match_num(s: &str, head: &str) -> (r: Option<u64>)
    ensures
        forall|tv: u64|
            s@ == head@ + #[trigger] dec_digits(tv as int) + "}"@ ==> (r matches Some(v) && v
                == tv),
{
    proof {
        reveal_strlit("}");
    }
    let n: usize = s.unicode_len();
    let p = match eat_lit(s, 0, head) {
        Some(p) => p,
        None => {
            proof {
                assert forall|tv: u64|
                    s@ == head@ + #[trigger] dec_digits(tv as int) + "}"@ implies false by {
                    assert(s@.subrange(0, head@.len() as int) =~= head@);
                }
            }
            return None;
        },
    };
    let vp = match read_u64_field(s, p) {
        Some(x) => x,
        None => {
            proof {
                assert forall|tv: u64|
                    s@ == head@ + #[trigger] dec_digits(tv as int) + "}"@ implies false by {
                    let h = head@.len() as int;
                    let d = dec_digits(tv as int);
                    lemma_dec_digits_read_back(tv as int);
                    assert(s@.subrange(h, h + d.len()) =~= d);
                    assert forall|k: int| h <= k < h + d.len() implies is_digit_char(
                        #[trigger] s@[k],
                    ) by {
                        assert(s@[k] == d[k - h]);
                    }
                    assert(s@[h + d.len()] == '}');
                }
            }
            return None;
        },
    };
    let v = vp.0;
    let p2 = vp.1;
    let p3 = match eat_lit(s, p2, "}") {
        Some(x) => x,
        None => {
            proof {
                assert forall|tv: u64|
                    s@ == head@ + #[trigger] dec_digits(tv as int) + "}"@ implies false by {
                    let h = head@.len() as int;
                    let d = dec_digits(tv as int);
                    lemma_dec_digits_read_back(tv as int);
                    assert(s@.subrange(h, h + d.len()) =~= d);
                    assert forall|k: int| h <= k < h + d.len() implies is_digit_char(
                        #[trigger] s@[k],
                    ) by {
                        assert(s@[k] == d[k - h]);
                    }
                    assert(s@[h + d.len()] == '}');
                    assert(p2 == h + d.len());
                    assert(s@.subrange(p2 as int, p2 + 1) =~= "}"@);
                }
            }
            return None;
        },
    };
    if p3 != n {
        proof {
            assert forall|tv: u64|
                s@ == head@ + #[trigger] dec_digits(tv as int) + "}"@ implies false by {
                let h = head@.len() as int;
                let d = dec_digits(tv as int);
                lemma_dec_digits_read_back(tv as int);
                assert(s@.subrange(h, h + d.len()) =~= d);
                assert forall|k: int| h <= k < h + d.len() implies is_digit_char(
                    #[trigger] s@[k],
                ) by {
                    assert(s@[k] == d[k - h]);
                }
                assert(s@[h + d.len()] == '}');
                assert(p2 == h + d.len());
            }
        }
        return None;
    }
    proof {
        assert forall|tv: u64|
            s@ == head@ + #[trigger] dec_digits(tv as int) + "}"@ implies v == tv by {
            let h = head@.len() as int;
            let d = dec_digits(tv as int);
            lemma_dec_digits_read_back(tv as int);
            assert(s@.subrange(h, h + d.len()) =~= d);
            assert forall|k: int| h <= k < h + d.len() implies is_digit_char(
                #[trigger] s@[k],
            ) by {
                assert(s@[k] == d[k - h]);
            }
            assert(s@[h + d.len()] == '}');
            assert(digits_val(s@.subrange(h, h + d.len())) == tv);
        }
    }
    Some(v)
}

/// Match `head + <escaped> + mid + <escaped> + mid2 + <digits> + "}"`, the
/// shape of a chat line.
#[verifier::rlimit(100)]
#[verifier::spinoff_prover]
fn match_str_str_num(s: &str, head: &str, mid: &str, mid2: &str) -> (r: Option<
    (String, String, u64),
>)
    requires
        mid@.len() >= 1,
        mid@[0] == '"',
        mid2@.len() >= 1,
        mid2@[0] == '"',
    ensures
        forall|f1: Seq<char>, f2: Seq<char>, tv: u64|
            s@ == head@ + #[trigger] escape_str(f1) + mid@ + #[trigger] escape_str(f2) + mid2@
                + #[trigger] dec_digits(tv as int) + "}"@ ==> (r matches Some(u) && u.0@ == f1
                && u.1@ == f2 && u.2 == tv),
{
    proof {
        reveal_strlit("}");
    }
    let n: usize = s.unicode_len();
    let mid_rest: &str = mid.substring_char(1, mid.unicode_len());
    let mid2_rest: &str = mid2.substring_char(1, mid2.unicode_len());
    let p = match eat_lit(s, 0, head) {
        Some(p) => p,
        None => {
            proof {
                assert forall|f1: Seq<char>, f2: Seq<char>, tv: u64|
                    s@ == head@ + #[trigger] escape_str(f1) + mid@ + #[trigger] escape_str(f2)
                        + mid2@ + #[trigger] dec_digits(tv as int) + "}"@ implies false by {
                    assert(s@.subrange(0, head@.len() as int) =~= head@);
                }
            }
            return None;
        },
    };
    let fp = match read_string_field(s, p) {
        Some(x) => x,
        None => {
            proof {
                assert forall|f1: Seq<char>, f2: Seq<char>, tv: u64|
                    s@ == head@ + #[trigger] escape_str(f1) + mid@ + #[trigger] escape_str(f2)
                        + mid2@ + #[trigger] dec_digits(tv as int) + "}"@ implies false by {
                    let h = head@.len() as int;
                    let e1 = escape_str(f1);
                    assert(s@.subrange(h, h + e1.len()) =~= e1);
                    assert(s@[h + e1.len()] == mid@[0]);
                    lemma_scan_finds_close(s@, h, f1);
                    lemma_unescape_escape(s@, h, f1);
                }
            }
            return None;
        },
    };
    let f1v = fp.0;
    let p2 = fp.1;
    let p3 = match eat_lit(s, p2, mid_rest) {
        Some(x) => x,
        None => {
            proof {
                assert forall|f1: Seq<char>, f2: Seq<char>, tv: u64|
                    s@ == head@ + #[trigger] escape_str(f1) + mid@ + #[trigger] escape_str(f2)
                        + mid2@ + #[trigger] dec_digits(tv as int) + "}"@ implies false by {
                    let h = head@.len() as int;
                    let e1 = escape_str(f1);
                    assert(s@.subrange(h, h + e1.len()) =~= e1);
                    assert(s@[h + e1.len()] == mid@[0]);
                    lemma_scan_finds_close(s@, h, f1);
                    assert(p2 == h + e1.len() + 1);
                    assert(s@.subrange(p2 as int, p2 + mid_rest@.len()) =~= mid_rest@);
                }
            }
            return None;
        },
    };
    let fp2 = match read_string_field(s, p3) {
        Some(x) => x,
        None => {
            proof {
                assert forall|f1: Seq<char>, f2: Seq<char>, tv: u64|
                    s@ == head@ + #[trigger] escape_str(f1) + mid@ + #[trigger] escape_str(f2)
                        + mid2@ + #[trigger] dec_digits(tv as int) + "}"@ implies false by {
                    let h = head@.len() as int;
                    let e1 = escape_str(f1);
                    let e2 = escape_str(f2);
                    assert(s@.subrange(h, h + e1.len()) =~= e1);
                    assert(s@[h + e1.len()] == mid@[0]);
                    lemma_scan_finds_close(s@, h, f1);
                    assert(p3 == h + e1.len() + mid@.len());
                    assert(s@.subrange(p3 as int, p3 + e2.len()) =~= e2);
                    assert(s@[p3 + e2.len()] == mid2@[0]);
                    lemma_scan_finds_close(s@, p3 as int, f2);
                    lemma_unescape_escape(s@, p3 as int, f2);
                }
            }
            return None;
        },
    };
    let f2v = fp2.0;
    let p4 = fp2.1;
    let p5 = match eat_lit(s, p4, mid2_rest) {
        Some(x) => x,
        None => {
            proof {
                assert forall|f1: Seq<char>, f2: Seq<char>, tv: u64|
                    s@ == head@ + #[trigger] escape_str(f1) + mid@ + #[trigger] escape_str(f2)
                        + mid2@ + #[trigger] dec_digits(tv as int) + "}"@ implies false by {
                    let h = head@.len() as int;
                    let e1 = escape_str(f1);
                    let e2 = escape_str(f2);
                    assert(s@.subrange(h, h + e1.len()) =~= e1);
                    assert(s@[h + e1.len()] == mid@[0]);
                    lemma_scan_finds_close(s@, h, f1);
                    assert(p3 == h + e1.len() + mid@.len());
                    assert(s@.subrange(p3 as int, p3 + e2.len()) =~= e2);
                    assert(s@[p3 + e2.len()] == mid2@[0]);
                    lemma_scan_finds_close(s@, p3 as int, f2);
                    assert(p4 == p3 + e2.len() + 1);
                    assert(s@.subrange(p4 as int, p4 + mid2_rest@.len()) =~= mid2_rest@);
                }
            }
            return None;
        },
    };
    let vp = match read_u64_field(s, p5) {
        Some(x) => x,
        None => {
            proof {
                assert forall|f1: Seq<char>, f2: Seq<char>, tv: u64|
                    s@ == head@ + #[trigger] escape_str(f1) + mid@ + #[trigger] escape_str(f2)
                        + mid2@ + #[trigger] dec_digits(tv as int) + "}"@ implies false by {
                    let h = head@.len() as int;
                    let e1 = escape_str(f1);
                    let e2 = escape_str(f2);
                    let d = dec_digits(tv as int);
                    lemma_dec_digits_read_back(tv as int);
                    assert(s@.subrange(h, h + e1.len()) =~= e1);
                    assert(s@[h + e1.len()] == mid@[0]);
                    lemma_scan_finds_close(s@, h, f1);
                    assert(p3 == h + e1.len() + mid@.len());
                    assert(s@.subrange(p3 as int, p3 + e2.len()) =~= e2);
                    assert(s@[p3 + e2.len()] == mid2@[0]);
                    lemma_scan_finds_close(s@, p3 as int, f2);
                    assert(p5 == p3 + e2.len() + mid2@.len());
                    assert(s@.subrange(p5 as int, p5 + d.len()) =~= d);
                    assert forall|k: int| p5 <= k < p5 + d.len() implies is_digit_char(
                        #[trigger] s@[k],
                    ) by {
                        assert(s@[k] == d[k - p5]);
                    }
                    assert(s@[p5 + d.len()] == '}');
                }
            }
            return None;
        },
    };
    let v = vp.0;
    let p6 = vp.1;
    let p7 = match eat_lit(s, p6, "}") {
        Some(x) => x,
        None => {
            proof {
                assert forall|f1: Seq<char>, f2: Seq<char>, tv: u64|
                    s@ == head@ + #[trigger] escape_str(f1) + mid@ + #[trigger] escape_str(f2)
                        + mid2@ + #[trigger] dec_digits(tv as int) + "}"@ implies false by {
                    let h = head@.len() as int;
                    let e1 = escape_str(f1);
                    let e2 = escape_str(f2);
                    let d = dec_digits(tv as int);
                    lemma_dec_digits_read_back(tv as int);
                    assert(s@.subrange(h, h + e1.len()) =~= e1);
                    assert(s@[h + e1.len()] == mid@[0]);
                    lemma_scan_finds_close(s@, h, f1);
                    assert(p3 == h + e1.len() + mid@.len());
                    assert(s@.subrange(p3 as int, p3 + e2.len()) =~= e2);
                    assert(s@[p3 + e2.len()] == mid2@[0]);
                    lemma_scan_finds_close(s@, p3 as int, f2);
                    assert(p5 == p3 + e2.len() + mid2@.len());
                    assert(s@.subrange(p5 as int, p5 + d.len()) =~= d);
                    assert forall|k: int| p5 <= k < p5 + d.len() implies is_digit_char(
                        #[trigger] s@[k],
                    ) by {
                        assert(s@[k] == d[k - p5]);
                    }
                    assert(s@[p5 + d.len()] == '}');
                    assert(p6 == p5 + d.len());
                    assert(s@.subrange(p6 as int, p6 + 1) =~= "}"@);
                }
            }
            return None;
        },
    };
    if p7 != n {
        proof {
            assert forall|f1: Seq<char>, f2: Seq<char>, tv: u64|
                s@ == head@ + #[trigger] escape_str(f1) + mid@ + #[trigger] escape_str(f2)
                    + mid2@ + #[trigger] dec_digits(tv as int) + "}"@ implies false by {
                let h = head@.len() as int;
                let e1 = escape_str(f1);
                let e2 = escape_str(f2);
                let d = dec_digits(tv as int);
                lemma_dec_digits_read_back(tv as int);
                assert(s@.subrange(h, h + e1.len()) =~= e1);
                assert(s@[h + e1.len()] == mid@[0]);
                lemma_scan_finds_close(s@, h, f1);
                assert(p3 == h + e1.len() + mid@.len());
                assert(s@.subrange(p3 as int, p3 + e2.len()) =~= e2);
                assert(s@[p3 + e2.len()] == mid2@[0]);
                lemma_scan_finds_close(s@, p3 as int, f2);
                assert(p5 == p3 + e2.len() + mid2@.len());
                assert(s@.subrange(p5 as int, p5 + d.len()) =~= d);
                assert forall|k: int| p5 <= k < p5 + d.len() implies is_digit_char(
                    #[trigger] s@[k],
                ) by {
                    assert(s@[k] == d[k - p5]);
                }
                assert(s@[p5 + d.len()] == '}');
                assert(p6 == p5 + d.len());
            }
        }
        return None;
    }
    proof {
        assert forall|f1: Seq<char>, f2: Seq<char>, tv: u64|
            s@ == head@ + #[trigger] escape_str(f1) + mid@ + #[trigger] escape_str(f2) + mid2@
                + #[trigger] dec_digits(tv as int) + "}"@ implies f1v@ == f1 && f2v@ == f2 && v
            == tv by {
            let h = head@.len() as int;
            let e1 = escape_str(f1);
            let e2 = escape_str(f2);
            let d = dec_digits(tv as int);
            lemma_dec_digits_read_back(tv as int);
            assert(s@.subrange(h, h + e1.len()) =~= e1);
            assert(s@[h + e1.len()] == mid@[0]);
            lemma_scan_finds_close(s@, h, f1);
            lemma_unescape_escape(s@, h, f1);
            assert(p3 == h + e1.len() + mid@.len());
            assert(s@.subrange(p3 as int, p3 + e2.len()) =~= e2);
            assert(s@[p3 + e2.len()] == mid2@[0]);
            lemma_scan_finds_close(s@, p3 as int, f2);
            lemma_unescape_escape(s@, p3 as int, f2);
            assert(p5 == p3 + e2.len() + mid2@.len());
            assert(s@.subrange(p5 as int, p5 + d.len()) =~= d);
            assert forall|k: int| p5 <= k < p5 + d.len() implies is_digit_char(
                #[trigger] s@[k],
            ) by {
                assert(s@[k] == d[k - p5]);
            }
            assert(s@[p5 + d.len()] == '}');
            assert(digits_val(s@.subrange(p5 as int, p5 + d.len())) == tv);
        }
    }
    Some((f1v, f2v, v))
}

/// The type tag a message renders with.
pub open spec fn spec_tag(m: SignalingMessage) -> Seq<char> {
    match m {
        SignalingMessage::Chat { .. } => "chat"@,
        SignalingMessage::UserJoined { .. } => "user_joined"@,
        SignalingMessage::UserLeft { .. } => "user_left"@,
        SignalingMessage::Ping { .. } => "ping"@,
        SignalingMessage::Pong { .. } => "pong"@,
        SignalingMessage::PeerOffer { .. } => "peer_offer"@,
        SignalingMessage::PeerAnswer { .. } => "peer_answer"@,
        SignalingMessage::NewPeerAnnounce { .. } => "new_peer_announce"@,
        SignalingMessage::ConnectRequest { .. } => "connect_request"@,
    }
}

/// The type tags this version knows.
pub open spec fn known_tag(t: Seq<char>) -> bool {
    t == "chat"@ || t == "user_joined"@ || t == "user_left"@ || t == "ping"@ || t == "pong"@ || t == "peer_offer"@ || t == "peer_answer"@ || t == "new_peer_announce"@ || t == "connect_request"@
}

/// Every rendered message opens with the type envelope, and scanning from
/// position 9 isolates exactly its tag.
proof fn lemma_render_shape(m: SignalingMessage, s: Seq<char>)
    requires
        s == render(m),
    ensures
        s.len() > 9,
        s.subrange(0, 9) == "{\"type\":\""@,
        spec_scan(s, 9) matches Some(e) && 9 <= e < s.len() && s.subrange(9, e) == spec_tag(m),
{
    reveal_strlit("{\"type\":\"");
    match m {
        SignalingMessage::Chat { .. } => {
            reveal_strlit("{\"type\":\"chat\",\"sender\":\"");
            reveal_strlit("chat");
            reveal_strlit("\",\"sender\":\"");
            assert("{\"type\":\"chat\",\"sender\":\""@ =~= "{\"type\":\""@ + "chat"@ + "\",\"sender\":\""@);
            assert forall|i: int| 0 <= i < 14 implies s[i] == "{\"type\":\"chat\",\"sender\":\""@[i] by {}
            assert(s.subrange(0, 9) =~= "{\"type\":\""@);
            assert(s.subrange(9, 13) =~= "chat"@);
            assert(s[13] == '"');
            assert forall|i: int| 0 <= i < "chat"@.len() implies !is_special(
                #[trigger] "chat"@[i],
            ) by {}
            lemma_escape_plain("chat"@);
            lemma_scan_finds_close(s, 9, "chat"@);
            assert(spec_scan(s, 9) == Some(13int));
        },
        SignalingMessage::UserJoined { .. } => {
            reveal_strlit("{\"type\":\"user_joined\",\"username\":\"");
            reveal_strlit("user_joined");
            reveal_strlit("\",\"username\":\"");
            assert("{\"type\":\"user_joined\",\"username\":\""@ =~= "{\"type\":\""@ + "user_joined"@ + "\",\"username\":\""@);
            assert forall|i: int| 0 <= i < 21 implies s[i] == "{\"type\":\"user_joined\",\"username\":\""@[i] by {}
            assert(s.subrange(0, 9) =~= "{\"type\":\""@);
            assert(s.subrange(9, 20) =~= "user_joined"@);
            assert(s[20] == '"');
            assert forall|i: int| 0 <= i < "user_joined"@.len() implies !is_special(
                #[trigger] "user_joined"@[i],
            ) by {}
            lemma_escape_plain("user_joined"@);
            lemma_scan_finds_close(s, 9, "user_joined"@);
            assert(spec_scan(s, 9) == Some(20int));
        },
        SignalingMessage::UserLeft { .. } => {
            reveal_strlit("{\"type\":\"user_left\",\"username\":\"");
            reveal_strlit("user_left");
            reveal_strlit("\",\"username\":\"");
            assert("{\"type\":\"user_left\",\"username\":\""@ =~= "{\"type\":\""@ + "user_left"@ + "\",\"username\":\""@);
            assert forall|i: int| 0 <= i < 19 implies s[i] == "{\"type\":\"user_left\",\"username\":\""@[i] by {}
            assert(s.subrange(0, 9) =~= "{\"type\":\""@);
            assert(s.subrange(9, 18) =~= "user_left"@);
            assert(s[18] == '"');
            assert forall|i: int| 0 <= i < "user_left"@.len() implies !is_special(
                #[trigger] "user_left"@[i],
            ) by {}
            lemma_escape_plain("user_left"@);
            lemma_scan_finds_close(s, 9, "user_left"@);
            assert(spec_scan(s, 9) == Some(18int));
        },
        SignalingMessage::Ping { .. } => {
            reveal_strlit("{\"type\":\"ping\",\"timestamp\":");
            reveal_strlit("ping");
            reveal_strlit("\",\"timestamp\":");
            assert("{\"type\":\"ping\",\"timestamp\":"@ =~= "{\"type\":\""@ + "ping"@ + "\",\"timestamp\":"@);
            assert forall|i: int| 0 <= i < 14 implies s[i] == "{\"type\":\"ping\",\"timestamp\":"@[i] by {}
            assert(s.subrange(0, 9) =~= "{\"type\":\""@);
            assert(s.subrange(9, 13) =~= "ping"@);
            assert(s[13] == '"');
            assert forall|i: int| 0 <= i < "ping"@.len() implies !is_special(
                #[trigger] "ping"@[i],
            ) by {}
            lemma_escape_plain("ping"@);
            lemma_scan_finds_close(s, 9, "ping"@);
            assert(spec_scan(s, 9) == Some(13int));
        },
        SignalingMessage::Pong { .. } => {
            reveal_strlit("{\"type\":\"pong\",\"timestamp\":");
            reveal_strlit("pong");
            reveal_strlit("\",\"timestamp\":");
            assert("{\"type\":\"pong\",\"timestamp\":"@ =~= "{\"type\":\""@ + "pong"@ + "\",\"timestamp\":"@);
            assert forall|i: int| 0 <= i < 14 implies s[i] == "{\"type\":\"pong\",\"timestamp\":"@[i] by {}
            assert(s.subrange(0, 9) =~= "{\"type\":\""@);
            assert(s.subrange(9, 13) =~= "pong"@);
            assert(s[13] == '"');
            assert forall|i: int| 0 <= i < "pong"@.len() implies !is_special(
                #[trigger] "pong"@[i],
            ) by {}
            lemma_escape_plain("pong"@);
            lemma_scan_finds_close(s, 9, "pong"@);
            assert(spec_scan(s, 9) == Some(13int));
        },
        SignalingMessage::PeerOffer { .. } => {
            reveal_strlit("{\"type\":\"peer_offer\",\"from_peer\":\"");
            reveal_strlit("peer_offer");
            reveal_strlit("\",\"from_peer\":\"");
            assert("{\"type\":\"peer_offer\",\"from_peer\":\""@ =~= "{\"type\":\""@ + "peer_offer"@ + "\",\"from_peer\":\""@);
            assert forall|i: int| 0 <= i < 20 implies s[i] == "{\"type\":\"peer_offer\",\"from_peer\":\""@[i] by {}
            assert(s.subrange(0, 9) =~= "{\"type\":\""@);
            assert(s.subrange(9, 19) =~= "peer_offer"@);
            assert(s[19] == '"');
            assert forall|i: int| 0 <= i < "peer_offer"@.len() implies !is_special(
                #[trigger] "peer_offer"@[i],
            ) by {}
            lemma_escape_plain("peer_offer"@);
            lemma_scan_finds_close(s, 9, "peer_offer"@);
            assert(spec_scan(s, 9) == Some(19int));
        },
        SignalingMessage::PeerAnswer { .. } => {
            reveal_strlit("{\"type\":\"peer_answer\",\"from_peer\":\"");
            reveal_strlit("peer_answer");
            reveal_strlit("\",\"from_peer\":\"");
            assert("{\"type\":\"peer_answer\",\"from_peer\":\""@ =~= "{\"type\":\""@ + "peer_answer"@ + "\",\"from_peer\":\""@);
            assert forall|i: int| 0 <= i < 21 implies s[i] == "{\"type\":\"peer_answer\",\"from_peer\":\""@[i] by {}
            assert(s.subrange(0, 9) =~= "{\"type\":\""@);
            assert(s.subrange(9, 20) =~= "peer_answer"@);
            assert(s[20] == '"');
            assert forall|i: int| 0 <= i < "peer_answer"@.len() implies !is_special(
                #[trigger] "peer_answer"@[i],
            ) by {}
            lemma_escape_plain("peer_answer"@);
            lemma_scan_finds_close(s, 9, "peer_answer"@);
            assert(spec_scan(s, 9) == Some(20int));
        },
        SignalingMessage::NewPeerAnnounce { .. } => {
            reveal_strlit("{\"type\":\"new_peer_announce\",\"username\":\"");
            reveal_strlit("new_peer_announce");
            reveal_strlit("\",\"username\":\"");
            assert("{\"type\":\"new_peer_announce\",\"username\":\""@ =~= "{\"type\":\""@ + "new_peer_announce"@ + "\",\"username\":\""@);
            assert forall|i: int| 0 <= i < 27 implies s[i] == "{\"type\":\"new_peer_announce\",\"username\":\""@[i] by {}
            assert(s.subrange(0, 9) =~= "{\"type\":\""@);
            assert(s.subrange(9, 26) =~= "new_peer_announce"@);
            assert(s[26] == '"');
            assert forall|i: int| 0 <= i < "new_peer_announce"@.len() implies !is_special(
                #[trigger] "new_peer_announce"@[i],
            ) by {}
            lemma_escape_plain("new_peer_announce"@);
            lemma_scan_finds_close(s, 9, "new_peer_announce"@);
            assert(spec_scan(s, 9) == Some(26int));
        },
        SignalingMessage::ConnectRequest { .. } => {
            reveal_strlit("{\"type\":\"connect_request\",\"peer_id\":\"");
            reveal_strlit("connect_request");
            reveal_strlit("\",\"peer_id\":\"");
            assert("{\"type\":\"connect_request\",\"peer_id\":\""@ =~= "{\"type\":\""@ + "connect_request"@ + "\",\"peer_id\":\""@);
            assert forall|i: int| 0 <= i < 25 implies s[i] == "{\"type\":\"connect_request\",\"peer_id\":\""@[i] by {}
            assert(s.subrange(0, 9) =~= "{\"type\":\""@);
            assert(s.subrange(9, 24) =~= "connect_request"@);
            assert(s[24] == '"');
            assert forall|i: int| 0 <= i < "connect_request"@.len() implies !is_special(
                #[trigger] "connect_request"@[i],
            ) by {}
            lemma_escape_plain("connect_request"@);
            lemma_scan_finds_close(s, 9, "connect_request"@);
            assert(spec_scan(s, 9) == Some(24int));
        },
    }
}

/// A scanned tag pins the message's variant.
proof fn lemma_tag_variant(m: SignalingMessage, t: Seq<char>)
    requires
        t == spec_tag(m),
    ensures
        t == "chat"@ ==> m matches SignalingMessage::Chat { .. },
        t == "user_joined"@ ==> m matches SignalingMessage::UserJoined { .. },
        t == "user_left"@ ==> m matches SignalingMessage::UserLeft { .. },
        t == "ping"@ ==> m matches SignalingMessage::Ping { .. },
        t == "pong"@ ==> m matches SignalingMessage::Pong { .. },
        t == "peer_offer"@ ==> m matches SignalingMessage::PeerOffer { .. },
        t == "peer_answer"@ ==> m matches SignalingMessage::PeerAnswer { .. },
        t == "new_peer_announce"@ ==> m matches SignalingMessage::NewPeerAnnounce { .. },
        t == "connect_request"@ ==> m matches SignalingMessage::ConnectRequest { .. },
{
    reveal_strlit("chat");
    reveal_strlit("user_joined");
    reveal_strlit("user_left");
    reveal_strlit("ping");
    reveal_strlit("pong");
    reveal_strlit("peer_offer");
    reveal_strlit("peer_answer");
    reveal_strlit("new_peer_announce");
    reveal_strlit("connect_request");
    assert("chat"@.len() == 4 && "ping"@.len() == 4 && "pong"@.len() == 4);
    assert("user_joined"@.len() == 11 && "peer_answer"@.len() == 11);
    assert("user_left"@.len() == 9 && "peer_offer"@.len() == 10);
    assert("new_peer_announce"@.len() == 17 && "connect_request"@.len() == 15);
    assert("chat"@[0] == 'c' && "ping"@[0] == 'p' && "pong"@[0] == 'p');
    assert("ping"@[1] == 'i' && "pong"@[1] == 'o');
    assert("user_joined"@[0] == 'u' && "peer_answer"@[0] == 'p');
    match m {
        SignalingMessage::Chat { .. } => {
            assert(t == "chat"@);
        },
        SignalingMessage::UserJoined { .. } => {
            assert(t == "user_joined"@);
        },
        SignalingMessage::UserLeft { .. } => {
            assert(t == "user_left"@);
        },
        SignalingMessage::Ping { .. } => {
            assert(t == "ping"@);
        },
        SignalingMessage::Pong { .. } => {
            assert(t == "pong"@);
        },
        SignalingMessage::PeerOffer { .. } => {
            assert(t == "peer_offer"@);
        },
        SignalingMessage::PeerAnswer { .. } => {
            assert(t == "peer_answer"@);
        },
        SignalingMessage::NewPeerAnnounce { .. } => {
            assert(t == "new_peer_announce"@);
        },
        SignalingMessage::ConnectRequest { .. } => {
            assert(t == "connect_request"@);
        },
    }
}

/// Read one control message. A canonical member of the known set always
/// parses back (reconstruction is checked against the canonical rendering);
/// a well-shaped envelope with an unknown tag is reported `Unknown` so the
/// caller ignores it rather than treating it as fatal; anything else is
/// `Invalid`.
#[verifier::rlimit(100)]
#[verifier::spinoff_prover]
pub fn parse_message(s: &str) -> (r: ParseOutcome)
    ensures
        r matches ParseOutcome::Message(m) ==> s@ == render(m),
        (exists|m: SignalingMessage| s@ == render(m)) ==> (r matches ParseOutcome::Message(m2)
            && s@ == render(m2)),
        r is Unknown ==> s@.len() > 9 && s@.subrange(0, 9) == "{\"type\":\""@ && (spec_scan(
            s@,
            9,
        ) matches Some(e) && !known_tag(s@.subrange(9, e))),
{
    let ghost canon = exists|m: SignalingMessage| s@ == render(m);
    let ghost mw: SignalingMessage = if canon {
        choose|m: SignalingMessage| s@ == render(m)
    } else {
        SignalingMessage::Ping { timestamp: 0 }
    };
    proof {
        if canon {
            lemma_render_shape(mw, s@);
        }
        reveal_strlit("chat");
        reveal_strlit("user_joined");
        reveal_strlit("user_left");
        reveal_strlit("ping");
        reveal_strlit("pong");
        reveal_strlit("peer_offer");
        reveal_strlit("peer_answer");
        reveal_strlit("new_peer_announce");
        reveal_strlit("connect_request");
        reveal_strlit("{\"type\":\"");
    }
    let p0 = match eat_lit(s, 0, "{\"type\":\"") {
        Some(p) => p,
        None => {
            proof {
                if canon {
                    reveal_strlit("{\"type\":\"");
                    assert(s@.subrange(0, 9) == "{\"type\":\""@);
                    assert(false);
                }
            }
            return ParseOutcome::Invalid;
        },
    };
    let tag_end = match scan_string_end(s, p0) {
        Some(p) => p,
        None => {
            proof {
                if canon {
                    assert(false);
                }
            }
            return ParseOutcome::Invalid;
        },
    };
    let tag: &str = s.substring_char(p0, tag_end);
    proof {
        if canon {
            assert(tag@ == spec_tag(mw));
        }
    }
    if str_eq(tag, "chat") {
        proof {
            if canon {
                lemma_tag_variant(mw, tag@);
                assert(mw matches SignalingMessage::Chat { .. });
            }
        }
        proof {
            reveal_strlit("\",\"content\":\"");
            reveal_strlit("\",\"timestamp\":");
        }
        match match_str_str_num(s, "{\"type\":\"chat\",\"sender\":\"", "\",\"content\":\"", "\",\"timestamp\":") {
            Some(u) => {
                let r = accept_if_canonical(
                    s,
                    SignalingMessage::Chat { sender: u.0, content: u.1, timestamp: u.2 },
                );
                proof {
                    if canon {
                        if let SignalingMessage::Chat { sender, content, timestamp } = mw {
                            assert(s@ == render(mw));
                        }
                    }
                }
                r
            },
            None => {
                proof {
                    if canon {
                        if let SignalingMessage::Chat { sender, content, timestamp } = mw {
                            assert(s@ == render(mw));
                            assert(false);
                        }
                    }
                }
                ParseOutcome::Invalid
            },
        }
    } else if str_eq(tag, "user_joined") {
        proof {
            if canon {
                lemma_tag_variant(mw, tag@);
                assert(mw matches SignalingMessage::UserJoined { .. });
            }
        }
        match match_str(s, "{\"type\":\"user_joined\",\"username\":\"") {
            Some(u) => {
                let r = accept_if_canonical(s, SignalingMessage::UserJoined { username: u });
                proof {
                    if canon {
                        if let SignalingMessage::UserJoined { username } = mw {
                            assert(s@ == render(mw));
                        }
                    }
                }
                r
            },
            None => {
                proof {
                    if canon {
                        if let SignalingMessage::UserJoined { username } = mw {
                            assert(s@ == render(mw));
                            assert(false);
                        }
                    }
                }
                ParseOutcome::Invalid
            },
        }
    } else if str_eq(tag, "user_left") {
        proof {
            if canon {
                lemma_tag_variant(mw, tag@);
                assert(mw matches SignalingMessage::UserLeft { .. });
            }
        }
        match match_str(s, "{\"type\":\"user_left\",\"username\":\"") {
            Some(u) => {
                let r = accept_if_canonical(s, SignalingMessage::UserLeft { username: u });
                proof {
                    if canon {
                        if let SignalingMessage::UserLeft { username } = mw {
                            assert(s@ == render(mw));
                        }
                    }
                }
                r
            },
            None => {
                proof {
                    if canon {
                        if let SignalingMessage::UserLeft { username } = mw {
                            assert(s@ == render(mw));
                            assert(false);
                        }
                    }
                }
                ParseOutcome::Invalid
            },
        }
    } else if str_eq(tag, "ping") {
        proof {
            if canon {
                lemma_tag_variant(mw, tag@);
                assert(mw matches SignalingMessage::Ping { .. });
            }
        }
        match match_num(s, "{\"type\":\"ping\",\"timestamp\":") {
            Some(v) => {
                let r = accept_if_canonical(s, SignalingMessage::Ping { timestamp: v });
                proof {
                    if canon {
                        if let SignalingMessage::Ping { timestamp } = mw {
                            assert(s@ == render(mw));
                        }
                    }
                }
                r
            },
            None => {
                proof {
                    if canon {
                        if let SignalingMessage::Ping { timestamp } = mw {
                            assert(s@ == render(mw));
                            assert(false);
                        }
                    }
                }
                ParseOutcome::Invalid
            },
        }
    } else if str_eq(tag, "pong") {
        proof {
            if canon {
                lemma_tag_variant(mw, tag@);
                assert(mw matches SignalingMessage::Pong { .. });
            }
        }
        match match_num(s, "{\"type\":\"pong\",\"timestamp\":") {
            Some(v) => {
                let r = accept_if_canonical(s, SignalingMessage::Pong { timestamp: v });
                proof {
                    if canon {
                        if let SignalingMessage::Pong { timestamp } = mw {
                            assert(s@ == render(mw));
                        }
                    }
                }
                r
            },
            None => {
                proof {
                    if canon {
                        if let SignalingMessage::Pong { timestamp } = mw {
                            assert(s@ == render(mw));
                            assert(false);
                        }
                    }
                }
                ParseOutcome::Invalid
            },
        }
    } else if str_eq(tag, "peer_offer") {
        proof {
            if canon {
                lemma_tag_variant(mw, tag@);
                assert(mw matches SignalingMessage::PeerOffer { .. });
            }
        }
        proof {
            reveal_strlit("\",\"sdp_base64\":\"");
        }
        match match_str_str(s, "{\"type\":\"peer_offer\",\"from_peer\":\"", "\",\"sdp_base64\":\"") {
            Some(u) => {
                let r = accept_if_canonical(
                    s,
                    SignalingMessage::PeerOffer { from_peer: u.0, sdp_base64: u.1 },
                );
                proof {
                    if canon {
                        if let SignalingMessage::PeerOffer { from_peer, sdp_base64 } = mw {
                            assert(s@ == render(mw));
                        }
                    }
                }
                r
            },
            None => {
                proof {
                    if canon {
                        if let SignalingMessage::PeerOffer { from_peer, sdp_base64 } = mw {
                            assert(s@ == render(mw));
                            assert(false);
                        }
                    }
                }
                ParseOutcome::Invalid
            },
        }
    } else if str_eq(tag, "peer_answer") {
        proof {
            if canon {
                lemma_tag_variant(mw, tag@);
                assert(mw matches SignalingMessage::PeerAnswer { .. });
            }
        }
        proof {
            reveal_strlit("\",\"sdp_base64\":\"");
        }
        match match_str_str(s, "{\"type\":\"peer_answer\",\"from_peer\":\"", "\",\"sdp_base64\":\"") {
            Some(u) => {
                let r = accept_if_canonical(
                    s,
                    SignalingMessage::PeerAnswer { from_peer: u.0, sdp_base64: u.1 },
                );
                proof {
                    if canon {
                        if let SignalingMessage::PeerAnswer { from_peer, sdp_base64 } = mw {
                            assert(s@ == render(mw));
                        }
                    }
                }
                r
            },
            None => {
                proof {
                    if canon {
                        if let SignalingMessage::PeerAnswer { from_peer, sdp_base64 } = mw {
                            assert(s@ == render(mw));
                            assert(false);
                        }
                    }
                }
                ParseOutcome::Invalid
            },
        }
    } else if str_eq(tag, "new_peer_announce") {
        proof {
            if canon {
                lemma_tag_variant(mw, tag@);
                assert(mw matches SignalingMessage::NewPeerAnnounce { .. });
            }
        }
        match match_str(s, "{\"type\":\"new_peer_announce\",\"username\":\"") {
            Some(u) => {
                let r = accept_if_canonical(s, SignalingMessage::NewPeerAnnounce { username: u });
                proof {
                    if canon {
                        if let SignalingMessage::NewPeerAnnounce { username } = mw {
                            assert(s@ == render(mw));
                        }
                    }
                }
                r
            },
            None => {
                proof {
                    if canon {
                        if let SignalingMessage::NewPeerAnnounce { username } = mw {
                            assert(s@ == render(mw));
                            assert(false);
                        }
                    }
                }
                ParseOutcome::Invalid
            },
        }
    } else if str_eq(tag, "connect_request") {
        proof {
            if canon {
                lemma_tag_variant(mw, tag@);
                assert(mw matches SignalingMessage::ConnectRequest { .. });
            }
        }
        proof {
            reveal_strlit("\",\"peer_username\":\"");
        }
        match match_str_str(s, "{\"type\":\"connect_request\",\"peer_id\":\"", "\",\"peer_username\":\"") {
            Some(u) => {
                let r = accept_if_canonical(
                    s,
                    SignalingMessage::ConnectRequest { peer_id: u.0, peer_username: u.1 },
                );
                proof {
                    if canon {
                        if let SignalingMessage::ConnectRequest { peer_id, peer_username } = mw {
                            assert(s@ == render(mw));
                        }
                    }
                }
                r
            },
            None => {
                proof {
                    if canon {
                        if let SignalingMessage::ConnectRequest { peer_id, peer_username } = mw {
                            assert(s@ == render(mw));
                            assert(false);
                        }
                    }
                }
                ParseOutcome::Invalid
            },
        }
    } else {
        proof {
            if canon {
                reveal_strlit("chat");
                reveal_strlit("user_joined");
                reveal_strlit("user_left");
                reveal_strlit("ping");
                reveal_strlit("pong");
                reveal_strlit("peer_offer");
                reveal_strlit("peer_answer");
                reveal_strlit("new_peer_announce");
                reveal_strlit("connect_request");
                match mw {
                    SignalingMessage::Chat { .. } => {
                        assert(tag@ == "chat"@);
                        assert(false);
                    },
                    SignalingMessage::UserJoined { .. } => {
                        assert(tag@ == "user_joined"@);
                        assert(false);
                    },
                    SignalingMessage::UserLeft { .. } => {
                        assert(tag@ == "user_left"@);
                        assert(false);
                    },
                    SignalingMessage::Ping { .. } => {
                        assert(tag@ == "ping"@);
                        assert(false);
                    },
                    SignalingMessage::Pong { .. } => {
                        assert(tag@ == "pong"@);
                        assert(false);
                    },
                    SignalingMessage::PeerOffer { .. } => {
                        assert(tag@ == "peer_offer"@);
                        assert(false);
                    },
                    SignalingMessage::PeerAnswer { .. } => {
                        assert(tag@ == "peer_answer"@);
                        assert(false);
                    },
                    SignalingMessage::NewPeerAnnounce { .. } => {
                        assert(tag@ == "new_peer_announce"@);
                        assert(false);
                    },
                    SignalingMessage::ConnectRequest { .. } => {
                        assert(tag@ == "connect_request"@);
                        assert(false);
                    },
                }
            }
            assert(!known_tag(s@.subrange(p0 as int, tag_end as int)));
        }
        ParseOutcome::Unknown
    }
}

} // verus!

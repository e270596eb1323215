//! The Hoppie ACARS wire formats: the poll response and the CPDLC packet.
//!
//! A poll answer reads `ok {FROM type {packet}}{...}`; a CPDLC packet reads
//! `/data2/{min}/{mrn}/{response_attr}/{message_text}`. The HTTP transport
//! itself lives with the application; this module parses what it reads and
//! frames what it sends.
use vstd::prelude::*;
use vstd::string::*;
use crate::text::{all_ascii, ascii_lower, find_char, lemma_find_char_facts, 
    chars_of, find_char_in, lemma_find_char_none, lemma_find_char_some, range_eq,
    range_starts_with, skip_blanks, split_once, strip_prefix, substring, to_lowercase, trim,
    trim_bounds, lower_text, is_ws, trim_start, trim_end, is_first_char,
};

verus! {

broadcast use vstd::string::group_string_axioms;

/// Hoppie message types relevant to the bridge.
#[derive(Debug, Clone, PartialEq, Eq)]
pub enum HoppieMessageType {
    /// CPDLC message.
    Cpdlc,
    /// Free-text telex.
    Telex,
    /// Unknown / unsupported type (held in lower case).
    Other(String),
}

/// A message type as the library reasons about it.
pub enum HoppieTypeView {
    Cpdlc,
    Telex,
    /// Any other type word, in lower case.
    Other(Seq<char>),
}

impl View for HoppieMessageType {
    type V = HoppieTypeView;

    open spec fn view(&self) -> HoppieTypeView {
        match self {
            HoppieMessageType::Cpdlc => HoppieTypeView::Cpdlc,
            HoppieMessageType::Telex => HoppieTypeView::Telex,
            HoppieMessageType::Other(s) => HoppieTypeView::Other(s@),
        }
    }
}

/// The type that a lower-case type word names.
pub open spec fn type_of_word(lower: Seq<char>) -> HoppieTypeView {
    if lower == "cpdlc"@ {
        HoppieTypeView::Cpdlc
    } else if lower == "telex"@ {
        HoppieTypeView::Telex
    } else {
        HoppieTypeView::Other(lower)
    }
}

/// The type word of a message type on the wire.
pub open spec fn type_word(t: HoppieTypeView) -> Seq<char> {
    match t {
        HoppieTypeView::Cpdlc => "cpdlc"@,
        HoppieTypeView::Telex => "telex"@,
        HoppieTypeView::Other(s) => s,
    }
}

impl HoppieMessageType {
    /// Classify a type word; the comparison ignores case, and any other
    /// word is kept in lower case.
    pub fn from_str(s: &str) -> (r: HoppieMessageType)
        ensures
            r@ == type_of_word(lower_text(s@)),
    {
        let lower = to_lowercase(s);
        HoppieMessageType::from_lower(lower)
    }

    /// Classify a lower-case type word.
    pub fn from_lower(lower: String) -> (r: HoppieMessageType)
        ensures
            r@ == type_of_word(lower@),
    {
        proof {
            reveal_strlit("cpdlc");
            reveal_strlit("telex");
            assert("cpdlc"@[0] != "telex"@[0]);
        }
        let v = chars_of(lower.as_str());
        if range_eq(&v, 0, v.len(), "cpdlc") {
            proof {
                assert(v@.subrange(0, v@.len() as int) =~= v@);
            }
            HoppieMessageType::Cpdlc
        } else if range_eq(&v, 0, v.len(), "telex") {
            proof {
                assert(v@.subrange(0, v@.len() as int) =~= v@);
            }
            HoppieMessageType::Telex
        } else {
            proof {
                assert(v@.subrange(0, v@.len() as int) =~= v@);
            }
            HoppieMessageType::Other(lower)
        }
    }

    /// The string representation suitable for the Hoppie API.
    pub fn as_str(&self) -> (r: &str)
        ensures
            r@ == type_word(self@),
    {
        match self {
            HoppieMessageType::Cpdlc => "cpdlc",
            HoppieMessageType::Telex => "telex",
            HoppieMessageType::Other(s) => s.as_str(),
        }
    }

    /// Whether this is the CPDLC type.
    pub fn is_cpdlc(&self) -> (r: bool)
        ensures
            r == (self is Cpdlc),
    {
        match self {
            HoppieMessageType::Cpdlc => true,
            _ => false,
        }
    }
}

/// A parsed message received from Hoppie.
#[derive(Debug, Clone)]
pub struct HoppieMessage {
    /// Sender callsign.
    pub from: String,
    /// Message type (cpdlc, telex, etc.).
    pub msg_type: HoppieMessageType,
    /// Raw packet data.
    pub packet: String,
}

/// The content of a Hoppie message: sender, type, packet.
pub struct HoppieMessageView {
    pub from: Seq<char>,
    pub msg_type: HoppieTypeView,
    pub packet: Seq<char>,
}

impl View for HoppieMessage {
    type V = HoppieMessageView;

    open spec fn view(&self) -> HoppieMessageView {
        HoppieMessageView { from: self.from@, msg_type: self.msg_type@, packet: self.packet@ }
    }
}

/// What a failed Hoppie exchange reports.
#[derive(Debug, Clone)]
pub enum HoppieError {
    /// The poll response does not start with `ok`; holds the trimmed response.
    UnexpectedResponse(String),
}

/// `t` with one enclosing pair of braces removed, when it has one.
pub open spec fn unwrap_braces(t: Seq<char>) -> Seq<char> {
    if t.len() >= 2 && t[0] == '{' && t.last() == '}' {
        t.subrange(1, t.len() - 1)
    } else {
        t
    }
}

/// A message block `CALLSIGN type {packet}` (or `CALLSIGN type packet`).
pub open spec fn spec_message_block(block: Seq<char>) -> Option<HoppieMessageView> {
    match split_once(block, ' ') {
        None => None,
        Some((from, rest)) => match split_once(rest, ' ') {
            None => None,
            Some((ty, raw)) => Some(
                HoppieMessageView {
                    from: from,
                    msg_type: type_of_word(lower_text(ty)),
                    packet: unwrap_braces(trim(raw)),
                },
            ),
        },
    }
}

/// Brace depth after reading `s`, starting inside one open brace.
pub open spec fn brace_depth(s: Seq<char>) -> int
    decreases s.len(),
{
    if s.len() == 0 {
        1
    } else {
        brace_depth(s.drop_last()) + (if s.last() == '{' {
            1int
        } else if s.last() == '}' {
            -1int
        } else {
            0int
        })
    }
}

/// `e` is the index of the brace that closes the block `s` is inside.
pub open spec fn is_block_end(s: Seq<char>, e: int) -> bool {
    &&& 0 <= e < s.len()
    &&& brace_depth(s.take(e + 1)) == 0
    &&& forall|k: int| 0 <= k < e ==> brace_depth(#[trigger] s.take(k + 1)) != 0
}

/// The index of the brace that closes the block `s` is inside, if any.
pub open spec fn block_end(s: Seq<char>) -> Option<int> {
    if exists|e: int| is_block_end(s, e) {
        Some(choose|e: int| is_block_end(s, e))
    } else {
        None
    }
}

pub proof fn lemma_skip_blanks_len(s: Seq<char>)
    ensures
        skip_blanks(s).len() <= s.len(),
    decreases s.len(),
{
    if s.len() > 0 && (s[0] == ' ' || s[0] == '\n') {
        lemma_skip_blanks_len(s.drop_first());
    }
}

/// The messages of a poll response body, after its leading `ok`:
/// blocks `{...}` separated by blanks, read until the text stops being a block.
pub open spec fn poll_messages(rem: Seq<char>) -> Seq<HoppieMessageView>
    decreases rem.len(),
{
    let r = skip_blanks(rem);
    if r.len() == 0 || r[0] != '{' {
        seq![]
    } else {
        let inner = r.drop_first();
        match block_end(inner) {
            None => seq![],
            Some(e) => {
                proof {
                    lemma_skip_blanks_len(rem);
                }
                let rest = inner.skip(e + 1);
                let tail = poll_messages(rest);
                match spec_message_block(trim(inner.take(e))) {
                    Some(m) => seq![m] + tail,
                    None => tail,
                }
            },
        }
    }
}

/// A poll response: `ok` or `ok {}` carry no messages; any other text that
/// starts with `ok` carries the blocks that follow; anything else is an error
/// holding the trimmed response.
pub open spec fn spec_poll_response(body: Seq<char>) -> Result<Seq<HoppieMessageView>, Seq<char>> {
    let b = trim(body);
    if b == "ok"@ || b == "ok {}"@ {
        Ok(seq![])
    } else if !"ok"@.is_prefix_of(b) {
        Err(b)
    } else {
        Ok(poll_messages(trim(b.skip(2))))
    }
}

/// The views of a list of messages.
pub open spec fn messages_view(ms: Seq<HoppieMessage>) -> Seq<HoppieMessageView> {
    ms.map_values(|m: HoppieMessage| m@)
}

/// Parse a single message block: `CALLSIGN type {packet}` or `CALLSIGN type packet`.
#[verifier::rlimit(40)]
pub fn parse_message_block(block: &str) -> (r: Option<HoppieMessage>)
    ensures
        match r {
            Some(m) => spec_message_block(block@) == Some(m@),
            None => spec_message_block(block@) is None,
        },
{
    let v = chars_of(block);
    let n = v.len();
    let p1 = match find_char_in(&v, 0, n, ' ') {
        Some(p) => p,
        None => {
            proof {
                assert(v@.subrange(0, n as int) =~= v@);
                lemma_find_char_none(v@, ' ');
            }
            return None;
        },
    };
    proof {
        assert(v@.subrange(0, n as int) =~= v@);
        lemma_find_char_some(v@, ' ', p1 as int);
        assert(v@.skip(p1 + 1) =~= v@.subrange(p1 + 1, n as int));
    }
    let p2 = match find_char_in(&v, p1 + 1, n, ' ') {
        Some(p) => p,
        None => {
            proof {
                lemma_find_char_none(v@.subrange(p1 + 1, n as int), ' ');
            }
            return None;
        },
    };
    let ghost rest = v@.subrange(p1 + 1, n as int);
    proof {
        lemma_find_char_some(rest, ' ', p2 - (p1 + 1));
        assert(rest.take(p2 - (p1 + 1)) =~= v@.subrange(p1 + 1, p2 as int));
        assert(rest.skip(p2 - (p1 + 1) + 1) =~= v@.subrange(p2 + 1, n as int));
        assert(v@.take(p1 as int) =~= v@.subrange(0, p1 as int));
    }
    let from = substring(block, 0, p1);
    let ty = substring(block, p1 + 1, p2);
    let msg_type = HoppieMessageType::from_str(ty.as_str());
    let (a, b) = trim_bounds(&v, p2 + 1, n);
    let packet = if b - a >= 2 && v[a] == '{' && v[b - 1] == '}' {
        proof {
            assert(v@.subrange(a as int, b as int).subrange(1, (b - a) - 1) =~= v@.subrange(
                a + 1,
                b - 1,
            ));
        }
        substring(block, a + 1, b - 1)
    } else {
        substring(block, a, b)
    };
    Some(HoppieMessage { from, msg_type, packet })
}

/// The index, inside `v[..hi]`, of the brace that closes the block opened
/// just before `from`.
fn find_block_end(v: &Vec<char>, from: usize, hi: usize) -> (r: Option<usize>)
    requires
        from <= hi <= v@.len(),
    ensures
        match r {
            Some(e) => from <= e < hi && block_end(v@.subrange(from as int, hi as int)) == Some(
                (e - from) as int,
            ),
            None => block_end(v@.subrange(from as int, hi as int)) is None,
        },
{
    let ghost s = v@.subrange(from as int, hi as int);
    let mut depth: u128 = 1;
    let mut i = from;
    proof {
        assert(s.take(0) =~= Seq::<char>::empty());
    }
    while i < hi
        invariant
            from <= i <= hi <= v@.len(),
            s == v@.subrange(from as int, hi as int),
            depth as int == brace_depth(s.take(i - from)),
            1 <= depth <= i - from + 1,
            forall|k: int| 0 <= k < i - from ==> brace_depth(#[trigger] s.take(k + 1)) != 0,
        decreases hi - i,
    {
        let ghost k = i - from;
        proof {
            assert(s.take(k + 1).drop_last() =~= s.take(k));
            assert(s.take(k + 1).last() == v@[i as int]);
        }
        if v[i] == '{' {
            depth = depth + 1;
        } else if v[i] == '}' {
            depth = depth - 1;
            if depth == 0 {
                proof {
                    assert(is_block_end(s, k));
                    let c = choose|e: int| is_block_end(s, e);
                    if c < k {
                        assert(brace_depth(s.take(c + 1)) != 0);
                    }
                    if k < c {
                        assert(brace_depth(s.take(k + 1)) != 0);
                    }
                }
                return Some(i);
            }
        }
        i = i + 1;
    }
    proof {
        if exists|e: int| is_block_end(s, e) {
            let c = choose|e: int| is_block_end(s, e);
            assert(brace_depth(s.take(c + 1)) != 0);
        }
    }
    None
}

/// Parse the Hoppie poll response format.
///
/// Format: `ok {messages}` or `ok` (no messages). Each message block reads
/// `{from type {packet}}`; blocks follow one another, separated by blanks.
pub fn parse_poll_response(body: &str) -> (r: Result<Vec<HoppieMessage>, HoppieError>)
    ensures
        match spec_poll_response(body@) {
            Ok(ms) => r is Ok && messages_view(r->Ok_0@) == ms,
            Err(t) => r matches Err(HoppieError::UnexpectedResponse(s)) && s@ == t,
        },
{
    let v = chars_of(body);
    let n = v.len();
    let (a, b) = trim_bounds(&v, 0, n);
    proof {
        assert(v@.subrange(0, n as int) =~= v@);
    }
    let ghost tb = v@.subrange(a as int, b as int);
    if range_eq(&v, a, b, "ok") || range_eq(&v, a, b, "ok {}") {
        proof {
            assert(messages_view(Seq::<HoppieMessage>::empty()) =~= seq![]);
        }
        return Ok(Vec::new());
    }
    if !range_starts_with(&v, a, b, "ok") {
        return Err(HoppieError::UnexpectedResponse(substring(body, a, b)));
    }
    proof {
        reveal_strlit("ok");
        assert(tb.skip(2) =~= v@.subrange(a + 2, b as int));
    }
    let (c0, c1) = trim_bounds(&v, a + 2, b);
    let ghost content = v@.subrange(c0 as int, c1 as int);
    let mut messages: Vec<HoppieMessage> = Vec::new();
    let mut pos = c0;
    proof {
        assert(messages_view(messages@) =~= seq![]);
        assert(messages_view(messages@) + poll_messages(content) =~= poll_messages(content));
    }
    loop
        invariant
            c0 <= pos <= c1 <= v@.len(),
            content == v@.subrange(c0 as int, c1 as int),
            v@ == body@,
            spec_poll_response(body@) == Ok::<Seq<HoppieMessageView>, Seq<char>>(
                poll_messages(content),
            ),
            messages_view(messages@) + poll_messages(v@.subrange(pos as int, c1 as int))
                == poll_messages(content),
        decreases c1 - pos,
    {
        let ghost rem = v@.subrange(pos as int, c1 as int);
        let mut q = pos;
        while q < c1 && (v[q] == ' ' || v[q] == '\n')
            invariant
                pos <= q <= c1 <= v@.len(),
                skip_blanks(rem) == skip_blanks(v@.subrange(q as int, c1 as int)),
                rem == v@.subrange(pos as int, c1 as int),
            decreases c1 - q,
        {
            proof {
                assert(v@.subrange(q as int, c1 as int).drop_first() =~= v@.subrange(
                    q + 1,
                    c1 as int,
                ));
            }
            q = q + 1;
        }
        let ghost r = v@.subrange(q as int, c1 as int);
        assert(skip_blanks(rem) == r);
        if q == c1 || v[q] != '{' {
            proof {
                assert(poll_messages(rem) =~= seq![]);
                assert(messages_view(messages@) + poll_messages(rem) =~= messages_view(
                    messages@,
                ));
            }
            return Ok(messages);
        }
        let ghost inner = v@.subrange(q + 1, c1 as int);
        proof {
            assert(r.drop_first() =~= inner);
        }
        let e = match find_block_end(&v, q + 1, c1) {
            Some(e) => e,
            None => {
                proof {
                    assert(poll_messages(rem) =~= seq![]);
                    assert(messages_view(messages@) + poll_messages(rem) =~= messages_view(
                        messages@,
                    ));
                }
                return Ok(messages);
            },
        };
        let ghost el = (e - (q + 1)) as int;
        proof {
            assert(inner.take(el) =~= v@.subrange(q + 1, e as int));
            assert(inner.skip(el + 1) =~= v@.subrange(e + 1, c1 as int));
        }
        let (ba, bb) = trim_bounds(&v, q + 1, e);
        let block = substring(body, ba, bb);
        let parsed = parse_message_block(block.as_str());
        let ghost tail = poll_messages(v@.subrange(e + 1, c1 as int));
        let ghost before = messages_view(messages@);
        proof {
            assert(block@ == trim(inner.take(el)));
            assert(block_end(inner) == Some(el));
            assert(r[0] == '{');
        }
        match parsed {
            Some(m) => {
                proof {
                    assert(poll_messages(rem) == seq![m@] + tail);
                }
                messages.push(m);
                proof {
                    assert(messages_view(messages@) =~= before.push(m@));
                    assert(messages_view(messages@) + tail =~= before + (seq![m@] + tail));
                }
            },
            None => {
                proof {
                    assert(poll_messages(rem) == tail);
                }
            },
        }
        pos = e + 1;
    }
}

/// Whether Hoppie accepted a sent message: its answer starts with `ok`.
pub fn send_accepted(body: &str) -> (r: bool)
    ensures
        r == "ok"@.is_prefix_of(body@),
{
    let v = chars_of(body);
    let r = range_starts_with(&v, 0, v.len(), "ok");
    proof {
        assert(v@.subrange(0, v@.len() as int) =~= v@);
    }
    r
}

/// A parsed Hoppie CPDLC packet (`/data2/...` format).
#[derive(Debug, Clone)]
pub struct HoppieCpdlcPacket {
    /// Message Identification Number (running counter).
    pub min: String,
    /// Message Reference Number (the MIN of the message being replied to).
    pub mrn: Option<String>,
    /// Response attribute code (Y, N, WU, AN, R, NE).
    pub response_attr: String,
    /// The rendered message text (e.g. "CLIMB TO FL350", "WILCO", "REQUEST LOGON").
    pub body: String,
}

/// The fields of a CPDLC packet.
pub struct CpdlcPacketView {
    pub min: Seq<char>,
    pub mrn: Option<Seq<char>>,
    pub response_attr: Seq<char>,
    pub body: Seq<char>,
}

impl View for HoppieCpdlcPacket {
    type V = CpdlcPacketView;

    open spec fn view(&self) -> CpdlcPacketView {
        CpdlcPacketView {
            min: self.min@,
            mrn: match self.mrn {
                Some(m) => Some(m@),
                None => None,
            },
            response_attr: self.response_attr@,
            body: self.body@,
        }
    }
}

/// The `/data2/{min}/{mrn}/{response_attr}/{message_text}` layout, read from
/// the trimmed packet: the fields are split on the first three `/` after the
/// prefix; the text keeps any further `/`; a missing text is empty; an empty
/// MRN is absent. Fewer than two `/` after the prefix is no packet.
pub open spec fn spec_cpdlc_packet(packet: Seq<char>) -> Option<CpdlcPacketView> {
    match strip_prefix(trim(packet), "/data2/"@) {
        None => None,
        Some(d) => match split_once(d, '/') {
            None => None,
            Some((min, r1)) => match split_once(r1, '/') {
                None => None,
                Some((mrn, r2)) => Some(
                    CpdlcPacketView {
                        min: min,
                        mrn: if mrn.len() > 0 {
                            Some(mrn)
                        } else {
                            None
                        },
                        response_attr: match split_once(r2, '/') {
                            Some((ra, _)) => ra,
                            None => r2,
                        },
                        body: match split_once(r2, '/') {
                            Some((_, text)) => text,
                            None => seq![],
                        },
                    },
                ),
            },
        },
    }
}

/// The position, in `v[from..hi]`, of the `c` that `split_once` splits on.
fn split_at_char(v: &Vec<char>, from: usize, hi: usize, c: char) -> (r: Option<usize>)
    requires
        from <= hi <= v@.len(),
    ensures
        match r {
            Some(p) => from <= p < hi && split_once(v@.subrange(from as int, hi as int), c)
                == Some((v@.subrange(from as int, p as int), v@.subrange(p + 1, hi as int))),
            None => split_once(v@.subrange(from as int, hi as int), c) is None,
        },
{
    let ghost s = v@.subrange(from as int, hi as int);
    match find_char_in(v, from, hi, c) {
        Some(p) => {
            proof {
                lemma_find_char_some(s, c, p - from);
                assert(s.take(p - from) =~= v@.subrange(from as int, p as int));
                assert(s.skip(p - from + 1) =~= v@.subrange(p + 1, hi as int));
            }
            Some(p)
        },
        None => {
            proof {
                lemma_find_char_none(s, c);
            }
            None
        },
    }
}

/// Parse a Hoppie CPDLC packet string.
///
/// Format: `/data2/{min}/{mrn}/{response_attr}/{message_text}`
pub fn parse_cpdlc_packet(packet: &str) -> (r: Option<HoppieCpdlcPacket>)
    ensures
        match r {
            Some(p) => spec_cpdlc_packet(packet@) == Some(p@),
            None => spec_cpdlc_packet(packet@) is None,
        },
{
    let v = chars_of(packet);
    let n = v.len();
    let (a, b) = trim_bounds(&v, 0, n);
    proof {
        assert(v@.subrange(0, n as int) =~= v@);
        reveal_strlit("/data2/");
    }
    if !range_starts_with(&v, a, b, "/data2/") {
        return None;
    }
    let d0 = a + 7;
    proof {
        assert(v@.subrange(a as int, b as int).skip(7) =~= v@.subrange(d0 as int, b as int));
    }
    let s1 = match split_at_char(&v, d0, b, '/') {
        Some(p) => p,
        None => {
            return None;
        },
    };
    let s2 = match split_at_char(&v, s1 + 1, b, '/') {
        Some(p) => p,
        None => {
            return None;
        },
    };
    let min = substring(packet, d0, s1);
    let mrn = if s2 > s1 + 1 {
        Some(substring(packet, s1 + 1, s2))
    } else {
        None
    };
    let (response_attr, body) = match split_at_char(&v, s2 + 1, b, '/') {
        Some(s3) => (substring(packet, s2 + 1, s3), substring(packet, s3 + 1, b)),
        None => (substring(packet, s2 + 1, b), String::new()),
    };
    Some(HoppieCpdlcPacket { min, mrn, response_attr, body })
}

/// The packet text that `format_cpdlc_packet` produces.
pub open spec fn spec_format_cpdlc_packet(
    min: Seq<char>,
    mrn: Option<Seq<char>>,
    response_attr: Seq<char>,
    body: Seq<char>,
) -> Seq<char> {
    "/data2/"@ + min + seq!['/'] + (match mrn {
        Some(m) => m,
        None => seq![],
    }) + seq!['/'] + response_attr + seq!['/'] + body
}

/// Format a Hoppie CPDLC packet for sending.
///
/// Produces the `/data2/{min}/{mrn}/{response_attr}/{message_text}` string.
pub fn format_cpdlc_packet(min: &str, mrn: Option<&str>, response_attr: &str, body: &str) -> (r:
    String)
    ensures
        r@ == spec_format_cpdlc_packet(
            min@,
            match mrn {
                Some(m) => Some(m@),
                None => None,
            },
            response_attr@,
            body@,
        ),
{
    let mut s = "/data2/".to_owned();
    s.append(min);
    s.append("/");
    match mrn {
        Some(m) => s.append(m),
        None => {},
    }
    s.append("/");
    s.append(response_attr);
    s.append("/");
    s.append(body);
    proof {
        reveal_strlit("/");
        let ghost m = match mrn {
            Some(m) => m@,
            None => Seq::<char>::empty(),
        };
        assert(s@ =~= "/data2/"@ + min@ + seq!['/'] + m + seq!['/'] + response_attr@ + seq!['/']
            + body@);
    }
    s
}

/// The text before a `/`-free field and the rest after its closing `/`.
proof fn lemma_split_field(f: Seq<char>, rest: Seq<char>)
    requires
        !f.contains('/'),
    ensures
        split_once(f + seq!['/'] + rest, '/') == Some((f, rest)),
{
    let d = f + seq!['/'] + rest;
    assert forall|q: int| 0 <= q < f.len() implies d[q] != '/' by {
        assert(d[q] == f[q]);
        if f[q] == '/' {
            assert(f.contains('/'));
        }
    }
    assert(is_first_char(d, '/', f.len() as int));
    lemma_find_char_some(d, '/', f.len() as int);
    assert(d.take(f.len() as int) =~= f);
    assert(d.skip(f.len() as int + 1) =~= rest);
}

/// A packet framed by `format_cpdlc_packet` parses back to its fields, when
/// the MIN, the MRN and the response attribute hold no `/`, a present MRN is
/// not empty, and the message text does not end in whitespace.
pub proof fn law_format_then_parse(
    min: Seq<char>,
    mrn: Option<Seq<char>>,
    ra: Seq<char>,
    body: Seq<char>,
)
    requires
        !min.contains('/'),
        mrn matches Some(m) ==> m.len() > 0 && !m.contains('/'),
        !ra.contains('/'),
        body.len() == 0 || !is_ws(body.last()),
    ensures
        spec_cpdlc_packet(spec_format_cpdlc_packet(min, mrn, ra, body)) == Some(
            CpdlcPacketView { min: min, mrn: mrn, response_attr: ra, body: body },
        ),
{
    reveal_strlit("/data2/");
    let m = match mrn {
        Some(x) => x,
        None => Seq::<char>::empty(),
    };
    let p = "/data2/"@;
    let r2 = ra + seq!['/'] + body;
    let r1 = m + seq!['/'] + r2;
    let d = min + seq!['/'] + r1;
    let s = spec_format_cpdlc_packet(min, mrn, ra, body);
    assert(s =~= p + d);
    assert(s[0] == '/');
    assert(trim_start(s) == s);
    if body.len() > 0 {
        assert(s.last() == body.last());
    } else {
        assert(s.last() == '/');
    }
    assert(trim_end(s) == s);
    assert(trim(s) == s);
    assert(p.is_prefix_of(s));
    assert(s.skip(7) =~= d);
    assert(strip_prefix(trim(s), p) == Some(d));
    lemma_split_field(min, r1);
    if mrn is None {
        assert(!m.contains('/'));
    }
    lemma_split_field(m, r2);
    lemma_split_field(ra, body);
}


/// `b` holds no brace.
pub open spec fn brace_free(b: Seq<char>) -> bool {
    forall|i: int| 0 <= i < b.len() ==> b[i] != '{' && b[i] != '}'
}

/// A block `{b}` on the wire.
pub open spec fn braced(b: Seq<char>) -> Seq<char> {
    seq!['{'] + b + seq!['}']
}

/// What a block `{b}` yields: its message, or nothing when it does not parse.
pub open spec fn block_messages(b: Seq<char>) -> Seq<HoppieMessageView> {
    match spec_message_block(trim(b)) {
        Some(m) => seq![m],
        None => seq![],
    }
}

proof fn lemma_brace_free_depth(b: Seq<char>)
    requires
        brace_free(b),
    ensures
        brace_depth(b) == 1,
    decreases b.len(),
{
    if b.len() > 0 {
        lemma_brace_free_depth(b.drop_last());
        assert(b.last() == b[b.len() - 1]);
    }
}

/// In `b}x` with `b` free of braces, the block closes at the `}`.
proof fn lemma_block_end_after(b: Seq<char>, x: Seq<char>)
    requires
        brace_free(b),
    ensures
        block_end(b + seq!['}'] + x) == Some(b.len() as int),
{
    let s = b + seq!['}'] + x;
    let e = b.len() as int;
    assert(s.take(e + 1).drop_last() =~= b);
    assert(s.take(e + 1).last() == '}');
    lemma_brace_free_depth(b);
    assert forall|k: int| 0 <= k < e implies brace_depth(#[trigger] s.take(k + 1)) != 0 by {
        assert(s.take(k + 1) =~= b.take(k + 1));
        assert(brace_free(b.take(k + 1)));
        lemma_brace_free_depth(b.take(k + 1));
    }
    assert(is_block_end(s, e));
    let c = choose|c: int| is_block_end(s, c);
    if c < e {
        assert(brace_depth(s.take(c + 1)) != 0);
    }
    if c > e {
        assert(brace_depth(s.take(e + 1)) != 0);
    }
}

/// Reading a poll answer, the blanks (spaces and newlines) before a block
/// are skipped: they neither end the reading nor change what it yields.
pub proof fn law_blanks_before_a_block_are_skipped(x: Seq<char>)
    ensures
        poll_messages(seq![' '] + x) == poll_messages(x),
        poll_messages(seq!['\n'] + x) == poll_messages(x),
{
    assert((seq![' '] + x).drop_first() =~= x);
    assert((seq!['\n'] + x).drop_first() =~= x);
    assert(skip_blanks(seq![' '] + x) == skip_blanks(x));
    assert(skip_blanks(seq!['\n'] + x) == skip_blanks(x));
}

/// Blocks are read in order: a block `{b}` (its text free of braces) yields
/// its message, then the reading goes on with what follows it.
pub proof fn law_block_then_rest(b: Seq<char>, x: Seq<char>)
    requires
        brace_free(b),
    ensures
        poll_messages(braced(b) + x) == block_messages(b) + poll_messages(x),
{
    let rem = braced(b) + x;
    assert(rem[0] == '{');
    assert(skip_blanks(rem) == rem);
    let inner = rem.drop_first();
    assert(inner =~= b + seq!['}'] + x);
    lemma_block_end_after(b, x);
    let e = b.len() as int;
    assert(inner.skip(e + 1) =~= x);
    assert(inner.take(e) =~= b);
    if spec_message_block(trim(b)) is None {
        assert(seq![] + poll_messages(x) =~= poll_messages(x));
    }
}

/// A two-block poll answer yields both messages, in order, whether or not a
/// blank separates the blocks.
pub proof fn law_two_blocks(b1: Seq<char>, b2: Seq<char>)
    requires
        brace_free(b1),
        brace_free(b2),
        spec_message_block(trim(b1)) is Some,
        spec_message_block(trim(b2)) is Some,
    ensures
        spec_poll_response("ok "@ + braced(b1) + seq![' '] + braced(b2)) == Ok::<
            Seq<HoppieMessageView>,
            Seq<char>,
        >(seq![spec_message_block(trim(b1))->0, spec_message_block(trim(b2))->0]),
        spec_poll_response("ok "@ + braced(b1) + braced(b2)) == Ok::<
            Seq<HoppieMessageView>,
            Seq<char>,
        >(seq![spec_message_block(trim(b1))->0, spec_message_block(trim(b2))->0]),
{
    reveal_strlit("ok ");
    reveal_strlit("ok");
    reveal_strlit("ok {}");
    let m1 = spec_message_block(trim(b1))->0;
    let m2 = spec_message_block(trim(b2))->0;
    law_block_then_rest(b2, seq![]);
    assert(braced(b2) + seq![] =~= braced(b2));
    assert(poll_messages(seq![]) == Seq::<HoppieMessageView>::empty());
    assert(poll_messages(braced(b2)) =~= seq![m2]);
    law_blanks_before_a_block_are_skipped(braced(b2));
    law_block_then_rest(b1, seq![' '] + braced(b2));
    law_block_then_rest(b1, braced(b2));
    assert(poll_messages(braced(b1) + (seq![' '] + braced(b2))) =~= seq![m1, m2]);
    assert(poll_messages(braced(b1) + braced(b2)) =~= seq![m1, m2]);
    lemma_two_blocks_body(braced(b1) + (seq![' '] + braced(b2)));
    assert("ok "@ + braced(b1) + seq![' '] + braced(b2) =~= "ok "@ + (braced(b1) + (seq![' ']
        + braced(b2))));
    lemma_two_blocks_body(braced(b1) + braced(b2));
    assert("ok "@ + braced(b1) + braced(b2) =~= "ok "@ + (braced(b1) + braced(b2)));
}

/// An answer `ok ` followed by a text that opens with `{` and closes with `}`
/// carries the blocks of that text.
proof fn lemma_two_blocks_body(t: Seq<char>)
    requires
        t.len() >= 4,
        t[0] == '{',
        t[t.len() - 1] == '}',
    ensures
        spec_poll_response("ok "@ + t) == Ok::<Seq<HoppieMessageView>, Seq<char>>(
            poll_messages(t),
        ),
{
    reveal_strlit("ok ");
    reveal_strlit("ok");
    reveal_strlit("ok {}");
    let body = "ok "@ + t;
    assert(body[0] == 'o');
    assert(body.last() == '}');
    assert(trim_start(body) == body);
    assert(trim_end(body) == body);
    assert(trim(body) == body);
    assert(body != "ok"@);
    assert(body != "ok {}"@) by {
        assert(body.len() >= 7);
    }
    assert("ok"@.is_prefix_of(body)) by {
        assert(body[0] == "ok"@[0]);
        assert(body[1] == "ok"@[1]);
    }
    let rest = body.skip(2);
    assert(rest =~= seq![' '] + t);
    assert(trim_start(rest) == trim_start(t)) by {
        assert(rest.drop_first() =~= t);
    }
    assert(trim_start(t) == t);
    assert(t.last() == '}');
    assert(trim_end(t) == t);
    assert(trim(rest) == t);
}


/// `w` holds no space.
pub open spec fn no_space(w: Seq<char>) -> bool {
    forall|i: int| 0 <= i < w.len() ==> w[i] != ' '
}

/// Splitting `a b` at its first space, `a` free of spaces, gives `a` and `b`.
proof fn lemma_split_word(a: Seq<char>, b: Seq<char>)
    requires
        no_space(a),
    ensures
        split_once(a + seq![' '] + b, ' ') == Some((a, b)),
{
    let s = a + seq![' '] + b;
    lemma_find_char_facts(s, ' ');
    assert(s[a.len() as int] == ' ');
    match find_char(s, ' ') {
        Some(p) => {
            if p < a.len() {
                assert(s[p] == a[p]);
            }
            if p > a.len() {
                assert(s[a.len() as int] != ' ');
            }
            assert(s.take(a.len() as int) =~= a);
            assert(s.skip(a.len() as int + 1) =~= b);
        },
        None => {
            assert(s[a.len() as int] != ' ');
        },
    }
}

/// A message block `FROM type {packet}` (sender and type words free of
/// spaces, the packet free of braces and of surrounding blanks) gives the
/// sender, the type its word names whatever its case, and the packet
/// without its braces; written without braces, the packet is taken as it
/// stands.
pub proof fn law_message_block(from: Seq<char>, ty: Seq<char>, packet: Seq<char>)
    requires
        no_space(from),
        no_space(ty),
        brace_free(packet),
        trim(packet) == packet,
    ensures
        spec_message_block(from + seq![' '] + ty + seq![' '] + braced(packet)) == Some(
            HoppieMessageView { from, msg_type: type_of_word(lower_text(ty)), packet },
        ),
        packet.len() > 0 ==> spec_message_block(from + seq![' '] + ty + seq![' '] + packet)
            == Some(HoppieMessageView { from, msg_type: type_of_word(lower_text(ty)), packet }),
{
    let raw1 = braced(packet);
    lemma_split_word(from, ty + seq![' '] + raw1);
    assert(from + seq![' '] + ty + seq![' '] + raw1 =~= from + seq![' '] + (ty + seq![' '] + raw1));
    lemma_split_word(ty, raw1);
    assert(raw1[0] == '{');
    assert(raw1.last() == '}');
    assert(trim_start(raw1) == raw1);
    assert(trim_end(raw1) == raw1);
    assert(raw1.subrange(1, raw1.len() - 1) =~= packet);
    lemma_split_word(from, ty + seq![' '] + packet);
    assert(from + seq![' '] + ty + seq![' '] + packet =~= from + seq![' '] + (ty + seq![' ']
        + packet));
    lemma_split_word(ty, packet);
    if packet.len() > 0 {
        assert(packet[0] != '{');
    }
}

/// The type word `cpdlc` or `telex`, in any ASCII case, names that type;
/// any other word is kept in lower case.
pub proof fn law_type_words(word: Seq<char>)
    requires
        all_ascii(word),
    ensures
        ascii_lower(word) == "cpdlc"@ ==> type_of_word(lower_text(word)) == HoppieTypeView::Cpdlc,
        ascii_lower(word) == "telex"@ ==> type_of_word(lower_text(word)) == HoppieTypeView::Telex,
        ascii_lower(word) != "cpdlc"@ && ascii_lower(word) != "telex"@ ==> type_of_word(
            lower_text(word),
        ) == HoppieTypeView::Other(ascii_lower(word)),
{
    reveal_strlit("cpdlc");
    reveal_strlit("telex");
    assert("cpdlc"@[0] != "telex"@[0]);
}

} // verus!

//! Text-level pieces of the CPDLC translation between Hoppie and OpenLink.
//!
//! Hoppie carries rendered FANS-1/A text (`CLIMB TO FL350`), OpenLink carries
//! message elements built from templates (`CLIMB TO [level]`). This module
//! splits templates into their static segments, lifts argument values out of
//! a rendered text, recognises logon texts, and maps response attributes.
use vstd::prelude::*;
use vstd::string::*;
use crate::text::{
    all_ascii, ascii_upper, chars_of, copy_range, find_char, find_char_in, find_seq, find_seq_in,
    lemma_find_char_facts, lemma_find_char_some, lemma_trim_len, range_eq, range_has_prefix,
    strip_prefix, substring, to_uppercase, trim, trim_bounds, trim_end, trim_end_bound,
    trim_start, trim_start_bound, upper_text, is_ws, ascii_lower_char, lemma_utf8_concat,
    lemma_utf8_len_prefix, lemma_utf8_trim, utf8_byte_len, utf8_len,
};
use crate::hoppie_client::{
    format_cpdlc_packet, law_format_then_parse, parse_cpdlc_packet, spec_cpdlc_packet,
    spec_format_cpdlc_packet, CpdlcPacketView,
};
use crate::numbers::{
    decimal, lemma_decimal, law_u8_text_roundtrip, parse_u16, parse_u8, spec_parse_u16,
    spec_parse_u8, u8_to_text,
};
use crate::arguments::{
    arg_values, parse_level, spec_parse_level, text_argument, ArgValue, CpdlcArgument,
    MessageElement,
};

verus! {

broadcast use vstd::string::group_string_axioms;

/// CPDLC response attribute of a message.
#[derive(Debug, Clone, Copy, PartialEq, Eq, Structural)]
pub enum ResponseAttribute {
    /// WILCO / UNABLE.
    WU,
    /// AFFIRM / NEGATIVE.
    AN,
    /// ROGER.
    R,
    /// Response required.
    Y,
    /// No response required.
    N,
    /// Not enabled.
    NE,
}

/// The Hoppie shorthand of a response attribute.
pub open spec fn ra_text(ra: ResponseAttribute) -> Seq<char> {
    match ra {
        ResponseAttribute::WU => "WU"@,
        ResponseAttribute::AN => "AN"@,
        ResponseAttribute::R => "R"@,
        ResponseAttribute::Y => "Y"@,
        ResponseAttribute::N => "N"@,
        ResponseAttribute::NE => "NE"@,
    }
}

/// The response attribute that an upper-case Hoppie shorthand names;
/// an unknown shorthand reads as `N`.
pub open spec fn ra_from_upper(u: Seq<char>) -> ResponseAttribute {
    if u == "WU"@ || u == "W/U"@ {
        ResponseAttribute::WU
    } else if u == "AN"@ || u == "A/N"@ {
        ResponseAttribute::AN
    } else if u == "R"@ {
        ResponseAttribute::R
    } else if u == "Y"@ {
        ResponseAttribute::Y
    } else if u == "N"@ {
        ResponseAttribute::N
    } else if u == "NE"@ {
        ResponseAttribute::NE
    } else {
        ResponseAttribute::N
    }
}

/// Convert an OpenLink [`ResponseAttribute`] to the Hoppie shorthand string.
pub fn response_attr_to_hoppie(ra: ResponseAttribute) -> (r: &'static str)
    ensures
        r@ == ra_text(ra),
{
    match ra {
        ResponseAttribute::WU => "WU",
        ResponseAttribute::AN => "AN",
        ResponseAttribute::R => "R",
        ResponseAttribute::Y => "Y",
        ResponseAttribute::N => "N",
        ResponseAttribute::NE => "NE",
    }
}

/// Whether the whole of `v` spells `lit`.
fn all_eq(v: &Vec<char>, lit: &str) -> (r: bool)
    ensures
        r == (v@ == lit@),
{
    let r = range_eq(v, 0, v.len(), lit);
    proof {
        assert(v@.subrange(0, v@.len() as int) =~= v@);
    }
    r
}

/// Parse a Hoppie response attribute shorthand back to OpenLink enum.
/// The comparison ignores case; an unknown shorthand defaults to `N`.
pub fn hoppie_ra_to_openlink(ra: &str) -> (r: ResponseAttribute)
    ensures
        r == ra_from_upper(upper_text(ra@)),
        all_ascii(ra@) ==> r == ra_from_upper(ascii_upper(ra@)),
{
    let upper = to_uppercase(ra);
    ra_from_upper_text(upper.as_str())
}

/// The response attribute that an upper-case Hoppie shorthand names;
/// an unknown shorthand reads as `N`.
pub fn ra_from_upper_text(u: &str) -> (r: ResponseAttribute)
    ensures
        r == ra_from_upper(u@),
{
    let v = chars_of(u);
    if all_eq(&v, "WU") || all_eq(&v, "W/U") {
        ResponseAttribute::WU
    } else if all_eq(&v, "AN") || all_eq(&v, "A/N") {
        ResponseAttribute::AN
    } else if all_eq(&v, "R") {
        ResponseAttribute::R
    } else if all_eq(&v, "Y") {
        ResponseAttribute::Y
    } else if all_eq(&v, "N") {
        ResponseAttribute::N
    } else if all_eq(&v, "NE") {
        ResponseAttribute::NE
    } else {
        ResponseAttribute::N
    }
}

/// Mapping a response attribute to Hoppie text and back gives it again.
pub proof fn law_response_attr_roundtrip(ra: ResponseAttribute)
    ensures
        all_ascii(ra_text(ra)),
        ra_from_upper(ascii_upper(ra_text(ra))) == ra,
{
    reveal_strlit("WU");
    reveal_strlit("W/U");
    reveal_strlit("AN");
    reveal_strlit("A/N");
    reveal_strlit("R");
    reveal_strlit("Y");
    reveal_strlit("N");
    reveal_strlit("NE");
    let t = ra_text(ra);
    assert(ascii_upper(t) =~= t);
    assert("WU"@[0] != "AN"@[0]);
    assert("AN"@[0] != "NE"@[0]);
    assert("R"@[0] != "N"@[0]);
    assert("R"@[0] != "Y"@[0]);
    assert("Y"@[0] != "N"@[0]);
}

/// A logon text: `REQUEST LOGON` or `LOGON`.
pub open spec fn is_logon_text(u: Seq<char>) -> bool {
    u == "REQUEST LOGON"@ || u == "LOGON"@
}

/// A logon answer: `LOGON ACCEPTED` is `Some(true)`, `LOGON REJECTED` is
/// `Some(false)`, anything else `None`.
pub open spec fn logon_response_of(u: Seq<char>) -> Option<bool> {
    if u == "LOGON ACCEPTED"@ {
        Some(true)
    } else if u == "LOGON REJECTED"@ {
        Some(false)
    } else {
        None
    }
}

/// The upper-cased, trimmed text of `body`, with what is known of it.
fn upper_trimmed(body: &str) -> (r: String)
    ensures
        r@ == upper_text(trim(body@)),
        all_ascii(body@) ==> r@ == ascii_upper(trim(body@)),
{
    let v = chars_of(body);
    let (a, b) = trim_bounds(&v, 0, v.len());
    proof {
        assert(v@.subrange(0, v@.len() as int) =~= v@);
    }
    let t = substring(body, a, b);
    to_uppercase(t.as_str())
}

/// Whether an upper-case text is a logon request.
pub fn is_logon_upper(u: &str) -> (r: bool)
    ensures
        r == is_logon_text(u@),
{
    let v = chars_of(u);
    all_eq(&v, "REQUEST LOGON") || all_eq(&v, "LOGON")
}

/// The logon answer that an upper-case text is, if any.
pub fn logon_response_of_upper(u: &str) -> (r: Option<bool>)
    ensures
        r == logon_response_of(u@),
{
    let v = chars_of(u);
    if all_eq(&v, "LOGON ACCEPTED") {
        Some(true)
    } else if all_eq(&v, "LOGON REJECTED") {
        Some(false)
    } else {
        None
    }
}

/// Check if a Hoppie CPDLC body text is a logon-related message.
pub fn is_logon_body(body: &str) -> (r: bool)
    ensures
        r == is_logon_text(upper_text(trim(body@))),
        all_ascii(body@) ==> r == is_logon_text(ascii_upper(trim(body@))),
{
    let u = upper_trimmed(body);
    is_logon_upper(u.as_str())
}

/// Check if a Hoppie CPDLC body text is a logon response.
pub fn is_logon_response_body(body: &str) -> (r: Option<bool>)
    ensures
        r == logon_response_of(upper_text(trim(body@))),
        all_ascii(body@) ==> r == logon_response_of(ascii_upper(trim(body@))),
{
    let u = upper_trimmed(body);
    logon_response_of_upper(u.as_str())
}

/// The static segments of a template: the text before each `[placeholder]`,
/// then the text after the last one. A `[` that is never closed ends the
/// template (the text after it is dropped).
pub open spec fn template_segments(t: Seq<char>) -> Seq<Seq<char>>
    decreases t.len(),
{
    match find_char(t, '[') {
        None => seq![t],
        Some(st) => {
            let after = t.skip(st);
            match find_char(after, ']') {
                None => seq![t.take(st)],
                Some(en) => {
                    proof {
                        lemma_find_char_facts(t, '[');
                        lemma_find_char_facts(after, ']');
                    }
                    seq![t.take(st)] + template_segments(t.skip(st + en + 1))
                },
            }
        },
    }
}

/// The texts of a list of strings.
pub open spec fn texts(v: Seq<String>) -> Seq<Seq<char>> {
    v.map_values(|s: String| s@)
}

/// Split a template like "CLIMB TO [level] BY [time]" into static segments:
/// `["CLIMB TO ", " BY ", ""]`
pub fn split_template(template: &str) -> (r: Vec<String>)
    ensures
        texts(r@) == template_segments(template@),
{
    let v = chars_of(template);
    let n = v.len();
    let mut segments: Vec<String> = Vec::new();
    let mut pos: usize = 0;
    proof {
        assert(v@.subrange(0, n as int) =~= v@);
        assert(texts(segments@) + template_segments(v@) =~= template_segments(v@));
    }
    loop
        invariant
            pos <= n == v@.len(),
            v@ == template@,
            texts(segments@) + template_segments(v@.subrange(pos as int, n as int))
                == template_segments(template@),
        decreases n - pos,
    {
        let ghost rem = v@.subrange(pos as int, n as int);
        let ghost before = texts(segments@);
        match find_char_in(&v, pos, n, '[') {
            None => {
                proof {
                    lemma_find_char_facts(rem, '[');
                    if find_char(rem, '[') is Some {
                        let p = find_char(rem, '[')->0;
                        assert(rem[p] == v@[pos + p]);
                    }
                }
                let s = substring(template, pos, n);
                segments.push(s);
                proof {
                    assert(template_segments(rem) == seq![rem]);
                    assert(texts(segments@) =~= before + seq![rem]);
                }
                return segments;
            },
            Some(st) => {
                proof {
                    lemma_find_char_some(rem, '[', st - pos);
                    assert(rem.take(st - pos) =~= v@.subrange(pos as int, st as int));
                    assert(rem.skip(st - pos) =~= v@.subrange(st as int, n as int));
                }
                let ghost after = v@.subrange(st as int, n as int);
                let s = substring(template, pos, st);
                segments.push(s);
                proof {
                    assert(texts(segments@) =~= before.push(rem.take(st - pos)));
                }
                match find_char_in(&v, st, n, ']') {
                    None => {
                        proof {
                            lemma_find_char_facts(after, ']');
                            if find_char(after, ']') is Some {
                                let p = find_char(after, ']')->0;
                                assert(after[p] == v@[st + p]);
                            }
                            assert(template_segments(rem) == seq![rem.take(st - pos)]);
                            assert(texts(segments@) =~= before + seq![rem.take(st - pos)]);
                        }
                        return segments;
                    },
                    Some(en) => {
                        proof {
                            lemma_find_char_some(after, ']', en - st);
                            assert(rem.skip((st - pos) + (en - st) + 1) =~= v@.subrange(
                                en + 1,
                                n as int,
                            ));
                            assert(template_segments(rem) == seq![rem.take(st - pos)]
                                + template_segments(v@.subrange(en + 1, n as int)));
                            assert(texts(segments@) + template_segments(
                                v@.subrange(en + 1, n as int),
                            ) =~= before + template_segments(rem));
                        }
                        pos = en + 1;
                    },
                }
            },
        }
    }
}

/// The specificity of a list of segments: the total length, in UTF-8
/// bytes, of their trimmed text.
pub open spec fn specificity(segs: Seq<Seq<char>>) -> int
    decreases segs.len(),
{
    if segs.len() == 0 {
        0
    } else {
        utf8_len(trim(segs[0])) + specificity(segs.drop_first())
    }
}

/// The specificity of a suffix of a list of segments is at most that of the list.
pub proof fn lemma_specificity_suffix(segs: Seq<Seq<char>>, j: int)
    requires
        0 <= j <= segs.len(),
    ensures
        0 <= specificity(segs.skip(j)) <= specificity(segs),
    decreases j,
{
    if j == 0 {
        assert(segs.skip(0) =~= segs);
        lemma_specificity_nonneg(segs);
    } else {
        lemma_specificity_suffix(segs, j - 1);
        assert(segs.skip(j - 1).drop_first() =~= segs.skip(j));
        lemma_specificity_nonneg(segs.skip(j));
    }
}

/// Specificity is never negative.
pub proof fn lemma_specificity_nonneg(segs: Seq<Seq<char>>)
    ensures
        specificity(segs) >= 0,
    decreases segs.len(),
{
    if segs.len() > 0 {
        lemma_specificity_nonneg(segs.drop_first());
    }
}

/// The segments of a template hold no more text than the template.
pub proof fn lemma_segments_specificity(t: Seq<char>)
    ensures
        specificity(template_segments(t)) <= utf8_len(t),
    decreases t.len(),
{
    lemma_find_char_facts(t, '[');
    match find_char(t, '[') {
        None => {
            lemma_utf8_trim(t);
            assert(template_segments(t) == seq![t]);
            assert(seq![t].drop_first() =~= Seq::<Seq<char>>::empty());
            assert(specificity(Seq::<Seq<char>>::empty()) == 0);
            assert(seq![t][0] == t);
            assert(specificity(seq![t]) == utf8_len(trim(t)));
        },
        Some(st) => {
            let after = t.skip(st);
            lemma_find_char_facts(after, ']');
            lemma_utf8_trim(t.take(st));
            assert(t.take(st) =~= t.subrange(0, st));
            lemma_utf8_len_prefix(t, st);
            match find_char(after, ']') {
                None => {
                    assert(template_segments(t) == seq![t.take(st)]);
                    assert(seq![t.take(st)].drop_first() =~= Seq::<Seq<char>>::empty());
                    assert(specificity(Seq::<Seq<char>>::empty()) == 0);
                    assert(seq![t.take(st)][0] == t.take(st));
                    assert(specificity(seq![t.take(st)]) == utf8_len(trim(t.take(st))));
                },
                Some(en) => {
                    let rest = t.skip(st + en + 1);
                    lemma_segments_specificity(rest);
                    let segs = seq![t.take(st)] + template_segments(rest);
                    assert(template_segments(t) == segs);
                    assert(segs.drop_first() =~= template_segments(rest));
                    assert(segs[0] == t.take(st));
                    assert(specificity(segs) == utf8_len(trim(t.take(st))) + specificity(
                        template_segments(rest),
                    ));
                    let head = t.take(st + en + 1);
                    assert(head + rest =~= t);
                    lemma_utf8_concat(head, rest);
                    assert(head.subrange(0, st) =~= t.take(st));
                    lemma_utf8_len_prefix(head, st);
                },
            }
        },
    }
}

/// Compute a specificity score for a template: the total length of static
/// (non-placeholder) text. Higher = more specific match.
pub fn template_specificity(template: &str) -> (r: usize)
    ensures
        r == specificity(template_segments(template@)),
{
    let total = utf8_byte_len(template);
    let segments = split_template(template);
    let ghost segs = texts(segments@);
    proof {
        lemma_segments_specificity(template@);
        assert(segs.skip(segs.len() as int) =~= Seq::<Seq<char>>::empty());
    }
    let mut sum: usize = 0;
    let mut i = segments.len();
    while i > 0
        invariant
            i <= segments@.len(),
            segs == texts(segments@),
            segs == template_segments(template@),
            specificity(segs) <= utf8_len(template@),
            utf8_len(template@) <= usize::MAX,
            total == utf8_len(template@),
            sum == specificity(segs.skip(i as int)),
        decreases i,
    {
        let w = chars_of(segments[i - 1].as_str());
        let (a, b) = trim_bounds(&w, 0, w.len());
        let piece = substring(segments[i - 1].as_str(), a, b);
        let n = utf8_byte_len(piece.as_str());
        proof {
            assert(w@.subrange(0, w@.len() as int) =~= w@);
            assert(segs.skip(i - 1).drop_first() =~= segs.skip(i as int));
            assert(segs.skip(i - 1)[0] == segs[i - 1]);
            lemma_specificity_suffix(segs, i - 1);
            assert(specificity(segs.skip(i - 1)) == utf8_len(trim(segs[i - 1])) + specificity(
                segs.skip(i as int),
            ));
        }
        sum = sum + n;
        i = i - 1;
    }
    proof {
        assert(segs.skip(0) =~= segs);
    }
    sum
}

/// The values that a rendered text holds between the static segments of a
/// template, read from segment `i` on with `rem` still to read.
///
/// The first segment must open the text (up to its trailing blanks); each
/// later segment closes the value before it, found at its first occurrence
/// (trimmed); an empty segment takes the rest of the text as a value; a
/// segment that does not occur takes the rest and ends the reading.
pub open spec fn extract_values(rem: Seq<char>, segs: Seq<Seq<char>>, i: int) -> Seq<Seq<char>>
    decreases segs.len() - i,
{
    if i < 0 || i >= segs.len() {
        seq![]
    } else if i == 0 {
        if segs[0].len() == 0 {
            extract_values(rem, segs, 1)
        } else {
            match strip_prefix(rem, trim_end(segs[0])) {
                Some(r) => extract_values(trim_start(r), segs, 1),
                None => seq![],
            }
        }
    } else if segs[i].len() == 0 {
        seq![trim(rem)] + extract_values(seq![], segs, i + 1)
    } else {
        match find_seq(rem, trim(segs[i])) {
            Some(p) => seq![trim(rem.take(p))] + extract_values(
                trim_start(rem.skip(p + trim(segs[i]).len())),
                segs,
                i + 1,
            ),
            None => seq![trim(rem)],
        }
    }
}

/// Given static segments extracted from a template, extract the dynamic
/// values from the body text.
pub fn extract_values_between_segments(body: &str, segments: &[String]) -> (r: Vec<String>)
    ensures
        texts(r@) == extract_values(body@, texts(segments@), 0),
{
    let ghost segs = texts(segments@);
    let v = chars_of(body);
    let n = v.len();
    let mut values: Vec<String> = Vec::new();
    let mut lo: usize = 0;
    let mut i: usize = 0;
    proof {
        assert(v@.subrange(0, n as int) =~= v@);
        assert(texts(values@) + extract_values(v@, segs, 0) =~= extract_values(v@, segs, 0));
    }
    while i < segments.len()
        invariant
            lo <= n == v@.len(),
            v@ == body@,
            segs == texts(segments@),
            i <= segments@.len(),
            texts(values@) + extract_values(v@.subrange(lo as int, n as int), segs, i as int)
                == extract_values(body@, segs, 0),
        decreases segments@.len() - i,
    {
        let ghost rem = v@.subrange(lo as int, n as int);
        let ghost before = texts(values@);
        let w = chars_of(segments[i].as_str());
        let wl = w.len();
        assert(w@ == segs[i as int]);
        if i == 0 {
            if wl != 0 {
                let we = trim_end_bound(&w, 0, wl);
                proof {
                    assert(w@.subrange(0, wl as int) =~= w@);
                }
                if range_has_prefix(&v, lo, n, &w, 0, we) {
                    proof {
                        assert(rem.skip(we as int) =~= v@.subrange(lo + we, n as int));
                    }
                    lo = trim_start_bound(&v, lo + we, n);
                } else {
                    proof {
                        assert(extract_values(rem, segs, 0) =~= seq![]);
                        assert(before + seq![] =~= before);
                    }
                    return values;
                }
            }
        } else if wl == 0 {
            let (a, b) = trim_bounds(&v, lo, n);
            values.push(substring(body, a, b));
            proof {
                assert(texts(values@) =~= before.push(trim(rem)));
                assert(v@.subrange(n as int, n as int) =~= Seq::<char>::empty());
                assert(texts(values@) + extract_values(seq![], segs, i + 1) =~= before + (seq![
                    trim(rem),
                ] + extract_values(seq![], segs, i + 1)));
            }
            lo = n;
        } else {
            let (wa, wb) = trim_bounds(&w, 0, wl);
            proof {
                assert(w@.subrange(0, wl as int) =~= w@);
            }
            let needle = copy_range(&w, wa, wb);
            match find_seq_in(&v, lo, n, &needle) {
                Some(p) => {
                    let (a, b) = trim_bounds(&v, lo, p);
                    values.push(substring(body, a, b));
                    let ghost pl = (p - lo) as int;
                    proof {
                        assert(rem.take(pl) =~= v@.subrange(lo as int, p as int));
                        assert(rem.skip(pl + needle@.len()) =~= v@.subrange(
                            p + needle@.len(),
                            n as int,
                        ));
                        assert(texts(values@) =~= before.push(trim(rem.take(pl))));
                    }
                    let nlo = trim_start_bound(&v, p + needle.len(), n);
                    proof {
                        assert(texts(values@) + extract_values(
                            v@.subrange(nlo as int, n as int),
                            segs,
                            i + 1,
                        ) =~= before + (seq![trim(rem.take(pl))] + extract_values(
                            v@.subrange(nlo as int, n as int),
                            segs,
                            i + 1,
                        )));
                    }
                    lo = nlo;
                },
                None => {
                    let (a, b) = trim_bounds(&v, lo, n);
                    values.push(substring(body, a, b));
                    proof {
                        assert(texts(values@) =~= before + seq![trim(rem)]);
                    }
                    return values;
                },
            }
        }
        i = i + 1;
    }
    proof {
        assert(extract_values(v@.subrange(lo as int, n as int), segs, i as int) =~= seq![]);
        assert(texts(values@) + seq![] =~= texts(values@));
    }
    values
}

/// The fields of a Hoppie packet, read back as a byte, when they spell one.
pub open spec fn packet_numbers(p: CpdlcPacketView) -> (Option<u8>, Option<Option<u8>>) {
    (
        spec_parse_u8(p.min),
        match p.mrn {
            Some(m) => Some(spec_parse_u8(m)),
            None => None,
        },
    )
}

/// What the translation to Hoppie reads of an OpenLink CPDLC message: for an
/// application message its MIN and MRN, its effective response attribute,
/// and its elements rendered to text.
#[derive(Debug, Clone)]
pub enum OpenLinkCpdlcMessage {
    /// A CPDLC meta message (logon, connection, ...): no Hoppie equivalent.
    Meta,
    /// An application message.
    Application { min: u8, mrn: Option<u8>, response_attr: ResponseAttribute, text: String },
}

/// An OpenLink CPDLC envelope, as the translation to Hoppie reads it.
#[derive(Debug, Clone)]
pub struct OpenLinkCpdlc {
    /// Sender callsign.
    pub source: String,
    /// Destination callsign.
    pub destination: String,
    /// The message.
    pub message: OpenLinkCpdlcMessage,
}

/// Output data for sending a CPDLC message via Hoppie.
#[derive(Debug, Clone)]
pub struct HoppiePacketOut {
    /// Peer (destination) callsign.
    pub peer: String,
    /// Sender callsign.
    pub from: String,
    /// Formatted `/data2/...` packet.
    pub packet: String,
    /// The MIN of this message (for session tracking).
    pub min: u8,
}

/// The packet that carries an application message to Hoppie.
pub open spec fn hoppie_packet_of(
    min: u8,
    mrn: Option<u8>,
    ra: ResponseAttribute,
    text: Seq<char>,
) -> Seq<char> {
    spec_format_cpdlc_packet(
        decimal(min as nat),
        match mrn {
            Some(m) => Some(decimal(m as nat)),
            None => None,
        },
        ra_text(ra),
        text,
    )
}

/// Convert an OpenLink CPDLC application message into a Hoppie packet.
///
/// Returns `None` for meta messages (logon, connection, etc.) which have no
/// direct Hoppie equivalent.
pub fn openlink_to_hoppie(envelope: &OpenLinkCpdlc) -> (r: Option<HoppiePacketOut>)
    ensures
        envelope.message is Meta ==> r is None,
        envelope.message matches OpenLinkCpdlcMessage::Application {
            min,
            mrn,
            response_attr,
            text,
        } ==> (r matches Some(out) && out.peer@ == envelope.destination@ && out.from@
            == envelope.source@ && out.min == min && out.packet@ == hoppie_packet_of(
            min,
            mrn,
            response_attr,
            text@,
        )),
{
    match &envelope.message {
        OpenLinkCpdlcMessage::Meta => None,
        OpenLinkCpdlcMessage::Application { min, mrn, response_attr, text } => {
            let ra_str = response_attr_to_hoppie(*response_attr);
            let min_str = u8_to_text(*min);
            let packet = match mrn {
                Some(m) => {
                    let mrn_str = u8_to_text(*m);
                    format_cpdlc_packet(min_str.as_str(), Some(mrn_str.as_str()), ra_str, text.as_str())
                },
                None => format_cpdlc_packet(min_str.as_str(), None, ra_str, text.as_str()),
            };
            Some(
                HoppiePacketOut {
                    peer: envelope.destination.clone(),
                    from: envelope.source.clone(),
                    packet,
                    min: *min,
                },
            )
        },
    }
}

/// What Hoppie reads back of a message the bridge sends: the packet parses,
/// and its MIN, MRN, response attribute and text are those of the message,
/// when the rendered text does not end in whitespace.
pub proof fn law_openlink_to_hoppie_roundtrip(
    min: u8,
    mrn: Option<u8>,
    ra: ResponseAttribute,
    text: Seq<char>,
)
    requires
        text.len() == 0 || !is_ws(text.last()),
    ensures
        spec_cpdlc_packet(hoppie_packet_of(min, mrn, ra, text)) is Some,
        packet_numbers(spec_cpdlc_packet(hoppie_packet_of(min, mrn, ra, text))->0) == (
            Some(min),
            match mrn {
                Some(m) => Some(Some(m)),
                None => None::<Option<u8>>,
            },
        ),
        ra_from_upper(ascii_upper(spec_cpdlc_packet(hoppie_packet_of(min, mrn, ra, text))->0.response_attr))
            == ra,
        spec_cpdlc_packet(hoppie_packet_of(min, mrn, ra, text))->0.body == text,
{
    lemma_decimal(min as nat);
    law_response_attr_roundtrip(ra);
    reveal_strlit("WU");
    reveal_strlit("AN");
    reveal_strlit("R");
    reveal_strlit("Y");
    reveal_strlit("N");
    reveal_strlit("NE");
    let t = ra_text(ra);
    assert(!t.contains('/')) by {
        if t.contains('/') {
            let i = choose|i: int| 0 <= i < t.len() && t[i] == '/';
        }
    }
    let mrn_text = match mrn {
        Some(m) => Some(decimal(m as nat)),
        None => None,
    };
    match mrn {
        Some(m) => {
            lemma_decimal(m as nat);
        },
        None => {},
    }
    law_format_then_parse(decimal(min as nat), mrn_text, t, text);
    law_u8_text_roundtrip(min);
    match mrn {
        Some(m) => {
            law_u8_text_roundtrip(m);
        },
        None => {},
    }
}

/// Direction of a CPDLC message.
#[derive(Debug, Clone, Copy, PartialEq, Eq, Structural)]
pub enum MessageDirection {
    /// Ground to aircraft (UM).
    Uplink,
    /// Aircraft to ground (DM).
    Downlink,
}

/// Type of a message element argument.
#[derive(Debug, Clone, Copy, PartialEq, Eq, Structural)]
pub enum ArgType {
    Level,
    Speed,
    Time,
    Position,
    Direction,
    Degrees,
    Distance,
    RouteClearance,
    ProcedureName,
    UnitName,
    FacilityDesignation,
    Frequency,
    Code,
    AtisCode,
    ErrorInfo,
    FreeText,
    VerticalRate,
    Altimeter,
    LegType,
    PositionReport,
    RemainingFuel,
    PersonsOnBoard,
    SpeedType,
    DepartureClearance,
}

/// A message definition of the CPDLC message set.
#[derive(Debug, Clone)]
pub struct MessageDefinition {
    /// Element id, e.g. `UM20`.
    pub id: String,
    /// Rendering template, e.g. `CLIMB TO [level]`.
    pub template: String,
    /// Types of the template's arguments, in order.
    pub args: Vec<ArgType>,
    /// Direction of the message.
    pub direction: MessageDirection,
}

/// What matching reads of a definition.
pub struct DefinitionView {
    pub id: Seq<char>,
    pub template: Seq<char>,
    pub args: Seq<ArgType>,
    pub direction: MessageDirection,
}

impl View for MessageDefinition {
    type V = DefinitionView;

    open spec fn view(&self) -> DefinitionView {
        DefinitionView {
            id: self.id@,
            template: self.template@,
            args: self.args@,
            direction: self.direction,
        }
    }
}

/// `a` and `b` are equal up to ASCII case (`str::eq_ignore_ascii_case`).
pub open spec fn eq_ignore_ascii_case(a: Seq<char>, b: Seq<char>) -> bool {
    a.len() == b.len() && forall|i: int|
        0 <= i < a.len() ==> ascii_lower_char(#[trigger] a[i]) == ascii_lower_char(b[i])
}

/// The argument values that `body` holds for a template with `nargs`
/// arguments, if it matches: a template without arguments must equal the
/// body up to ASCII case; otherwise the body must yield exactly `nargs`
/// values, none of them empty.
pub open spec fn spec_try_match(body: Seq<char>, template: Seq<char>, nargs: nat) -> Option<
    Seq<Seq<char>>,
> {
    if nargs == 0 {
        if eq_ignore_ascii_case(body, template) {
            Some(seq![])
        } else {
            None
        }
    } else {
        let values = extract_values(body, template_segments(template), 0);
        if values.len() != nargs || (exists|i: int| 0 <= i < values.len() && values[i].len() == 0) {
            None
        } else {
            Some(values)
        }
    }
}

/// `char::to_ascii_lowercase`.
fn lower_ascii_char(c: char) -> (r: char)
    ensures
        r == ascii_lower_char(c),
{
    if 'A' <= c && c <= 'Z' {
        ((c as u8) + 32) as char
    } else {
        c
    }
}

/// Whether two texts are equal up to ASCII case.
pub fn eq_ignore_case(a: &str, b: &str) -> (r: bool)
    ensures
        r == eq_ignore_ascii_case(a@, b@),
{
    let v = chars_of(a);
    let w = chars_of(b);
    if v.len() != w.len() {
        return false;
    }
    let mut i: usize = 0;
    while i < v.len()
        invariant
            v@ == a@,
            w@ == b@,
            v@.len() == w@.len(),
            i <= v@.len(),
            forall|j: int| 0 <= j < i ==> ascii_lower_char(#[trigger] v@[j]) == ascii_lower_char(
                w@[j],
            ),
        decreases v@.len() - i,
    {
        if lower_ascii_char(v[i]) != lower_ascii_char(w[i]) {
            return false;
        }
        i = i + 1;
    }
    true
}

/// The argument texts that `body` holds for `def`'s template, if it matches.
#[verifier::loop_isolation(false)]
fn match_values(body: &str, def: &MessageDefinition) -> (r: Option<Vec<String>>)
    ensures
        match spec_try_match(body@, def.template@, def.args@.len()) {
            Some(vals) => r matches Some(v) && texts(v@) == vals,
            None => r is None,
        },
{
    if def.args.len() == 0 {
        if eq_ignore_case(body, def.template.as_str()) {
            let empty: Vec<String> = Vec::new();
            proof {
                assert(texts(empty@) =~= seq![]);
            }
            return Some(empty);
        }
        return None;
    }
    let segments = split_template(def.template.as_str());
    let values = extract_values_between_segments(body, segments.as_slice());
    if values.len() != def.args.len() {
        return None;
    }
    let mut i: usize = 0;
    while i < values.len()
        invariant
            i <= values@.len(),
            forall|j: int| 0 <= j < i ==> values@[j]@.len() > 0,
        decreases values@.len() - i,
    {
        let w = chars_of(values[i].as_str());
        if w.len() == 0 {
            proof {
                assert(texts(values@)[i as int].len() == 0);
            }
            return None;
        }
        i = i + 1;
    }
    proof {
        let vals = texts(values@);
        if exists|k: int| 0 <= k < vals.len() && vals[k].len() == 0 {
            let k = choose|k: int| 0 <= k < vals.len() && vals[k].len() == 0;
            assert(values@[k]@.len() > 0);
        }
    }
    Some(values)
}

/// The typed argument that the text `v` of an argument of type `t` stands
/// for: a level as the level reader reads it, else free text; a heading as
/// a 16-bit number, else heading 0; any other type holds the text.
pub open spec fn arg_of_text(v: Seq<char>, t: ArgType) -> ArgValue {
    match t {
        ArgType::Level => match spec_parse_level(v) {
            Some(n) => ArgValue::Level(n),
            None => ArgValue::Text(ArgType::FreeText, v),
        },
        ArgType::Degrees => match spec_parse_u16(v) {
            Some(n) => ArgValue::Degrees(n),
            None => ArgValue::Degrees(0),
        },
        _ => ArgValue::Text(t, v),
    }
}

/// The typed arguments for argument texts `vals` of types `types`.
pub open spec fn typed_args(vals: Seq<Seq<char>>, types: Seq<ArgType>) -> Seq<ArgValue> {
    Seq::new(vals.len(), |k: int| arg_of_text(vals[k], types[k]))
}

/// Convert an extracted argument text into a typed argument.
pub fn text_to_argument(value: &str, arg_type: ArgType) -> (r: CpdlcArgument)
    ensures
        r@ == arg_of_text(value@, arg_type),
{
    match arg_type {
        ArgType::Level => match parse_level(value) {
            Some(n) => CpdlcArgument::Level(n),
            None => CpdlcArgument::FreeText(value.to_owned()),
        },
        ArgType::Degrees => match parse_u16(value) {
            Some(n) => CpdlcArgument::Degrees(n),
            None => CpdlcArgument::Degrees(0),
        },
        _ => text_argument(arg_type, value.to_owned()),
    }
}

/// Try to match a body against a definition's template.
///
/// Returns `Some(args)`, the typed arguments, if the template matches,
/// `None` otherwise.
pub fn try_match_template(body: &str, def: &MessageDefinition) -> (r: Option<Vec<CpdlcArgument>>)
    ensures
        match spec_try_match(body@, def.template@, def.args@.len()) {
            Some(vals) => r matches Some(v) && arg_values(v@) == typed_args(vals, def.args@),
            None => r is None,
        },
{
    let values = match match_values(body, def) {
        Some(v) => v,
        None => {
            return None;
        },
    };
    let ghost vals = texts(values@);
    proof {
        assert(vals.len() == values@.len());
        assert(vals == spec_try_match(body@, def.template@, def.args@.len())->0);
    }
    let mut args: Vec<CpdlcArgument> = Vec::new();
    let mut i: usize = 0;
    while i < values.len()
        invariant
            i <= values@.len(),
            vals == texts(values@),
            values@.len() == def.args@.len(),
            args@.len() == i,
            forall|k: int| 0 <= k < i ==> #[trigger] args@[k]@ == arg_of_text(vals[k], def.args@[k]),
        decreases values@.len() - i,
    {
        let a = text_to_argument(values[i].as_str(), def.args[i]);
        args.push(a);
        i = i + 1;
    }
    proof {
        assert(arg_values(args@) =~= typed_args(vals, def.args@));
    }
    Some(args)
}

/// Definition `i` of the registry is a candidate for `body`: its direction
/// is `dir` and its template matches.
pub open spec fn is_candidate(
    body: Seq<char>,
    dir: MessageDirection,
    defs: Seq<DefinitionView>,
    i: int,
) -> bool {
    0 <= i < defs.len() && defs[i].direction == dir && spec_try_match(
        body,
        defs[i].template,
        defs[i].args.len(),
    ) is Some
}

/// The specificity of definition `i`'s template.
pub open spec fn def_specificity(defs: Seq<DefinitionView>, i: int) -> int {
    specificity(template_segments(defs[i].template))
}

/// Definition `i` is the best candidate: most specific of all, and strictly
/// more specific than every earlier candidate.
pub open spec fn is_best_candidate(
    body: Seq<char>,
    dir: MessageDirection,
    defs: Seq<DefinitionView>,
    i: int,
) -> bool {
    &&& is_candidate(body, dir, defs, i)
    &&& forall|j: int|
        #![trigger is_candidate(body, dir, defs, j)]
        is_candidate(body, dir, defs, j) ==> def_specificity(defs, j) <= def_specificity(defs, i)
    &&& forall|j: int|
        #![trigger is_candidate(body, dir, defs, j)]
        0 <= j < i && is_candidate(body, dir, defs, j) ==> def_specificity(defs, j)
            < def_specificity(defs, i)
}

/// The free-text element that carries an unrecognised body.
pub open spec fn fallback_id(dir: MessageDirection) -> Seq<char> {
    match dir {
        MessageDirection::Downlink => "DM67"@,
        MessageDirection::Uplink => "UM67"@,
    }
}

/// The element id and argument values that a rendered body stands for: the
/// best candidate's, or free text when no definition matches.
pub open spec fn element_match(
    body: Seq<char>,
    dir: MessageDirection,
    defs: Seq<DefinitionView>,
) -> (Seq<char>, Seq<ArgValue>) {
    let b = trim(body);
    if exists|i: int| is_best_candidate(b, dir, defs, i) {
        let i = choose|i: int| is_best_candidate(b, dir, defs, i);
        (defs[i].id, typed_args(spec_try_match(b, defs[i].template, defs[i].args.len())->0, defs[i].args))
    } else {
        (fallback_id(dir), seq![ArgValue::Text(ArgType::FreeText, b)])
    }
}

/// The views of a registry.
pub open spec fn registry_view(registry: Seq<MessageDefinition>) -> Seq<DefinitionView> {
    registry.map_values(|d: MessageDefinition| d@)
}

/// Two best candidates are the same definition.
proof fn lemma_best_unique(
    body: Seq<char>,
    dir: MessageDirection,
    defs: Seq<DefinitionView>,
    i: int,
    j: int,
)
    requires
        is_best_candidate(body, dir, defs, i),
        is_best_candidate(body, dir, defs, j),
    ensures
        i == j,
{
    if i < j {
        assert(is_candidate(body, dir, defs, i));
    }
    if j < i {
        assert(is_candidate(body, dir, defs, j));
    }
}

/// Match a rendered body text against the message registry.
///
/// Returns the message id (e.g. "DM6") and the extracted typed arguments.
/// Falls back to free text (DM67 downlink, UM67 uplink) holding the whole
/// body if no definition matches.
pub fn match_body_to_element(body: &str, direction: MessageDirection, registry: &[MessageDefinition]) -> (r: (
    String,
    Vec<CpdlcArgument>,
))
    ensures
        (r.0@, arg_values(r.1@)) == element_match(body@, direction, registry_view(registry@)),
{
    let ghost defs = registry_view(registry@);
    let bv = chars_of(body);
    let (a, b) = trim_bounds(&bv, 0, bv.len());
    proof {
        assert(bv@.subrange(0, bv@.len() as int) =~= bv@);
    }
    let trimmed = substring(body, a, b);
    let ghost tb = trim(body@);
    let mut best: Option<(usize, Vec<CpdlcArgument>, usize)> = None;
    let mut k: usize = 0;
    while k < registry.len()
        invariant
            k <= registry@.len(),
            defs == registry_view(registry@),
            trimmed@ == tb,
            match best {
                Some((bi, vals, bs)) => {
                    &&& bi < k
                    &&& is_candidate(tb, direction, defs, bi as int)
                    &&& bs == def_specificity(defs, bi as int)
                    &&& arg_values(vals@) == typed_args(
                        spec_try_match(tb, defs[bi as int].template, defs[bi as int].args.len())->0,
                        defs[bi as int].args,
                    )
                    &&& forall|j: int|
                        #![trigger is_candidate(tb, direction, defs, j)]
                        0 <= j < k && is_candidate(tb, direction, defs, j) ==> def_specificity(
                            defs,
                            j,
                        ) <= bs
                    &&& forall|j: int|
                        #![trigger is_candidate(tb, direction, defs, j)]
                        0 <= j < bi && is_candidate(tb, direction, defs, j) ==> def_specificity(
                            defs,
                            j,
                        ) < bs
                },
                None => forall|j: int|
                    #![trigger is_candidate(tb, direction, defs, j)]
                    0 <= j < k ==> !is_candidate(tb, direction, defs, j),
            },
        decreases registry@.len() - k,
    {
        let def = &registry[k];
        assert(defs[k as int] == def@);
        if def.direction == direction {
            match try_match_template(trimmed.as_str(), def) {
                Some(vals) => {
                    let spec_k = template_specificity(def.template.as_str());
                    let better = match &best {
                        None => true,
                        Some((_, _, bs)) => spec_k > *bs,
                    };
                    if better {
                        best = Some((k, vals, spec_k));
                    }
                },
                None => {},
            }
        }
        k = k + 1;
    }
    match best {
        Some((bi, vals, _)) => {
            proof {
                assert(is_best_candidate(tb, direction, defs, bi as int));
                let c = choose|i: int| is_best_candidate(tb, direction, defs, i);
                lemma_best_unique(tb, direction, defs, c, bi as int);
            }
            (registry[bi].id.clone(), vals)
        },
        None => {
            proof {
                if exists|i: int| is_best_candidate(tb, direction, defs, i) {
                    let c = choose|i: int| is_best_candidate(tb, direction, defs, i);
                    assert(is_candidate(tb, direction, defs, c));
                }
            }
            let id = match direction {
                MessageDirection::Downlink => "DM67".to_owned(),
                MessageDirection::Uplink => "UM67".to_owned(),
            };
            let mut vals: Vec<CpdlcArgument> = Vec::new();
            vals.push(CpdlcArgument::FreeText(trimmed));
            proof {
                assert(arg_values(vals@) =~= seq![ArgValue::Text(ArgType::FreeText, tb)]);
            }
            (id, vals)
        },
    }
}

/// Why a Hoppie packet could not be translated.
#[derive(Debug, Clone, Copy, PartialEq, Eq, Structural)]
pub enum TranslateError {
    /// The packet is not a `/data2/` CPDLC packet.
    MalformedPacket,
}

/// A Hoppie CPDLC message translated for OpenLink: the endpoints, the
/// bridge-assigned MIN, the MRN read from the packet, and the matched
/// message element with its typed arguments.
#[derive(Debug, Clone)]
pub struct TranslatedMessage {
    pub source: String,
    pub destination: String,
    pub min: u8,
    pub mrn: Option<u8>,
    pub element: MessageElement,
}

/// The MRN of a packet, read as a byte.
pub open spec fn packet_mrn(p: CpdlcPacketView) -> Option<u8> {
    match p.mrn {
        Some(m) => spec_parse_u8(m),
        None => None,
    }
}

/// Convert a Hoppie CPDLC packet into an OpenLink message.
///
/// `from_callsign` is the callsign of the Hoppie sender.
/// `to_callsign` is the bridge callsign that polled this message.
/// `min` is the bridge-assigned MIN for OpenLink.
pub fn hoppie_to_openlink(
    from_callsign: &str,
    to_callsign: &str,
    packet_str: &str,
    min: u8,
    direction: MessageDirection,
    registry: &[MessageDefinition],
) -> (r: Result<TranslatedMessage, TranslateError>)
    ensures
        spec_cpdlc_packet(packet_str@) is None ==> r == Err::<TranslatedMessage, TranslateError>(
            TranslateError::MalformedPacket,
        ),
        spec_cpdlc_packet(packet_str@) matches Some(p) ==> (r matches Ok(t) && t.source@
            == from_callsign@ && t.destination@ == to_callsign@ && t.min == min && t.mrn
            == packet_mrn(p) && (t.element.id@, arg_values(t.element.args@)) == element_match(
            p.body,
            direction,
            registry_view(registry@),
        )),
{
    let pkt = match parse_cpdlc_packet(packet_str) {
        Some(p) => p,
        None => {
            return Err(TranslateError::MalformedPacket);
        },
    };
    let (element_id, values) = match_body_to_element(pkt.body.as_str(), direction, registry);
    let mrn = match &pkt.mrn {
        Some(m) => parse_u8(m.as_str()),
        None => None,
    };
    Ok(
        TranslatedMessage {
            source: from_callsign.to_owned(),
            destination: to_callsign.to_owned(),
            min,
            mrn,
            element: MessageElement { id: element_id, args: values },
        },
    )
}

} // verus!

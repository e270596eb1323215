//! Character-level text primitives shared by the Hoppie parsers.
//!
//! Every routine works on the `Seq<char>` view of a `&str` and is proved
//! against a short mathematical statement: Unicode whitespace trimming,
//! first occurrences of a character or a substring, and ASCII case folding.
use vstd::prelude::*;
use vstd::string::*;

verus! {

broadcast use vstd::string::group_string_axioms;

/// The Unicode `White_Space` property, as `char::is_whitespace` tests it.
pub open spec fn is_ws(c: char) -> bool {
    ||| c == '\t'
    ||| c == '\n'
    ||| c == '\u{0B}'
    ||| c == '\u{0C}'
    ||| c == '\r'
    ||| c == ' '
    ||| c == '\u{85}'
    ||| c == '\u{A0}'
    ||| c == '\u{1680}'
    ||| ('\u{2000}' <= c && c <= '\u{200A}')
    ||| c == '\u{2028}'
    ||| c == '\u{2029}'
    ||| c == '\u{202F}'
    ||| c == '\u{205F}'
    ||| c == '\u{3000}'
}

/// `s` without its leading whitespace.
pub open spec fn trim_start(s: Seq<char>) -> Seq<char>
    decreases s.len(),
{
    if s.len() > 0 && is_ws(s[0]) {
        trim_start(s.drop_first())
    } else {
        s
    }
}

/// `s` without its trailing whitespace.
pub open spec fn trim_end(s: Seq<char>) -> Seq<char>
    decreases s.len(),
{
    if s.len() > 0 && is_ws(s.last()) {
        trim_end(s.drop_last())
    } else {
        s
    }
}

/// `s` without leading and trailing whitespace (`str::trim`).
pub open spec fn trim(s: Seq<char>) -> Seq<char> {
    trim_end(trim_start(s))
}

/// `s` without its leading blanks, where only `' '` and `'\n'` count.
pub open spec fn skip_blanks(s: Seq<char>) -> Seq<char>
    decreases s.len(),
{
    if s.len() > 0 && (s[0] == ' ' || s[0] == '\n') {
        skip_blanks(s.drop_first())
    } else {
        s
    }
}

/// `needle` occurs in `s` starting at position `p`.
pub open spec fn occurs_at(s: Seq<char>, needle: Seq<char>, p: int) -> bool {
    0 <= p && p + needle.len() <= s.len() && s.subrange(p, p + needle.len()) == needle
}

/// `p` is the first position of `s` at which `needle` occurs.
pub open spec fn is_first_occurrence(s: Seq<char>, needle: Seq<char>, p: int) -> bool {
    occurs_at(s, needle, p) && forall|q: int| 0 <= q < p ==> !occurs_at(s, needle, q)
}

/// The first position at which `needle` occurs in `s` (`str::find`).
pub open spec fn find_seq(s: Seq<char>, needle: Seq<char>) -> Option<int> {
    if exists|p: int| is_first_occurrence(s, needle, p) {
        Some(choose|p: int| is_first_occurrence(s, needle, p))
    } else {
        None
    }
}

/// `p` is the first position of `s` that holds `c`.
pub open spec fn is_first_char(s: Seq<char>, c: char, p: int) -> bool {
    0 <= p < s.len() && s[p] == c && forall|q: int| 0 <= q < p ==> s[q] != c
}

/// The first position of `c` in `s`.
pub open spec fn find_char(s: Seq<char>, c: char) -> Option<int> {
    if exists|p: int| is_first_char(s, c, p) {
        Some(choose|p: int| is_first_char(s, c, p))
    } else {
        None
    }
}

/// Everything in `s` before the first `c` and everything after it
/// (`str::split_once` with a character pattern).
pub open spec fn split_once(s: Seq<char>, c: char) -> Option<(Seq<char>, Seq<char>)> {
    match find_char(s, c) {
        Some(p) => Some((s.take(p), s.skip(p + 1))),
        None => None,
    }
}

/// `s` with its prefix `p` removed, if `s` starts with `p` (`str::strip_prefix`).
pub open spec fn strip_prefix(s: Seq<char>, p: Seq<char>) -> Option<Seq<char>> {
    if p.is_prefix_of(s) {
        Some(s.skip(p.len() as int))
    } else {
        None
    }
}

/// The ASCII uppercase of one character.
pub open spec fn ascii_upper_char(c: char) -> char {
    if 'a' <= c && c <= 'z' {
        ((c as u32) - 32) as char
    } else {
        c
    }
}

/// The ASCII lowercase of one character.
pub open spec fn ascii_lower_char(c: char) -> char {
    if 'A' <= c && c <= 'Z' {
        ((c as u32) + 32) as char
    } else {
        c
    }
}

/// All characters of `s` are ASCII.
pub open spec fn all_ascii(s: Seq<char>) -> bool {
    forall|i: int| 0 <= i < s.len() ==> (s[i] as u32) < 128
}

/// The ASCII uppercase of a text.
pub open spec fn ascii_upper(s: Seq<char>) -> Seq<char> {
    s.map_values(|c: char| ascii_upper_char(c))
}

/// The ASCII lowercase of a text.
pub open spec fn ascii_lower(s: Seq<char>) -> Seq<char> {
    s.map_values(|c: char| ascii_lower_char(c))
}

/// What `str::to_uppercase` returns for `s` (Unicode case mapping).
pub uninterp spec fn unicode_upper(s: Seq<char>) -> Seq<char>;

/// What `str::to_lowercase` returns for `s` (Unicode case mapping).
pub uninterp spec fn unicode_lower(s: Seq<char>) -> Seq<char>;

/// The uppercase of a text as `str::to_uppercase` gives it: the ASCII
/// uppercase for ASCII text, the Unicode case mapping otherwise.
pub open spec fn upper_text(s: Seq<char>) -> Seq<char> {
    if all_ascii(s) {
        ascii_upper(s)
    } else {
        unicode_upper(s)
    }
}

/// The lowercase of a text as `str::to_lowercase` gives it: the ASCII
/// lowercase for ASCII text, the Unicode case mapping otherwise.
pub open spec fn lower_text(s: Seq<char>) -> Seq<char> {
    if all_ascii(s) {
        ascii_lower(s)
    } else {
        unicode_lower(s)
    }
}

/// Calls `str::to_uppercase`. The contract names the result, and states the
/// one fact that the Unicode case tables give for ASCII text: each ASCII
/// letter maps to its ASCII uppercase, every other ASCII character to itself.
/// What the mapping does to non-ASCII text is left unsaid.
#[verifier::external_body]
pub(crate) fn to_uppercase(s: &str) -> (r: String)
    ensures
        r@ == unicode_upper(s@),
        all_ascii(s@) ==> r@ == ascii_upper(s@),
{
    s.to_uppercase()
}

/// Calls `str::to_lowercase`. The contract names the result, and states the
/// one fact that the Unicode case tables give for ASCII text: each ASCII
/// letter maps to its ASCII lowercase, every other ASCII character to itself.
/// What the mapping does to non-ASCII text is left unsaid.
#[verifier::external_body]
pub(crate) fn to_lowercase(s: &str) -> (r: String)
    ensures
        r@ == unicode_lower(s@),
        all_ascii(s@) ==> r@ == ascii_lower(s@),
{
    s.to_lowercase()
}

/// `char::is_whitespace`.
pub fn is_whitespace(c: char) -> (r: bool)
    ensures
        r == is_ws(c),
{
    c == '\t' || c == '\n' || c == '\u{0B}' || c == '\u{0C}' || c == '\r' || c == ' ' || c
        == '\u{85}' || c == '\u{A0}' || c == '\u{1680}' || ('\u{2000}' <= c && c <= '\u{200A}')
        || c == '\u{2028}' || c == '\u{2029}' || c == '\u{202F}' || c == '\u{205F}' || c
        == '\u{3000}'
}

/// The characters of `s`, in order.
pub fn chars_of(s: &str) -> (v: Vec<char>)
    ensures
        v@ == s@,
{
    let mut v: Vec<char> = Vec::new();
    for c in it: s.chars()
        invariant
            v@ == it.seq().take(it.index() as int),
    {
        v.push(c);
    }
    v
}

/// The characters `a..b` of `s`, as a new `String`.
pub fn substring(s: &str, a: usize, b: usize) -> (r: String)
    requires
        a <= b <= s@.len(),
    ensures
        r@ == s@.subrange(a as int, b as int),
{
    s.substring_char(a, b).to_owned()
}

/// The bounds, inside `lo..hi`, of the trimmed text `trim(v[lo..hi])`.
pub fn trim_bounds(v: &Vec<char>, lo: usize, hi: usize) -> (r: (usize, usize))
    requires
        lo <= hi <= v@.len(),
    ensures
        lo <= r.0 <= r.1 <= hi,
        v@.subrange(r.0 as int, r.1 as int) == trim(v@.subrange(lo as int, hi as int)),
{
    let mut a = lo;
    while a < hi && is_whitespace(v[a])
        invariant
            lo <= a <= hi <= v@.len(),
            trim_start(v@.subrange(lo as int, hi as int)) == trim_start(
                v@.subrange(a as int, hi as int),
            ),
        decreases hi - a,
    {
        assert(v@.subrange(a as int, hi as int).drop_first() =~= v@.subrange(
            a + 1,
            hi as int,
        ));
        a = a + 1;
    }
    assert(trim_start(v@.subrange(a as int, hi as int)) == v@.subrange(a as int, hi as int));
    let mut b = hi;
    while b > a && is_whitespace(v[b - 1])
        invariant
            lo <= a <= b <= hi <= v@.len(),
            trim_end(v@.subrange(a as int, hi as int)) == trim_end(
                v@.subrange(a as int, b as int),
            ),
        decreases b - a,
    {
        assert(v@.subrange(a as int, b as int).drop_last() =~= v@.subrange(
            a as int,
            b - 1,
        ));
        b = b - 1;
    }
    assert(trim_end(v@.subrange(a as int, b as int)) == v@.subrange(a as int, b as int));
    (a, b)
}

/// Whether `v[lo..hi]` spells the text `lit`.
pub fn range_eq(v: &Vec<char>, lo: usize, hi: usize, lit: &str) -> (r: bool)
    requires
        lo <= hi <= v@.len(),
    ensures
        r == (v@.subrange(lo as int, hi as int) == lit@),
{
    let w = chars_of(lit);
    if hi - lo != w.len() {
        return false;
    }
    let mut i: usize = 0;
    while i < w.len()
        invariant
            lo <= hi <= v@.len(),
            hi - lo == w@.len(),
            w@ == lit@,
            i <= w@.len(),
            forall|k: int| 0 <= k < i ==> v@[lo + k] == w@[k],
        decreases w@.len() - i,
    {
        if v[lo + i] != w[i] {
            assert(v@.subrange(lo as int, hi as int)[i as int] != w@[i as int]);
            return false;
        }
        i = i + 1;
    }
    assert(v@.subrange(lo as int, hi as int) =~= w@);
    true
}

/// Where `trim_start(v[lo..hi])` begins.
pub fn trim_start_bound(v: &Vec<char>, lo: usize, hi: usize) -> (r: usize)
    requires
        lo <= hi <= v@.len(),
    ensures
        lo <= r <= hi,
        v@.subrange(r as int, hi as int) == trim_start(v@.subrange(lo as int, hi as int)),
{
    let mut a = lo;
    while a < hi && is_whitespace(v[a])
        invariant
            lo <= a <= hi <= v@.len(),
            trim_start(v@.subrange(lo as int, hi as int)) == trim_start(
                v@.subrange(a as int, hi as int),
            ),
        decreases hi - a,
    {
        assert(v@.subrange(a as int, hi as int).drop_first() =~= v@.subrange(
            a + 1,
            hi as int,
        ));
        a = a + 1;
    }
    a
}

/// Where `trim_end(v[lo..hi])` ends.
pub fn trim_end_bound(v: &Vec<char>, lo: usize, hi: usize) -> (r: usize)
    requires
        lo <= hi <= v@.len(),
    ensures
        lo <= r <= hi,
        v@.subrange(lo as int, r as int) == trim_end(v@.subrange(lo as int, hi as int)),
{
    let mut b = hi;
    while b > lo && is_whitespace(v[b - 1])
        invariant
            lo <= b <= hi <= v@.len(),
            trim_end(v@.subrange(lo as int, hi as int)) == trim_end(
                v@.subrange(lo as int, b as int),
            ),
        decreases b - lo,
    {
        assert(v@.subrange(lo as int, b as int).drop_last() =~= v@.subrange(
            lo as int,
            b - 1,
        ));
        b = b - 1;
    }
    b
}

/// A copy of `v[a..b]`.
pub fn copy_range(v: &Vec<char>, a: usize, b: usize) -> (r: Vec<char>)
    requires
        a <= b <= v@.len(),
    ensures
        r@ == v@.subrange(a as int, b as int),
{
    let mut r: Vec<char> = Vec::new();
    let mut i = a;
    while i < b
        invariant
            a <= i <= b <= v@.len(),
            r@ == v@.subrange(a as int, i as int),
        decreases b - i,
    {
        r.push(v[i]);
        proof {
            assert(r@ =~= v@.subrange(a as int, i + 1));
        }
        i = i + 1;
    }
    r
}

/// Whether `w[wa..wb]` is a prefix of `v[lo..hi]`.
pub fn range_has_prefix(v: &Vec<char>, lo: usize, hi: usize, w: &Vec<char>, wa: usize, wb: usize) -> (r:
    bool)
    requires
        lo <= hi <= v@.len(),
        wa <= wb <= w@.len(),
    ensures
        r == w@.subrange(wa as int, wb as int).is_prefix_of(v@.subrange(lo as int, hi as int)),
{
    let ghost p = w@.subrange(wa as int, wb as int);
    let ghost s = v@.subrange(lo as int, hi as int);
    if hi - lo < wb - wa {
        return false;
    }
    let mut k: usize = 0;
    while k < wb - wa
        invariant
            lo <= hi <= v@.len(),
            wa <= wb <= w@.len(),
            wb - wa <= hi - lo,
            p == w@.subrange(wa as int, wb as int),
            s == v@.subrange(lo as int, hi as int),
            k <= wb - wa,
            forall|j: int| 0 <= j < k ==> p[j] == s[j],
        decreases wb - wa - k,
    {
        if v[lo + k] != w[wa + k] {
            assert(p[k as int] != s[k as int]);
            return false;
        }
        k = k + 1;
    }
    true
}

/// Whether two texts are equal.
pub fn str_eq(a: &str, b: &str) -> (r: bool)
    ensures
        r == (a@ == b@),
{
    let v = chars_of(a);
    let r = range_eq(&v, 0, v.len(), b);
    proof {
        assert(v@.subrange(0, v@.len() as int) =~= v@);
    }
    r
}

/// Whether `lit` is a prefix of `v[lo..hi]`.
pub fn range_starts_with(v: &Vec<char>, lo: usize, hi: usize, lit: &str) -> (r: bool)
    requires
        lo <= hi <= v@.len(),
    ensures
        r == lit@.is_prefix_of(v@.subrange(lo as int, hi as int)),
{
    let w = chars_of(lit);
    if hi - lo < w.len() {
        return false;
    }
    let end = lo + w.len();
    let r = range_eq(v, lo, end, lit);
    proof {
        if r {
            assert forall|k: int| 0 <= k < lit@.len() implies lit@[k] == v@.subrange(
                lo as int,
                hi as int,
            )[k] by {
                assert(v@.subrange(lo as int, end as int)[k] == lit@[k]);
            }
        } else {
            if lit@.is_prefix_of(v@.subrange(lo as int, hi as int)) {
                assert(v@.subrange(lo as int, end as int) =~= lit@);
            }
        }
    }
    r
}

/// The first position at or after `from`, and before `hi`, that holds `c`.
pub fn find_char_in(v: &Vec<char>, from: usize, hi: usize, c: char) -> (r: Option<usize>)
    requires
        from <= hi <= v@.len(),
    ensures
        match r {
            Some(p) => from <= p < hi && is_first_char(
                v@.subrange(from as int, hi as int),
                c,
                p - from,
            ),
            None => forall|q: int| from <= q < hi ==> v@[q] != c,
        },
{
    let mut i = from;
    while i < hi
        invariant
            from <= i <= hi <= v@.len(),
            forall|q: int| from <= q < i ==> v@[q] != c,
        decreases hi - i,
    {
        if v[i] == c {
            return Some(i);
        }
        i = i + 1;
    }
    None
}

/// `find_char` read from an index search over `s`.
pub proof fn lemma_find_char_some(s: Seq<char>, c: char, p: int)
    requires
        is_first_char(s, c, p),
    ensures
        find_char(s, c) == Some(p),
{
    let q = choose|q: int| is_first_char(s, c, q);
    assert(is_first_char(s, c, q));
    if q < p {
        assert(s[q] != c);
    }
    if p < q {
        assert(s[p] != c);
    }
}

/// What `find_char` reports.
pub proof fn lemma_find_char_facts(s: Seq<char>, c: char)
    ensures
        match find_char(s, c) {
            Some(p) => is_first_char(s, c, p),
            None => forall|q: int| 0 <= q < s.len() ==> s[q] != c,
        },
{
    if !(exists|p: int| is_first_char(s, c, p)) {
        assert forall|q: int| 0 <= q < s.len() implies s[q] != c by {
            if s[q] == c {
                if exists|k: int| 0 <= k < q && s[k] == c {
                    let k0 = choose|k: int| 0 <= k < q && s[k] == c;
                    lemma_first_char_below(s, c, k0);
                } else {
                    assert(is_first_char(s, c, q));
                }
            }
        }
    }
}

/// Some position up to `k` is the first one holding `c`, when `s[k]` holds it.
pub proof fn lemma_first_char_below(s: Seq<char>, c: char, k: int)
    requires
        0 <= k < s.len(),
        s[k] == c,
    ensures
        exists|p: int| is_first_char(s, c, p),
    decreases k,
{
    if exists|j: int| 0 <= j < k && s[j] == c {
        let j = choose|j: int| 0 <= j < k && s[j] == c;
        lemma_first_char_below(s, c, j);
    } else {
        assert(is_first_char(s, c, k));
    }
}

/// Trimming the start never lengthens a text.
pub proof fn lemma_trim_start_len(s: Seq<char>)
    ensures
        trim_start(s).len() <= s.len(),
    decreases s.len(),
{
    if s.len() > 0 {
        lemma_trim_start_len(s.drop_first());
    }
}

/// Trimming the end never lengthens a text.
pub proof fn lemma_trim_end_len(s: Seq<char>)
    ensures
        trim_end(s).len() <= s.len(),
    decreases s.len(),
{
    if s.len() > 0 {
        lemma_trim_end_len(s.drop_last());
    }
}

/// A trimmed text is no longer than the text.
pub proof fn lemma_trim_len(s: Seq<char>)
    ensures
        trim(s).len() <= s.len(),
{
    lemma_trim_start_len(s);
    lemma_trim_end_len(trim_start(s));
}

/// `find_char` is `None` when `c` does not occur.
pub proof fn lemma_find_char_none(s: Seq<char>, c: char)
    requires
        forall|q: int| 0 <= q < s.len() ==> s[q] != c,
    ensures
        find_char(s, c) == None::<int>,
{
    if exists|p: int| is_first_char(s, c, p) {
        let p = choose|p: int| is_first_char(s, c, p);
        assert(s[p] == c);
    }
}

/// Whether `needle` occurs in `v` at position `p`, inside `..hi`.
fn occurs_in(v: &Vec<char>, hi: usize, needle: &Vec<char>, p: usize) -> (r: bool)
    requires
        hi <= v@.len(),
        p <= hi,
    ensures
        r == occurs_at(v@.subrange(0, hi as int), needle@, p as int),
{
    if hi - p < needle.len() {
        return false;
    }
    let mut k: usize = 0;
    while k < needle.len()
        invariant
            hi <= v@.len(),
            p + needle@.len() <= hi,
            k <= needle@.len(),
            forall|j: int| 0 <= j < k ==> v@[p + j] == needle@[j],
        decreases needle@.len() - k,
    {
        if v[p + k] != needle[k] {
            assert(v@.subrange(0, hi as int).subrange(p as int, p + needle@.len())[k as int]
                != needle@[k as int]);
            return false;
        }
        k = k + 1;
    }
    assert(v@.subrange(0, hi as int).subrange(p as int, p + needle@.len()) =~= needle@);
    true
}

/// The first position at or after `from` where `needle` occurs inside `v[..hi]`,
/// as `str::find` reports it for `v[from..hi]`.
pub fn find_seq_in(v: &Vec<char>, from: usize, hi: usize, needle: &Vec<char>) -> (r: Option<
    usize,
>)
    requires
        from <= hi <= v@.len(),
    ensures
        match r {
            Some(p) => from <= p && p + needle@.len() <= hi && find_seq(
                v@.subrange(from as int, hi as int),
                needle@,
            ) == Some(p - from),
            None => find_seq(v@.subrange(from as int, hi as int), needle@) == None::<int>,
        },
{
    let ghost s = v@.subrange(from as int, hi as int);
    let mut i = from;
    while i <= hi
        invariant
            from <= i <= hi + 1,
            hi <= v@.len(),
            s == v@.subrange(from as int, hi as int),
            forall|q: int| 0 <= q < i - from ==> !occurs_at(s, needle@, q),
        decreases hi + 1 - i,
    {
        let found = occurs_in(v, hi, needle, i);
        proof {
            assert(occurs_at(v@.subrange(0, hi as int), needle@, i as int) == occurs_at(
                s,
                needle@,
                i - from,
            )) by {
                if i + needle@.len() <= hi {
                    assert(v@.subrange(0, hi as int).subrange(i as int, i + needle@.len())
                        =~= s.subrange(i - from, i - from + needle@.len()));
                }
            }
        }
        if found {
            proof {
                let p = (i - from) as int;
                assert(is_first_occurrence(s, needle@, p));
                let q = choose|q: int| is_first_occurrence(s, needle@, q);
                if q < p {
                    assert(!occurs_at(s, needle@, q));
                }
                if p < q {
                    assert(!occurs_at(s, needle@, p));
                }
            }
            return Some(i);
        }
        if i == hi {
            proof {
                if exists|p: int| is_first_occurrence(s, needle@, p) {
                    let p = choose|p: int| is_first_occurrence(s, needle@, p);
                    assert(!occurs_at(s, needle@, p));
                }
            }
            return None;
        }
        i = i + 1;
    }
    proof {
        if exists|p: int| is_first_occurrence(s, needle@, p) {
            let p = choose|p: int| is_first_occurrence(s, needle@, p);
            assert(!occurs_at(s, needle@, p));
        }
    }
    None
}

/// `needle` occurs somewhere in `s` (`str::contains`).
pub open spec fn contains_seq(s: Seq<char>, needle: Seq<char>) -> bool {
    exists|p: int| occurs_at(s, needle, p)
}

/// The ASCII uppercase of the characters of `s` (`str::to_ascii_uppercase`).
pub fn ascii_upper_chars(s: &str) -> (r: Vec<char>)
    ensures
        r@ == ascii_upper(s@),
{
    let v = chars_of(s);
    let mut u: Vec<char> = Vec::new();
    let mut i: usize = 0;
    while i < v.len()
        invariant
            v@ == s@,
            i <= v@.len(),
            u@ == ascii_upper(v@.subrange(0, i as int)),
        decreases v@.len() - i,
    {
        let c = v[i];
        let uc = if 'a' <= c && c <= 'z' {
            ((c as u8) - 32) as char
        } else {
            c
        };
        u.push(uc);
        proof {
            assert(uc == ascii_upper_char(c));
            assert(u@ =~= ascii_upper(v@.subrange(0, i + 1)));
        }
        i = i + 1;
    }
    proof {
        assert(v@.subrange(0, v@.len() as int) =~= v@);
    }
    u
}

/// Whether the ASCII uppercase of `text` contains `needle`.
pub fn upper_contains(text: &str, needle: &str) -> (r: bool)
    ensures
        r == contains_seq(ascii_upper(text@), needle@),
{
    let u = ascii_upper_chars(text);
    let n = chars_of(needle);
    let found = find_seq_in(&u, 0, u.len(), &n);
    proof {
        let s = u@.subrange(0, u@.len() as int);
        assert(s =~= u@);
        if contains_seq(u@, n@) {
            let p = choose|p: int| occurs_at(u@, n@, p);
            if found is None {
                // the least occurrence is a first occurrence
                lemma_first_occurrence_exists(u@, n@, p);
            }
        }
        if found is Some {
            let p = choose|p: int| is_first_occurrence(s, n@, p);
            assert(occurs_at(u@, n@, p));
        }
    }
    found.is_some()
}

/// Where `needle` occurs at `p`, it has a first occurrence.
pub proof fn lemma_first_occurrence_exists(s: Seq<char>, needle: Seq<char>, p: int)
    requires
        occurs_at(s, needle, p),
    ensures
        exists|q: int| is_first_occurrence(s, needle, q),
    decreases p,
{
    if exists|q: int| 0 <= q < p && occurs_at(s, needle, q) {
        let q = choose|q: int| 0 <= q < p && occurs_at(s, needle, q);
        lemma_first_occurrence_exists(s, needle, q);
    } else {
        assert(is_first_occurrence(s, needle, p));
    }
}

/// `str::trim`, as a new `String`.
pub fn trimmed(s: &str) -> (r: String)
    ensures
        r@ == trim(s@),
{
    let v = chars_of(s);
    let (a, b) = trim_bounds(&v, 0, v.len());
    proof {
        assert(v@.subrange(0, v@.len() as int) =~= v@);
    }
    substring(s, a, b)
}

/// Whether `hay` contains `needle` (`str::contains`).
pub fn str_contains(hay: &str, needle: &str) -> (r: bool)
    ensures
        r == contains_seq(hay@, needle@),
{
    let u = chars_of(hay);
    let n = chars_of(needle);
    let found = find_seq_in(&u, 0, u.len(), &n);
    proof {
        let s = u@.subrange(0, u@.len() as int);
        assert(s =~= u@);
        if contains_seq(u@, n@) {
            let p = choose|p: int| occurs_at(u@, n@, p);
            if found is None {
                lemma_first_occurrence_exists(u@, n@, p);
            }
        }
        if found is Some {
            let p = choose|p: int| is_first_occurrence(s, n@, p);
            assert(occurs_at(u@, n@, p));
        }
    }
    found.is_some()
}

/// How many bytes UTF-8 takes for a character.
pub open spec fn utf8_width(c: char) -> nat {
    if (c as u32) < 0x80 {
        1
    } else if (c as u32) < 0x800 {
        2
    } else if (c as u32) < 0x10000 {
        3
    } else {
        4
    }
}

/// The length in bytes of a text in UTF-8 (`str::len`).
pub open spec fn utf8_len(s: Seq<char>) -> nat
    decreases s.len(),
{
    if s.len() == 0 {
        0
    } else {
        utf8_len(s.drop_last()) + utf8_width(s.last())
    }
}

/// The UTF-8 length of `s` when it is at most `limit`, else `limit + 1`.
pub fn utf8_len_upto(s: &str, limit: usize) -> (r: usize)
    requires
        limit < usize::MAX,
    ensures
        r == (if utf8_len(s@) <= limit {
            utf8_len(s@)
        } else {
            (limit + 1) as nat
        }),
{
    let v = chars_of(s);
    let mut total: usize = 0;
    let mut i: usize = 0;
    while i < v.len()
        invariant
            v@ == s@,
            i <= v@.len(),
            limit < usize::MAX,
            total == utf8_len(v@.subrange(0, i as int)),
            total <= limit,
        decreases v@.len() - i,
    {
        let c = v[i];
        let w: usize = if (c as u32) < 0x80 {
            1
        } else if (c as u32) < 0x800 {
            2
        } else if (c as u32) < 0x10000 {
            3
        } else {
            4
        };
        proof {
            assert(v@.subrange(0, i + 1).drop_last() =~= v@.subrange(0, i as int));
            assert(v@.subrange(0, i + 1).last() == c);
            assert(w == utf8_width(c));
        }
        if w > limit - total {
            proof {
                lemma_utf8_len_prefix(v@, i + 1);
            }
            return limit + 1;
        }
        total = total + w;
        i = i + 1;
    }
    proof {
        assert(v@.subrange(0, v@.len() as int) =~= v@);
    }
    total
}

/// A text is at least as long in UTF-8 as any of its prefixes.
pub proof fn lemma_utf8_len_prefix(s: Seq<char>, k: int)
    requires
        0 <= k <= s.len(),
    ensures
        utf8_len(s.subrange(0, k)) <= utf8_len(s),
    decreases s.len() - k,
{
    if k < s.len() {
        lemma_utf8_len_prefix(s, k + 1);
        assert(s.subrange(0, k + 1).drop_last() =~= s.subrange(0, k));
    } else {
        assert(s.subrange(0, k) =~= s);
    }
}


/// `prefix` followed by `rest`, as one string.
pub fn joined(prefix: &str, rest: &str) -> (r: String)
    ensures
        r@ == prefix@ + rest@,
{
    let mut s = prefix.to_owned();
    s.append(rest);
    s
}

/// Whether `s` starts with `prefix` (`str::starts_with`).
pub fn str_starts_with(s: &str, prefix: &str) -> (r: bool)
    ensures
        r == prefix@.is_prefix_of(s@),
{
    let v = chars_of(s);
    let r = range_starts_with(&v, 0, v.len(), prefix);
    proof {
        assert(v@.subrange(0, v@.len() as int) =~= v@);
    }
    r
}


/// The UTF-8 length of two texts together is the sum of their lengths.
pub proof fn lemma_utf8_concat(a: Seq<char>, b: Seq<char>)
    ensures
        utf8_len(a + b) == utf8_len(a) + utf8_len(b),
    decreases b.len(),
{
    if b.len() == 0 {
        assert(a + b =~= a);
    } else {
        lemma_utf8_concat(a, b.drop_last());
        assert((a + b).drop_last() =~= a + b.drop_last());
        assert((a + b).last() == b.last());
    }
}

/// `utf8_len` is the length of the UTF-8 encoding.
pub proof fn lemma_utf8_encoded_len(s: Seq<char>)
    ensures
        vstd::utf8::encode_utf8(s).len() == utf8_len(s),
    decreases s.len(),
{
    if s.len() > 0 {
        lemma_utf8_encoded_len(s.drop_first());
        lemma_utf8_concat(seq![s[0]], s.drop_first());
        assert(seq![s[0]] + s.drop_first() =~= s);
        assert(seq![s[0]].drop_last() =~= Seq::<char>::empty());
        assert(utf8_len(Seq::<char>::empty()) == 0);
        assert(seq![s[0]].last() == s[0]);
        assert(utf8_len(seq![s[0]]) == utf8_width(s[0]));
        assert(utf8_len(s) == utf8_len(seq![s[0]]) + utf8_len(s.drop_first()));
        lemma_scalar_width(s[0]);
        assert(vstd::utf8::encode_utf8(s) == vstd::utf8::encode_scalar(s[0] as u32)
            + vstd::utf8::encode_utf8(s.drop_first()));
    }
}

/// A character takes `utf8_width` bytes in UTF-8.
proof fn lemma_scalar_width(c: char)
    ensures
        vstd::utf8::encode_scalar(c as u32).len() == utf8_width(c),
{
    let v = c as u32;
    assert(0 <= (c as int) <= 0x10FFFF);
    assert(!(0xD800 <= (c as int) <= 0xDFFF));
    assert(v as int == c as int);
}

/// Trimming never lengthens a text in UTF-8.
pub proof fn lemma_utf8_trim(s: Seq<char>)
    ensures
        utf8_len(trim(s)) <= utf8_len(s),
{
    lemma_utf8_trim_start(s);
    lemma_utf8_trim_end(trim_start(s));
}

proof fn lemma_utf8_trim_start(s: Seq<char>)
    ensures
        utf8_len(trim_start(s)) <= utf8_len(s),
    decreases s.len(),
{
    if s.len() > 0 && is_ws(s[0]) {
        lemma_utf8_trim_start(s.drop_first());
        lemma_utf8_concat(seq![s[0]], s.drop_first());
        assert(seq![s[0]] + s.drop_first() =~= s);
    }
}

proof fn lemma_utf8_trim_end(s: Seq<char>)
    ensures
        utf8_len(trim_end(s)) <= utf8_len(s),
    decreases s.len(),
{
    if s.len() > 0 && is_ws(s.last()) {
        lemma_utf8_trim_end(s.drop_last());
    }
}

/// The length of a text in UTF-8 bytes (`str::len`).
pub fn utf8_byte_len(s: &str) -> (r: usize)
    ensures
        r == utf8_len(s@),
{
    let b = s.as_bytes();
    proof {
        lemma_utf8_encoded_len(s@);
    }
    b.len()
}

} // verus!

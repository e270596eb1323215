//! Text layout of the A320 DCDU screen: four lines of 24 characters.
use vstd::prelude::*;
use vstd::string::*;
use crate::text::{
    chars_of, is_whitespace, is_ws, lemma_trim_end_len, str_eq, substring, to_uppercase, trim_end,
    trim_end_bound, upper_text,
};

verus! {

broadcast use vstd::string::group_string_axioms;

/// Width of a DCDU line, in characters.
pub const DCDU_WIDTH: usize = 24;

/// The whitespace-separated words of `s`, with `cur` the word being read
/// (`str::split_whitespace`).
pub open spec fn words_from(s: Seq<char>, cur: Seq<char>) -> Seq<Seq<char>>
    decreases s.len(),
{
    let done = if cur.len() > 0 {
        seq![cur]
    } else {
        Seq::<Seq<char>>::empty()
    };
    if s.len() == 0 {
        done
    } else if is_ws(s[0]) {
        done + words_from(s.drop_first(), seq![])
    } else {
        words_from(s.drop_first(), cur.push(s[0]))
    }
}

/// The whitespace-separated words of `s`.
pub open spec fn words(s: Seq<char>) -> Seq<Seq<char>> {
    words_from(s, seq![])
}

/// The screen lines and the line being filled, after cutting the leading
/// 24-character pieces off an over-long word `w`; the flag tells whether the
/// screen filled up on the way.
pub open spec fn cut_long_word(lines: Seq<Seq<char>>, cur: Seq<char>, w: Seq<char>) -> (
    Seq<Seq<char>>,
    Seq<char>,
    Seq<char>,
    bool,
)
    decreases w.len(),
{
    if w.len() > 24 {
        let l1 = if cur.len() > 0 {
            lines.push(trim_end(cur))
        } else {
            lines
        };
        let c1 = if cur.len() > 0 {
            Seq::<char>::empty()
        } else {
            cur
        };
        let l2 = l1.push(w.take(24));
        if l2.len() >= 4 {
            (l2, c1, w.skip(24), true)
        } else {
            cut_long_word(l2, c1, w.skip(24))
        }
    } else {
        (lines, cur, w, false)
    }
}

/// Place a word of at most 24 characters: on the current line when it fits
/// after a space, else on a new line.
pub open spec fn place_word(lines: Seq<Seq<char>>, cur: Seq<char>, w: Seq<char>) -> (
    Seq<Seq<char>>,
    Seq<char>,
) {
    let cand: int = if cur.len() == 0 {
        w.len() as int
    } else {
        cur.len() + 1 + w.len() as int
    };
    if cand > 24 {
        (lines.push(trim_end(cur)), w)
    } else if cur.len() == 0 {
        (lines, w)
    } else {
        (lines, cur + seq![' '] + w)
    }
}

/// The lines of the screen after laying out the upper-cased words `ws[k..]`:
/// `(lines, current, full)`, where `full` means the screen filled up while
/// cutting a long word.
pub open spec fn lay_out(lines: Seq<Seq<char>>, cur: Seq<char>, ws: Seq<Seq<char>>, k: int) -> (
    Seq<Seq<char>>,
    Seq<char>,
    bool,
)
    decreases ws.len() - k,
{
    if k < 0 || k >= ws.len() {
        (lines, cur, false)
    } else {
        let cut = cut_long_word(lines, cur, upper_text(ws[k]));
        if cut.3 {
            (cut.0, cut.1, true)
        } else {
            let placed = place_word(cut.0, cut.1, cut.2);
            if placed.0.len() >= 4 {
                (placed.0, placed.1, false)
            } else {
                lay_out(placed.0, placed.1, ws, k + 1)
            }
        }
    }
}

/// `s` padded with spaces to at least 24 characters.
pub open spec fn pad24(s: Seq<char>) -> Seq<char> {
    if s.len() >= 24 {
        s
    } else {
        s + Seq::new((24 - s.len()) as nat, |i: int| ' ')
    }
}

/// The four screen lines, padded, that the laid-out lines give.
pub open spec fn screen_lines(laid: (Seq<Seq<char>>, Seq<char>, bool)) -> Seq<Seq<char>> {
    let lines = if !laid.2 && laid.0.len() < 4 && laid.1.len() > 0 {
        laid.0.push(trim_end(laid.1))
    } else {
        laid.0
    };
    Seq::new(4, |i: int| if i < lines.len() { pad24(lines[i]) } else { pad24(seq![]) })
}

/// The four DCDU lines for `text`.
pub open spec fn spec_dcdu_wrap(text: Seq<char>) -> Seq<Seq<char>> {
    screen_lines(lay_out(seq![], seq![], words(text), 0))
}

/// The words of `s`, in order.
fn split_words(s: &str) -> (r: Vec<String>)
    ensures
        r@.map_values(|w: String| w@) == words(s@),
{
    let v = chars_of(s);
    let n = v.len();
    let mut out: Vec<String> = Vec::new();
    let mut start: usize = 0;
    let mut i: usize = 0;
    proof {
        assert(v@.skip(0) =~= v@);
        assert(v@.subrange(0, 0) =~= Seq::<char>::empty());
        assert(out@.map_values(|w: String| w@) =~= Seq::<Seq<char>>::empty());
    }
    while i < n
        invariant
            start <= i <= n == v@.len(),
            v@ == s@,
            out@.map_values(|w: String| w@) + words_from(v@.skip(i as int), v@.subrange(
                start as int,
                i as int,
            )) == words(s@),
        decreases n - i,
    {
        let ghost before = out@.map_values(|w: String| w@);
        let ghost cur = v@.subrange(start as int, i as int);
        proof {
            assert(v@.skip(i as int)[0] == v@[i as int]);
            assert(v@.skip(i as int).drop_first() =~= v@.skip(i + 1));
        }
        if is_whitespace(v[i]) {
            if start < i {
                let w = substring(s, start, i);
                out.push(w);
                proof {
                    assert(out@.map_values(|w: String| w@) =~= before.push(cur));
                    assert(v@.subrange(i + 1, i + 1) =~= Seq::<char>::empty());
                    assert(out@.map_values(|w: String| w@) + words_from(
                        v@.skip(i + 1),
                        seq![],
                    ) =~= before + (seq![cur] + words_from(v@.skip(i + 1), seq![])));
                }
            } else {
                proof {
                    assert(cur =~= Seq::<char>::empty());
                    assert(v@.subrange(i + 1, i + 1) =~= Seq::<char>::empty());
                    assert(Seq::<Seq<char>>::empty() + words_from(v@.skip(i + 1), seq![])
                        =~= words_from(v@.skip(i + 1), seq![]));
                }
            }
            start = i + 1;
        } else {
            proof {
                assert(cur.push(v@[i as int]) =~= v@.subrange(start as int, i + 1));
            }
        }
        i = i + 1;
    }
    let ghost before = out@.map_values(|w: String| w@);
    let ghost cur = v@.subrange(start as int, n as int);
    proof {
        assert(v@.skip(n as int) =~= Seq::<char>::empty());
    }
    if start < n {
        let w = substring(s, start, n);
        out.push(w);
        proof {
            assert(out@.map_values(|w: String| w@) =~= before.push(cur));
            assert(before.push(cur) =~= before + seq![cur]);
        }
    } else {
        proof {
            assert(before + Seq::<Seq<char>>::empty() =~= before);
        }
    }
    out
}

/// The number of characters of a text.
fn char_count(s: &str) -> (r: usize)
    ensures
        r == s@.len(),
{
    chars_of(s).len()
}

/// `s` without its trailing whitespace.
fn trim_end_string(s: &str) -> (r: String)
    ensures
        r@ == trim_end(s@),
{
    let v = chars_of(s);
    let b = trim_end_bound(&v, 0, v.len());
    proof {
        assert(v@.subrange(0, v@.len() as int) =~= v@);
    }
    substring(s, 0, b)
}

/// `s` padded with spaces to at least 24 characters (`format!("{:<24}", s)`).
fn pad_to_width(s: &str) -> (r: String)
    ensures
        r@ == pad24(s@),
{
    let mut r = s.to_owned();
    let mut n = char_count(s);
    proof {
        reveal_strlit(" ");
    }
    while n < DCDU_WIDTH
        invariant
            n <= 24 || n == s@.len(),
            n == r@.len(),
            s@.len() <= 24 ==> n <= 24,
            r@ == s@ + Seq::new((n - s@.len()) as nat, |i: int| ' '),
            n >= s@.len(),
            " "@ == seq![' '],
        decreases 24 - n,
    {
        let ghost before = r@;
        r.append(" ");
        proof {
            assert(r@ == before + seq![' ']);
        }
        proof {
            assert(r@ =~= s@ + Seq::new((n + 1 - s@.len()) as nat, |i: int| ' '));
        }
        n = n + 1;
    }
    proof {
        if s@.len() >= 24 {
            assert(r@ =~= s@);
        }
    }
    r
}

/// Views of a list of lines.
pub open spec fn line_texts(v: Seq<String>) -> Seq<Seq<char>> {
    v.map_values(|w: String| w@)
}

/// The four padded screen lines for `lines` (padded with empty lines).
fn finish_screen(lines: &Vec<String>) -> (r: [String; 4])
    ensures
        forall|i: int|
            0 <= i < 4 ==> #[trigger] r[i]@ == (if i < lines@.len() {
                pad24(lines@[i]@)
            } else {
                pad24(seq![])
            }),
{
    let l0 = if lines.len() > 0 {
        pad_to_width(lines[0].as_str())
    } else {
        pad_to_width("")
    };
    let l1 = if lines.len() > 1 {
        pad_to_width(lines[1].as_str())
    } else {
        pad_to_width("")
    };
    let l2 = if lines.len() > 2 {
        pad_to_width(lines[2].as_str())
    } else {
        pad_to_width("")
    };
    let l3 = if lines.len() > 3 {
        pad_to_width(lines[3].as_str())
    } else {
        pad_to_width("")
    };
    proof {
        reveal_strlit("");
    }
    let r = [l0, l1, l2, l3];
    proof {
        assert(r[0] == l0);
        assert(r[1] == l1);
        assert(r[2] == l2);
        assert(r[3] == l3);
    }
    r
}

/// Wrap a text onto the DCDU screen: upper-cased words, four lines of 24
/// characters, long words cut into 24-character pieces; what does not fit
/// is dropped.
pub fn dcdu_wrap_24x4(text: &str) -> (r: [String; 4])
    ensures
        forall|i: int| 0 <= i < 4 ==> #[trigger] r[i]@ == spec_dcdu_wrap(text@)[i],
{
    let ws = split_words(text);
    let ghost wsv = ws@.map_values(|w: String| w@);
    let ghost goal = lay_out(seq![], seq![], wsv, 0);
    let mut lines: Vec<String> = Vec::new();
    let mut current = String::new();
    let mut k: usize = 0;
    proof {
        reveal_strlit(" ");
        assert(line_texts(lines@) =~= Seq::<Seq<char>>::empty());
    }
    while k < ws.len()
        invariant
            k <= ws@.len(),
            wsv == ws@.map_values(|w: String| w@),
            wsv == words(text@),
            goal == lay_out(seq![], seq![], wsv, 0),
            line_texts(lines@).len() < 4,
            lay_out(line_texts(lines@), current@, wsv, k as int) == goal,
            " "@ == seq![' '],
            current@.len() <= 24,
        decreases ws@.len() - k,
    {
        let mut word = to_uppercase(ws[k].as_str());
        let mut wl = char_count(word.as_str());
        let ghost l0 = line_texts(lines@);
        let ghost c0 = current@;
        let ghost w0 = word@;
        assert(ws@[k as int]@ == wsv[k as int]);
        assert(w0 == upper_text(wsv[k as int]));
        while wl > DCDU_WIDTH
            invariant
                wl == word@.len(),
                line_texts(lines@).len() < 4,
                cut_long_word(line_texts(lines@), current@, word@) == cut_long_word(l0, c0, w0),
                lay_out(l0, c0, wsv, k as int) == goal,
                0 <= k < wsv.len(),
                w0 == upper_text(wsv[k as int]),
                current@.len() <= 24,
                goal == lay_out(seq![], seq![], wsv, 0),
                wsv == words(text@),
            decreases wl,
        {
            let ghost lb = line_texts(lines@);
            let ghost cb = current@;
            let ghost wb = word@;
            if char_count(current.as_str()) > 0 {
                lines.push(trim_end_string(current.as_str()));
                current = String::new();
                proof {
                    assert(line_texts(lines@) =~= lb.push(trim_end(cb)));
                }
            }
            let head = substring(word.as_str(), 0, DCDU_WIDTH);
            let ghost lm = line_texts(lines@);
            lines.push(head);
            let rest = substring(word.as_str(), DCDU_WIDTH, wl);
            proof {
                assert(wb.take(24) =~= head@);
                assert(wb.skip(24) =~= rest@);
                assert(line_texts(lines@) =~= lm.push(head@));
                assert(cut_long_word(lb, cb, wb) == (if line_texts(lines@).len() >= 4 {
                    (line_texts(lines@), current@, rest@, true)
                } else {
                    cut_long_word(line_texts(lines@), current@, rest@)
                }));
            }
            word = rest;
            wl = wl - DCDU_WIDTH;
            if lines.len() >= 4 {
                let r = finish_screen(&lines);
                proof {
                    let laid = (line_texts(lines@), current@, true);
                    assert(lay_out(l0, c0, wsv, k as int) == laid);
                    assert(spec_dcdu_wrap(text@) == screen_lines(laid));
                    assert forall|i: int| 0 <= i < 4 implies #[trigger] r[i]@ == spec_dcdu_wrap(
                        text@,
                    )[i] by {
                        if i < lines@.len() {
                            assert(lines@[i]@ == line_texts(lines@)[i]);
                        }
                    }
                }
                return r;
            }
        }
        let ghost lc = line_texts(lines@);
        let ghost cc = current@;
        proof {
            assert(cut_long_word(lc, cc, word@) == (lc, cc, word@, false));
        }
        let wl2 = char_count(word.as_str());
        let cl = char_count(current.as_str());
        let cand = if cl == 0 {
            wl2
        } else {
            cl + 1 + wl2
        };
        if cand > DCDU_WIDTH {
            lines.push(trim_end_string(current.as_str()));
            current = word;
            proof {
                assert(line_texts(lines@) =~= lc.push(trim_end(cc)));
            }
        } else {
            if cl > 0 {
                current.append(" ");
            }
            current.append(word.as_str());
            proof {
                if cc.len() == 0 {
                    assert(current@ =~= word@);
                }
            }
        }
        proof {
            assert(place_word(lc, cc, word@) == (line_texts(lines@), current@));
        }
        if lines.len() >= 4 {
            let r = finish_screen(&lines);
            proof {
                let laid = (line_texts(lines@), current@, false);
                assert(lay_out(l0, c0, wsv, k as int) == laid);
                assert(spec_dcdu_wrap(text@) == screen_lines(laid));
                assert forall|i: int| 0 <= i < 4 implies #[trigger] r[i]@ == spec_dcdu_wrap(
                    text@,
                )[i] by {
                    if i < lines@.len() {
                        assert(lines@[i]@ == line_texts(lines@)[i]);
                    }
                }
            }
            return r;
        }
        k = k + 1;
    }
    let ghost lf = line_texts(lines@);
    proof {
        assert(lay_out(lf, current@, wsv, k as int) == (lf, current@, false));
    }
    if lines.len() < 4 && char_count(current.as_str()) > 0 {
        lines.push(trim_end_string(current.as_str()));
        proof {
            assert(line_texts(lines@) =~= lf.push(trim_end(current@)));
        }
    }
    let r = finish_screen(&lines);
    proof {
        assert forall|i: int| 0 <= i < 4 implies #[trigger] r[i]@ == spec_dcdu_wrap(text@)[i] by {
            if i < lines@.len() {
                assert(lines@[i]@ == line_texts(lines@)[i]);
            }
        }
    }
    r
}

/// The DCDU label of a response button (`STANDBY` is shown as `STBY`).
pub fn dcdu_label(label: &str) -> (r: &str)
    ensures
        label@ == "STANDBY"@ ==> r@ == "STBY"@,
        label@ != "STANDBY"@ ==> r@ == label@,
{
    if str_eq(label, "STANDBY") {
        "STBY"
    } else {
        label
    }
}

/// Every line of the list has at most 24 characters.
pub open spec fn lines_fit(lines: Seq<Seq<char>>) -> bool {
    forall|i: int| 0 <= i < lines.len() ==> (#[trigger] lines[i]).len() <= 24
}

proof fn lemma_cut_fits(lines: Seq<Seq<char>>, cur: Seq<char>, w: Seq<char>)
    requires
        lines_fit(lines),
        cur.len() <= 24,
    ensures
        lines_fit(cut_long_word(lines, cur, w).0),
        cut_long_word(lines, cur, w).1.len() <= 24,
        !cut_long_word(lines, cur, w).3 ==> cut_long_word(lines, cur, w).2.len() <= 24,
    decreases w.len(),
{
    if w.len() > 24 {
        lemma_trim_end_len(cur);
        let l1 = if cur.len() > 0 {
            lines.push(trim_end(cur))
        } else {
            lines
        };
        let c1 = if cur.len() > 0 {
            Seq::<char>::empty()
        } else {
            cur
        };
        let l2 = l1.push(w.take(24));
        assert(lines_fit(l1));
        assert(lines_fit(l2));
        if l2.len() < 4 {
            lemma_cut_fits(l2, c1, w.skip(24));
        }
    }
}

proof fn lemma_lay_out_fits(lines: Seq<Seq<char>>, cur: Seq<char>, ws: Seq<Seq<char>>, k: int)
    requires
        lines_fit(lines),
        cur.len() <= 24,
    ensures
        lines_fit(lay_out(lines, cur, ws, k).0),
        lay_out(lines, cur, ws, k).1.len() <= 24,
    decreases ws.len() - k,
{
    if 0 <= k < ws.len() {
        let cut = cut_long_word(lines, cur, upper_text(ws[k]));
        lemma_cut_fits(lines, cur, upper_text(ws[k]));
        if !cut.3 {
            lemma_trim_end_len(cut.1);
            let placed = place_word(cut.0, cut.1, cut.2);
            assert(lines_fit(placed.0));
            if placed.0.len() < 4 {
                lemma_lay_out_fits(placed.0, placed.1, ws, k + 1);
            }
        }
    }
}

/// Every line the DCDU shows is exactly 24 characters wide: words are
/// placed while they fit, over-long words are cut, and lines are padded.
pub proof fn law_dcdu_lines_are_24_wide(text: Seq<char>)
    ensures
        spec_dcdu_wrap(text).len() == 4,
        forall|i: int| 0 <= i < 4 ==> (#[trigger] spec_dcdu_wrap(text)[i]).len() == 24,
{
    let laid = lay_out(seq![], seq![], words(text), 0);
    lemma_lay_out_fits(seq![], seq![], words(text), 0);
    lemma_trim_end_len(laid.1);
    let lines = if !laid.2 && laid.0.len() < 4 && laid.1.len() > 0 {
        laid.0.push(trim_end(laid.1))
    } else {
        laid.0
    };
    assert(lines_fit(lines));
    assert forall|i: int| 0 <= i < 4 implies (#[trigger] spec_dcdu_wrap(text)[i]).len() == 24 by {
        if i < lines.len() {
            assert(lines[i].len() <= 24);
        }
    }
}

} // verus!

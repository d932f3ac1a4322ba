//! The plain-text codec's parse side: the lossy text form has no explicit
//! balloon delimiters, so boundaries are inferred from a two-character
//! line prefix and a `//` continuation marker, with one carried flag.
//!
//! The parser never fails: at worst it reads a document that does not
//! faithfully represent the text, which is accepted lossy behaviour. A
//! line shorter than its four-character header contributes empty content,
//! and a line without a known prefix reads as `DIALOGUE`.

use vstd::prelude::*;
use vstd::string::StrSliceExecFns;
use vstd::string::StringExecFns;

use crate::balloon::{Balloon, BalloonView};
use crate::consts::{prefix_type, TYPES};

verus! {

/// The whitespace trimmed around line content: the Unicode White_Space
/// characters.
pub open spec fn is_ws(c: char) -> bool {
    let u = c as u32;
    u == 0x9 || u == 0xA || u == 0xB || u == 0xC || u == 0xD || u == 0x20 || u == 0x85 || u == 0xA0
        || u == 0x1680 || (0x2000 <= u && u <= 0x200A) || u == 0x2028 || u == 0x2029 || u == 0x202F
        || u == 0x205F || u == 0x3000
}

/// First position at or after `i` that holds no whitespace.
pub open spec fn scan_non_ws(s: Seq<char>, i: int) -> int
    decreases s.len() - i,
{
    if 0 <= i && i < s.len() && is_ws(s[i]) {
        scan_non_ws(s, i + 1)
    } else {
        i
    }
}

/// Last position at or before `j` after which only whitespace stands.
pub open spec fn scan_ws_back(s: Seq<char>, j: int) -> int
    decreases j,
{
    if 0 < j && j <= s.len() && is_ws(s[j - 1]) {
        scan_ws_back(s, j - 1)
    } else {
        j
    }
}

/// `s` without its surrounding whitespace.
pub open spec fn trim(s: Seq<char>) -> Seq<char> {
    let a = scan_non_ws(s, 0);
    let b = scan_ws_back(s, s.len() as int);
    if 0 <= a <= b <= s.len() {
        s.subrange(a, b)
    } else {
        Seq::empty()
    }
}

/// Whether the continuation marker stands anywhere in the line: checked
/// by containment, not equality.
pub open spec fn has_marker(s: Seq<char>) -> bool {
    exists|i: int| 0 <= i && i + 2 <= s.len() && #[trigger] s[i] == '/' && s[i + 1] == '/'
}

/// The kind named by a line's first two characters; a short line reads as
/// `DIALOGUE`.
pub open spec fn line_type(s: Seq<char>) -> TYPES {
    if s.len() >= 2 {
        prefix_type(s[0], s[1])
    } else {
        TYPES::DIALOGUE
    }
}

/// A line's content: what stands after the four-character header, trimmed;
/// a short line contributes empty content.
pub open spec fn line_content(s: Seq<char>) -> Seq<char> {
    if s.len() >= 4 {
        trim(s.subrange(4, s.len() as int))
    } else {
        Seq::empty()
    }
}

/// First position at or after `i` that holds a newline, or the end.
pub open spec fn scan_nl(s: Seq<char>, i: int) -> int
    decreases s.len() - i,
{
    if 0 <= i && i < s.len() && s[i] != '\n' {
        scan_nl(s, i + 1)
    } else {
        i
    }
}

/// The input split on newlines, empty lines discarded.
pub open spec fn nonempty_lines(s: Seq<char>, i: int) -> Seq<Seq<char>>
    decreases s.len() - i,
{
    if !(0 <= i && i < s.len()) {
        Seq::empty()
    } else {
        let j = scan_nl(s, i);
        if j < i {
            Seq::empty()
        } else {
            let seg = s.subrange(i, j);
            let head = if seg.len() > 0 {
                seq![seg]
            } else {
                Seq::<Seq<char>>::empty()
            };
            if j >= s.len() {
                head
            } else {
                head + nonempty_lines(s, j + 1)
            }
        }
    }
}

/// A balloon reconstructed from plain text: everything lands in the
/// translation lines, since the text form cannot distinguish provenance.
pub open spec fn text_balloon(t: TYPES, tl: Seq<Seq<char>>) -> BalloonView {
    BalloonView { tl, pr: Seq::empty(), cm: Seq::empty(), btype: t, img: None }
}

/// The grouping pass over the non-empty lines `lines[i..]`, carrying the
/// accumulated continuation lines and the continuation flag.
///
/// A line holding the marker is skipped. Any other line is appended where
/// the NEXT line holds the marker; otherwise it closes a balloon: the
/// accumulated lines where the flag stands, the line alone where not. A
/// dangling accumulation at the end of input is dropped, as the format's
/// writer never produces one.
pub open spec fn txt_balloons(
    lines: Seq<Seq<char>>,
    i: int,
    pending: Seq<Seq<char>>,
    flag: bool,
) -> Seq<BalloonView>
    decreases lines.len() - i,
{
    if !(0 <= i) || i >= lines.len() {
        Seq::empty()
    } else {
        let cur = lines[i];
        if has_marker(cur) {
            txt_balloons(lines, i + 1, pending, flag)
        } else {
            let next = if i + 1 < lines.len() {
                lines[i + 1]
            } else {
                Seq::empty()
            };
            let content = line_content(cur);
            if has_marker(next) {
                txt_balloons(lines, i + 1, pending.push(content), true)
            } else if flag {
                seq![text_balloon(line_type(cur), pending.push(content))] + txt_balloons(
                    lines,
                    i + 1,
                    Seq::empty(),
                    false,
                )
            } else {
                seq![text_balloon(line_type(cur), seq![content])] + txt_balloons(
                    lines,
                    i + 1,
                    Seq::empty(),
                    false,
                )
            }
        }
    }
}

/// The document read back from stored plain text: default metadata over
/// the reconstructed balloons.
pub open spec fn txt_decode_spec(s: Seq<char>) -> crate::DocumentView {
    crate::DocumentView {
        script_version: crate::default_script_version(),
        app_version: Seq::empty(),
        info: crate::default_info(),
        balloons: txt_balloons(nonempty_lines(s, 0), 0, Seq::empty(), false),
    }
}

fn is_ws_exec(c: char) -> (b: bool)
    ensures
        b == is_ws(c),
{
    let u = c as u32;
    u == 0x9 || u == 0xA || u == 0xB || u == 0xC || u == 0xD || u == 0x20 || u == 0x85 || u == 0xA0
        || u == 0x1680 || (0x2000 <= u && u <= 0x200A) || u == 0x2028 || u == 0x2029 || u == 0x202F
        || u == 0x205F || u == 0x3000
}

fn scan_non_ws_exec(s: &str, i: usize) -> (r: usize)
    requires
        i <= s@.len(),
    ensures
        r as int == scan_non_ws(s@, i as int),
        i <= r <= s@.len(),
{
    let n = s.unicode_len();
    let mut k: usize = i;
    while k < n
        invariant
            i <= k <= n,
            n == s@.len(),
            scan_non_ws(s@, i as int) == scan_non_ws(s@, k as int),
        decreases n - k,
    {
        let c = s.get_char(k);
        if !is_ws_exec(c) {
            return k;
        }
        k = k + 1;
    }
    k
}

fn scan_ws_back_exec(s: &str, j: usize) -> (r: usize)
    requires
        j <= s@.len(),
    ensures
        r as int == scan_ws_back(s@, j as int),
        r <= j,
{
    let mut b: usize = j;
    while b > 0
        invariant
            0 <= b <= j,
            j <= s@.len(),
            scan_ws_back(s@, j as int) == scan_ws_back(s@, b as int),
        decreases b,
    {
        let c = s.get_char(b - 1);
        if !is_ws_exec(c) {
            return b;
        }
        b = b - 1;
    }
    b
}

fn trim_exec(s: &str) -> (r: String)
    ensures
        r@ == trim(s@),
{
    let n = s.unicode_len();
    let a = scan_non_ws_exec(s, 0);
    let b = scan_ws_back_exec(s, n);
    if a <= b {
        let r = String::from_str(s.substring_char(a, b));
        proof {
            assert(r@ == s@.subrange(a as int, b as int));
        }
        r
    } else {
        String::new()
    }
}

fn has_marker_exec(s: &str) -> (r: bool)
    ensures
        r == has_marker(s@),
{
    let n = s.unicode_len();
    if n < 2 {
        return false;
    }
    let mut i: usize = 0;
    while i < n - 1
        invariant
            0 <= i <= n - 1,
            2 <= n == s@.len(),
            forall|j: int| 0 <= j < i ==> !(#[trigger] s@[j] == '/' && s@[j + 1] == '/'),
        decreases n - i,
    {
        if s.get_char(i) == '/' && s.get_char(i + 1) == '/' {
            proof {
                assert(s@[i as int] == '/' && s@[i as int + 1] == '/');
            }
            return true;
        }
        i = i + 1;
    }
    proof {
        assert forall|j: int| 0 <= j && j + 2 <= s@.len() implies !(#[trigger] s@[j] == '/'
            && s@[j + 1] == '/') by {
            assert(j < i);
        }
    }
    false
}

fn line_type_exec(s: &str) -> (r: TYPES)
    ensures
        r == line_type(s@),
{
    if s.unicode_len() >= 2 {
        crate::consts::prefix_type_exec(s.get_char(0), s.get_char(1))
    } else {
        TYPES::DIALOGUE
    }
}

fn line_content_exec(s: &str) -> (r: String)
    ensures
        r@ == line_content(s@),
{
    let n = s.unicode_len();
    if n >= 4 {
        trim_exec(s.substring_char(4, n))
    } else {
        String::new()
    }
}

fn scan_nl_exec(s: &str, i: usize) -> (r: usize)
    requires
        i <= s@.len(),
    ensures
        r as int == scan_nl(s@, i as int),
        i <= r <= s@.len(),
{
    let n = s.unicode_len();
    let mut k: usize = i;
    while k < n
        invariant
            i <= k <= n,
            n == s@.len(),
            scan_nl(s@, i as int) == scan_nl(s@, k as int),
        decreases n - k,
    {
        if s.get_char(k) == '\n' {
            return k;
        }
        k = k + 1;
    }
    k
}

fn split_nonempty_lines(s: &str) -> (r: Vec<String>)
    ensures
        r.deep_view() == nonempty_lines(s@, 0),
{
    let n = s.unicode_len();
    let mut out: Vec<String> = Vec::new();
    let mut i: usize = 0;
    proof {
        assert(out.deep_view() =~= Seq::<Seq<char>>::empty());
    }
    while i < n
        invariant
            0 <= i <= n,
            n == s@.len(),
            out.deep_view() + nonempty_lines(s@, i as int) == nonempty_lines(s@, 0),
        decreases n - i,
    {
        let j = scan_nl_exec(s, i);
        let ghost before = out.deep_view();
        if j > i {
            out.push(String::from_str(s.substring_char(i, j)));
            proof {
                assert(out.deep_view() =~= before + seq![s@.subrange(i as int, j as int)]);
            }
        }
        proof {
            let seg = s@.subrange(i as int, j as int);
            if j > i {
                if j >= n {
                    assert(nonempty_lines(s@, i as int) == seq![seg]);
                    assert(out.deep_view() + Seq::<Seq<char>>::empty() =~= before + seq![seg]);
                } else {
                    assert(nonempty_lines(s@, i as int) == seq![seg] + nonempty_lines(s@, j + 1));
                    assert(out.deep_view() + nonempty_lines(s@, j + 1) =~= before + (seq![seg]
                        + nonempty_lines(s@, j + 1)));
                }
            } else {
                assert(seg.len() == 0);
                if j >= n {
                    assert(nonempty_lines(s@, i as int) =~= Seq::<Seq<char>>::empty());
                    assert(out.deep_view() + Seq::<Seq<char>>::empty() =~= out.deep_view());
                } else {
                    assert(nonempty_lines(s@, i as int) == nonempty_lines(s@, j + 1));
                }
            }
        }
        if j >= n {
            i = n;
            proof {
                assert(nonempty_lines(s@, n as int) == Seq::<Seq<char>>::empty());
            }
        } else {
            i = j + 1;
        }
    }
    proof {
        assert(nonempty_lines(s@, i as int) == Seq::<Seq<char>>::empty());
        assert(out.deep_view() + Seq::<Seq<char>>::empty() =~= out.deep_view());
    }
    out
}

/// Reconstructs the balloons of stored plain text.
pub fn txt_parse(s: &str) -> (r: Vec<Balloon>)
    ensures
        crate::codec::balloon_views(r@) == txt_balloons(
            nonempty_lines(s@, 0),
            0,
            Seq::empty(),
            false,
        ),
{
    let lines = split_nonempty_lines(s);
    let ghost lv = lines.deep_view();
    let mut out: Vec<Balloon> = Vec::new();
    let mut pending: Vec<String> = Vec::new();
    let mut flag: bool = false;
    let mut i: usize = 0;
    proof {
        assert(crate::codec::balloon_views(out@) =~= Seq::<BalloonView>::empty());
        assert(pending.deep_view() =~= Seq::<Seq<char>>::empty());
    }
    while i < lines.len()
        invariant
            0 <= i <= lines.len(),
            lv == lines.deep_view(),
            lv.len() == lines.len(),
            !flag ==> pending.deep_view() == Seq::<Seq<char>>::empty(),
            crate::codec::balloon_views(out@) + txt_balloons(lv, i as int, pending.deep_view(), flag)
                == txt_balloons(lv, 0, Seq::empty(), false),
        decreases lines.len() - i,
    {
        proof {
            assert(lv[i as int] == lines@[i as int]@);
        }
        let ghost outv = crate::codec::balloon_views(out@);
        let ghost pv = pending.deep_view();
        let ghost oldflag = flag;
        if has_marker_exec(lines[i].as_str()) {
            // a marker line never becomes content; it only matters through
            // the lookahead below
            proof {
                assert(txt_balloons(lv, i as int, pv, oldflag) == txt_balloons(
                    lv,
                    i as int + 1,
                    pv,
                    oldflag,
                ));
            }
        } else {
            let next_marker = if i + 1 < lines.len() {
                proof {
                    assert(lv[i as int + 1] == lines@[i as int + 1]@);
                }
                has_marker_exec(lines[i + 1].as_str())
            } else {
                proof {
                    assert(!has_marker(Seq::<char>::empty()));
                }
                false
            };
            let content = line_content_exec(lines[i].as_str());
            if next_marker {
                pending.push(content);
                flag = true;
                proof {
                    assert(pending.deep_view() =~= pv.push(line_content(lv[i as int])));
                    assert(txt_balloons(lv, i as int, pv, oldflag) == txt_balloons(
                        lv,
                        i as int + 1,
                        pv.push(line_content(lv[i as int])),
                        true,
                    ));
                }
            } else {
                let t = line_type_exec(lines[i].as_str());
                if flag {
                    pending.push(content);
                    proof {
                        assert(pending.deep_view() =~= pv.push(line_content(lv[i as int])));
                    }
                    let b = Balloon {
                        tl_content: pending,
                        pr_content: Vec::new(),
                        comments: Vec::new(),
                        btype: t,
                        balloon_img: None,
                    };
                    proof {
                        assert(b@.pr =~= Seq::<Seq<char>>::empty());
                        assert(b@.cm =~= Seq::<Seq<char>>::empty());
                        assert(b@ =~~= text_balloon(
                            line_type(lv[i as int]),
                            pv.push(line_content(lv[i as int])),
                        ));
                    }
                    out.push(b);
                    pending = Vec::new();
                    flag = false;
                    proof {
                        assert(crate::codec::balloon_views(out@) =~= outv + seq![
                            text_balloon(
                                line_type(lv[i as int]),
                                pv.push(line_content(lv[i as int])),
                            ),
                        ]);
                        assert(pending.deep_view() =~= Seq::<Seq<char>>::empty());
                        assert(txt_balloons(lv, i as int, pv, true) == seq![
                            text_balloon(
                                line_type(lv[i as int]),
                                pv.push(line_content(lv[i as int])),
                            ),
                        ] + txt_balloons(lv, i as int + 1, Seq::empty(), false));
                        assert(crate::codec::balloon_views(out@) + txt_balloons(
                            lv,
                            i as int + 1,
                            Seq::empty(),
                            false,
                        ) =~= txt_balloons(lv, 0, Seq::empty(), false));
                    }
                } else {
                    let mut tl: Vec<String> = Vec::new();
                    tl.push(content);
                    let b = Balloon {
                        tl_content: tl,
                        pr_content: Vec::new(),
                        comments: Vec::new(),
                        btype: t,
                        balloon_img: None,
                    };
                    proof {
                        assert(b@.tl =~= seq![line_content(lv[i as int])]);
                        assert(b@.pr =~= Seq::<Seq<char>>::empty());
                        assert(b@.cm =~= Seq::<Seq<char>>::empty());
                        assert(b@ =~~= text_balloon(
                            line_type(lv[i as int]),
                            seq![line_content(lv[i as int])],
                        ));
                    }
                    out.push(b);
                    proof {
                        assert(crate::codec::balloon_views(out@) =~= outv + seq![
                            text_balloon(
                                line_type(lv[i as int]),
                                seq![line_content(lv[i as int])],
                            ),
                        ]);
                        assert(txt_balloons(lv, i as int, pv, false) == seq![
                            text_balloon(
                                line_type(lv[i as int]),
                                seq![line_content(lv[i as int])],
                            ),
                        ] + txt_balloons(lv, i as int + 1, Seq::empty(), false));
                        assert(crate::codec::balloon_views(out@) + txt_balloons(
                            lv,
                            i as int + 1,
                            Seq::empty(),
                            false,
                        ) =~= txt_balloons(lv, 0, Seq::empty(), false));
                    }
                }
            }
        }
        i = i + 1;
    }
    out
}

} // verus!

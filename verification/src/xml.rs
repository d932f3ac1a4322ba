//! The XML wire form of the format: a small element tree, its exact
//! serialization, and a parser for it.
//!
//! The parser reads elements with `name="value"` attributes, whose body
//! is either character data (anything but `<`, taken verbatim: the format
//! does no entity decoding) or child elements with whitespace-only runs
//! between them; `<x/>` reads as an empty element, and a document is one
//! element behind an optional XML declaration, whitespace around both.
//! Comments, processing instructions inside the document element, and
//! mixed content are not read.

use vstd::prelude::*;
use vstd::string::StringExecFns;
use vstd::string::StrSliceExecFns;

verus! {

/// One `name="value"` attribute of an element.
pub struct XmlAttr {
    pub name: String,
    pub value: String,
}

impl View for XmlAttr {
    type V = (Seq<char>, Seq<char>);

    open spec fn view(&self) -> (Seq<char>, Seq<char>) {
        (self.name@, self.value@)
    }
}

/// One element: a name, attributes, and either child elements or text.
pub struct XmlNode {
    pub name: String,
    pub attrs: Vec<XmlAttr>,
    pub children: Vec<XmlNode>,
    pub text: String,
}

/// Mathematical model of an [`XmlNode`].
#[verifier::ext_equal]
pub struct XmlNodeView {
    pub name: Seq<char>,
    pub attrs: Seq<(Seq<char>, Seq<char>)>,
    pub children: Seq<XmlNodeView>,
    pub text: Seq<char>,
}

/// The model of a node without a name, attributes, children or text.
pub open spec fn blank_node_view() -> XmlNodeView {
    XmlNodeView { name: Seq::empty(), attrs: Seq::empty(), children: Seq::empty(), text: Seq::empty() }
}

/// Mathematical model of an [`XmlNode`] value.
pub open spec fn node_view(n: XmlNode) -> XmlNodeView
    decreases n,
    via lemma_node_view_decreases
{
    XmlNodeView {
        name: n.name@,
        attrs: Seq::new(n.attrs@.len(), |i: int| n.attrs@[i]@),
        children: Seq::new(
            n.children@.len(),
            |i: int|
                if 0 <= i && i < n.children@.len() {
                    node_view(n.children@[i])
                } else {
                    blank_node_view()
                },
        ),
        text: n.text@,
    }
}

#[via_fn]
proof fn lemma_node_view_decreases(n: XmlNode) {
    assert forall|i: int| 0 <= i < n.children@.len() implies (decreases_to!(n
        => n.children@[i])) by {
        assert(decreases_to!(n => n.children));
        assert(decreases_to!(n.children => n.children@));
    }
}

impl View for XmlNode {
    type V = XmlNodeView;

    open spec fn view(&self) -> XmlNodeView {
        node_view(*self)
    }
}

/// Characters accepted in element and attribute names: ASCII letters and
/// digits, which cover every name of this format.
pub open spec fn name_char(c: char) -> bool {
    ('a' as u32 <= c as u32 && c as u32 <= 'z' as u32) || ('A' as u32 <= c as u32 && c as u32
        <= 'Z' as u32) || ('0' as u32 <= c as u32 && c as u32 <= '9' as u32)
}

pub open spec fn valid_name(s: Seq<char>) -> bool {
    s.len() > 0 && (forall|i: int| 0 <= i < s.len() ==> name_char(#[trigger] s[i]))
}

/// Character data that serializes verbatim and parses back: nothing in it
/// may open a tag.
pub open spec fn text_ok(s: Seq<char>) -> bool {
    forall|i: int| 0 <= i < s.len() ==> #[trigger] s[i] != '<'
}

/// An attribute value that serializes verbatim and parses back: nothing
/// in it may close the quote early.
pub open spec fn attr_value_ok(v: Seq<char>) -> bool {
    forall|i: int| 0 <= i < v.len() ==> #[trigger] v[i] != '"'
}

/// An attribute whose serialization parses back: a proper name, and a
/// value that does not close the quote early.
pub open spec fn attr_ok(a: (Seq<char>, Seq<char>)) -> bool {
    valid_name(a.0) && attr_value_ok(a.1)
}

pub open spec fn attrs_ok(attrs: Seq<(Seq<char>, Seq<char>)>) -> bool {
    forall|i: int| 0 <= i < attrs.len() ==> attr_ok(#[trigger] attrs[i])
}

/// A tree whose serialization parses back to itself: proper names, clean
/// text, and text only at the leaves.
pub open spec fn wf_node(n: XmlNodeView) -> bool
    decreases n, 0int,
{
    &&& valid_name(n.name)
    &&& attrs_ok(n.attrs)
    &&& text_ok(n.text)
    &&& (n.children.len() > 0 ==> n.text.len() == 0)
    &&& wf_children(n.children, 0)
}

pub open spec fn wf_children(cs: Seq<XmlNodeView>, i: int) -> bool
    decreases cs, cs.len() - i,
{
    if i < 0 || i >= cs.len() {
        true
    } else {
        wf_node(cs[i]) && wf_children(cs, i + 1)
    }
}

pub proof fn lemma_wf_children_index(cs: Seq<XmlNodeView>, i: int, k: int)
    requires
        wf_children(cs, i),
        i <= k < cs.len(),
        0 <= i,
    ensures
        wf_node(cs[k]),
    decreases k - i,
{
    if i < k {
        lemma_wf_children_index(cs, i + 1, k);
    }
}

/// Serialization of the attributes `attrs[i..]`: each as ` name="value"`.
pub open spec fn ser_attrs(attrs: Seq<(Seq<char>, Seq<char>)>, i: int) -> Seq<char>
    decreases attrs.len() - i,
{
    if i < 0 || i >= attrs.len() {
        Seq::empty()
    } else {
        seq![' '] + attrs[i].0 + seq!['=', '"'] + attrs[i].1 + seq!['"'] + ser_attrs(attrs, i + 1)
    }
}

/// `<name attrs...>`
pub open spec fn ser_open_tag(n: XmlNodeView) -> Seq<char> {
    seq!['<'] + n.name + ser_attrs(n.attrs, 0) + seq!['>']
}

/// `</name>`
pub open spec fn ser_close_tag(name: Seq<char>) -> Seq<char> {
    seq!['<', '/'] + name + seq!['>']
}

/// Serialization of one element: open tag, then the child elements or the
/// text, then the close tag.
pub open spec fn ser_node(n: XmlNodeView) -> Seq<char>
    decreases n, 1int,
{
    ser_open_tag(n) + (if n.children.len() > 0 {
        ser_children(n.children, 0)
    } else {
        n.text
    }) + ser_close_tag(n.name)
}

/// Serialization of the elements `cs[i..]`, one after the other.
pub open spec fn ser_children(cs: Seq<XmlNodeView>, i: int) -> Seq<char>
    decreases cs, cs.len() - i,
{
    if i < 0 || i >= cs.len() {
        Seq::empty()
    } else {
        ser_node(cs[i]) + ser_children(cs, i + 1)
    }
}

/// First position at or after `i` that does not continue a name.
pub open spec fn scan_name_end(s: Seq<char>, i: int) -> int
    decreases s.len() - i,
{
    if 0 <= i && i < s.len() && name_char(s[i]) {
        scan_name_end(s, i + 1)
    } else {
        i
    }
}

/// First position at or after `i` that holds `<`, or the end.
pub open spec fn scan_text_end(s: Seq<char>, i: int) -> int
    decreases s.len() - i,
{
    if 0 <= i && i < s.len() && s[i] != '<' {
        scan_text_end(s, i + 1)
    } else {
        i
    }
}

/// First position at or after `i` that holds `"`, or the end.
pub open spec fn scan_value_end(s: Seq<char>, i: int) -> int
    decreases s.len() - i,
{
    if 0 <= i && i < s.len() && s[i] != '"' {
        scan_value_end(s, i + 1)
    } else {
        i
    }
}

/// An XML whitespace character: the four of XML's `S` production.
pub open spec fn xml_ws(c: char) -> bool {
    c == ' ' || c == '\t' || c == '\r' || c == '\n'
}

/// First position at or after `i` that holds no XML whitespace, or the
/// end.
pub open spec fn scan_ws_end(s: Seq<char>, i: int) -> int
    decreases s.len() - i,
{
    if 0 <= i && i < s.len() && xml_ws(s[i]) {
        scan_ws_end(s, i + 1)
    } else {
        i
    }
}

/// The position of the first `?>` at or after `i`, where one stands.
pub open spec fn scan_decl_end(s: Seq<char>, i: int) -> Option<int>
    decreases s.len() - i,
{
    if !(0 <= i && i + 2 <= s.len()) {
        None
    } else if s[i] == '?' && s[i + 1] == '>' {
        Some(i)
    } else {
        scan_decl_end(s, i + 1)
    }
}

/// The attributes read from position `i` on, and the position after them:
/// as many whitespace-separated `name="value"` groups as stand there, a
/// trailing whitespace run consumed.
pub open spec fn parse_attrs(s: Seq<char>, i: int) -> Option<
    (Seq<(Seq<char>, Seq<char>)>, int),
>
    decreases s.len() - i,
{
    if !(0 <= i && i <= s.len()) {
        None
    } else {
        let w = scan_ws_end(s, i);
        if !(i <= w && w <= s.len()) {
            None
        } else if w == i {
            Some((Seq::empty(), i))
        } else if w < s.len() && name_char(s[w]) {
            let ns = w;
            let ne = scan_name_end(s, ns);
            if !(ns < ne && ne + 1 < s.len() && s[ne] == '=' && s[ne + 1] == '"') {
                None
            } else {
                let vs = ne + 2;
                let ve = scan_value_end(s, vs);
                if !(vs <= ve && ve < s.len() && s[ve] == '"') {
                    None
                } else {
                    match parse_attrs(s, ve + 1) {
                        None => None,
                        Some((rest, j)) => Some(
                            (seq![(s.subrange(ns, ne), s.subrange(vs, ve))] + rest, j),
                        ),
                    }
                }
            }
        } else {
            Some((Seq::empty(), w))
        }
    }
}

/// Position after the close tag `</name>` when it stands exactly at `k`.
pub open spec fn close_at(s: Seq<char>, k: int, name: Seq<char>) -> Option<int> {
    if 0 <= k && k + 3 + name.len() <= s.len() && s[k] == '<' && s[k + 1] == '/' && s.subrange(
        k + 2,
        k + 2 + name.len(),
    ) == name && s[k + 2 + name.len()] == '>' {
        Some(k + 3 + name.len())
    } else {
        None
    }
}

/// The element starting exactly at position `i`, and the position after
/// it; `None` where no element of the grammar stands there.
pub open spec fn parse_node(s: Seq<char>, i: int) -> Option<(XmlNodeView, int)>
    decreases s.len() - i, 1int,
{
    if !(0 <= i && i < s.len() && s[i] == '<') {
        None
    } else {
        let ne = scan_name_end(s, i + 1);
        if !(i + 1 < ne && ne <= s.len()) {
            None
        } else {
            let name = s.subrange(i + 1, ne);
            match parse_attrs(s, ne) {
                None => None,
                Some((attrs, j)) => {
                    if !(ne <= j && j < s.len()) {
                        None
                    } else if j + 1 < s.len() && s[j] == '/' && s[j + 1] == '>' {
                        // a self-closing tag is an empty element
                        Some(
                            (
                                XmlNodeView {
                                    name,
                                    attrs,
                                    children: Seq::empty(),
                                    text: Seq::empty(),
                                },
                                j + 2,
                            ),
                        )
                    } else if !(s[j] == '>') {
                        None
                    } else {
                        let b = j + 1;
                        let bw = scan_ws_end(s, b);
                        if b <= bw && bw + 1 < s.len() && s[bw] == '<' && s[bw + 1] != '/' {
                            match parse_children(s, b) {
                                None => None,
                                Some((cs, k)) => {
                                    match close_at(s, k, name) {
                                        None => None,
                                        Some(end) => Some(
                                            (
                                                XmlNodeView {
                                                    name,
                                                    attrs,
                                                    children: cs,
                                                    text: Seq::empty(),
                                                },
                                                end,
                                            ),
                                        ),
                                    }
                                },
                            }
                        } else {
                            let te = scan_text_end(s, b);
                            if !(b <= te && te <= s.len()) {
                                None
                            } else {
                                match close_at(s, te, name) {
                                    None => None,
                                    Some(end) => Some(
                                        (
                                            XmlNodeView {
                                                name,
                                                attrs,
                                                children: Seq::empty(),
                                                text: s.subrange(b, te),
                                            },
                                            end,
                                        ),
                                    ),
                                }
                            }
                        }
                    }
                },
            }
        }
    }
}

/// The run of sibling elements starting at `i`, whitespace runs between
/// them skipped, ending before a close tag; `None` on anything that is
/// neither an element, whitespace, nor a close tag.
pub open spec fn parse_children(s: Seq<char>, i: int) -> Option<(Seq<XmlNodeView>, int)>
    decreases s.len() - i, 2int,
{
    if !(0 <= i && i <= s.len()) {
        None
    } else {
        let w = scan_ws_end(s, i);
        if !(i <= w && w < s.len()) {
            None
        } else if w + 1 < s.len() && s[w] == '<' && s[w + 1] == '/' {
            Some((Seq::empty(), w))
        } else if s[w] == '<' {
            match parse_node(s, w) {
                None => None,
                Some((n, j)) => {
                    if !(w < j && j <= s.len()) {
                        None
                    } else {
                        match parse_children(s, j) {
                            None => None,
                            Some((cs, k)) => Some((seq![n] + cs, k)),
                        }
                    }
                },
            }
        } else {
            None
        }
    }
}

/// The start of the document element: position zero, past any leading
/// whitespace, and past an XML declaration and what follows it where one
/// stands.
pub open spec fn root_start(s: Seq<char>) -> Option<int> {
    let i0 = scan_ws_end(s, 0);
    if i0 + 1 < s.len() && s[i0] == '<' && s[i0 + 1] == '?' {
        match scan_decl_end(s, i0 + 2) {
            None => None,
            Some(p) => Some(scan_ws_end(s, p + 2)),
        }
    } else {
        Some(i0)
    }
}

/// The whole input as one element — after an optional XML declaration,
/// with only whitespace around it — or `None` where the input is not
/// well-formed.
pub open spec fn parse_root(s: Seq<char>) -> Option<XmlNodeView> {
    match root_start(s) {
        None => None,
        Some(i1) => match parse_node(s, i1) {
            Some((n, j)) => if 0 <= j <= s.len() && scan_ws_end(s, j) == s.len() {
                Some(n)
            } else {
                None
            },
            None => None,
        },
    }
}

/// The models of the attributes in `v`, in order.
pub open spec fn attrs_view(v: Seq<XmlAttr>) -> Seq<(Seq<char>, Seq<char>)> {
    Seq::new(v.len(), |i: int| v[i]@)
}

/// The models of the nodes in `v`, in order.
pub open spec fn nodes_view(v: Seq<XmlNode>) -> Seq<XmlNodeView> {
    Seq::new(
        v.len(),
        |i: int|
            if 0 <= i && i < v.len() {
                node_view(v[i])
            } else {
                blank_node_view()
            },
    )
}

fn name_char_exec(c: char) -> (b: bool)
    ensures
        b == name_char(c),
{
    let u = c as u32;
    ('a' as u32 <= u && u <= 'z' as u32) || ('A' as u32 <= u && u <= 'Z' as u32) || ('0' as u32
        <= u && u <= '9' as u32)
}

fn scan_name_end_exec(s: &str, i: usize) -> (r: usize)
    requires
        i <= s@.len(),
    ensures
        r as int == scan_name_end(s@, i as int),
        i <= r <= s@.len(),
{
    let n = s.unicode_len();
    let mut k: usize = i;
    while k < n
        invariant
            i <= k <= n,
            n == s@.len(),
            scan_name_end(s@, i as int) == scan_name_end(s@, k as int),
        decreases n - k,
    {
        let c = s.get_char(k);
        if !name_char_exec(c) {
            return k;
        }
        k = k + 1;
    }
    k
}

fn scan_text_end_exec(s: &str, i: usize) -> (r: usize)
    requires
        i <= s@.len(),
    ensures
        r as int == scan_text_end(s@, i as int),
        i <= r <= s@.len(),
{
    let n = s.unicode_len();
    let mut k: usize = i;
    while k < n
        invariant
            i <= k <= n,
            n == s@.len(),
            scan_text_end(s@, i as int) == scan_text_end(s@, k as int),
        decreases n - k,
    {
        let c = s.get_char(k);
        if c == '<' {
            return k;
        }
        k = k + 1;
    }
    k
}

fn scan_value_end_exec(s: &str, i: usize) -> (r: usize)
    requires
        i <= s@.len(),
    ensures
        r as int == scan_value_end(s@, i as int),
        i <= r <= s@.len(),
{
    let n = s.unicode_len();
    let mut k: usize = i;
    while k < n
        invariant
            i <= k <= n,
            n == s@.len(),
            scan_value_end(s@, i as int) == scan_value_end(s@, k as int),
        decreases n - k,
    {
        let c = s.get_char(k);
        if c == '"' {
            return k;
        }
        k = k + 1;
    }
    k
}

fn xml_ws_exec(c: char) -> (b: bool)
    ensures
        b == xml_ws(c),
{
    c == ' ' || c == '\t' || c == '\r' || c == '\n'
}

fn scan_ws_end_exec(s: &str, i: usize) -> (r: usize)
    requires
        i <= s@.len(),
    ensures
        r as int == scan_ws_end(s@, i as int),
        i <= r <= s@.len(),
{
    let n = s.unicode_len();
    let mut k: usize = i;
    while k < n
        invariant
            i <= k <= n,
            n == s@.len(),
            scan_ws_end(s@, i as int) == scan_ws_end(s@, k as int),
        decreases n - k,
    {
        let c = s.get_char(k);
        if !xml_ws_exec(c) {
            return k;
        }
        k = k + 1;
    }
    k
}

fn scan_decl_end_exec(s: &str, i: usize) -> (r: Option<usize>)
    requires
        i <= s@.len(),
    ensures
        match r {
            Some(p) => scan_decl_end(s@, i as int) == Some(p as int) && i <= p && p + 2 <= s@.len(),
            None => scan_decl_end(s@, i as int) is None,
        },
{
    let n = s.unicode_len();
    if n < 2 || i > n - 2 {
        return None;
    }
    let mut k: usize = i;
    while k <= n - 2
        invariant
            i <= k <= n,
            2 <= n == s@.len(),
            scan_decl_end(s@, i as int) == scan_decl_end(s@, k as int),
        decreases n - k,
    {
        if s.get_char(k) == '?' && s.get_char(k + 1) == '>' {
            return Some(k);
        }
        k = k + 1;
    }
    None
}

fn close_tag_at(s: &str, k: usize, name: &str) -> (r: Option<usize>)
    requires
        k <= s@.len(),
    ensures
        match r {
            Some(e) => close_at(s@, k as int, name@) == Some(e as int) && k < e <= s@.len(),
            None => close_at(s@, k as int, name@) is None,
        },
{
    let n = s.unicode_len();
    let m = name.unicode_len();
    if n - k < 3 {
        return None;
    }
    if m > n - k - 3 {
        return None;
    }
    if s.get_char(k) != '<' {
        return None;
    }
    if s.get_char(k + 1) != '/' {
        return None;
    }
    let sub = s.substring_char(k + 2, k + 2 + m);
    if !crate::strutil::str_eq(sub, name) {
        return None;
    }
    if s.get_char(k + 2 + m) != '>' {
        return None;
    }
    Some(k + 3 + m)
}

fn parse_attrs_exec(s: &str, i: usize) -> (r: Option<(Vec<XmlAttr>, usize)>)
    requires
        i <= s@.len(),
    ensures
        match r {
            Some(p) => parse_attrs(s@, i as int) == Some((attrs_view(p.0@), p.1 as int)) && i
                <= p.1 <= s@.len(),
            None => parse_attrs(s@, i as int) is None,
        },
    decreases s@.len() - i,
{
    let n = s.unicode_len();
    let w = scan_ws_end_exec(s, i);
    if w == i {
        let r: Vec<XmlAttr> = Vec::new();
        proof {
            assert(attrs_view(r@) =~= Seq::<(Seq<char>, Seq<char>)>::empty());
        }
        return Some((r, i));
    }
    if w < n && name_char_exec(s.get_char(w)) {
        let ns = w;
        let ne = scan_name_end_exec(s, ns);
        if ns >= ne {
            return None;
        }
        if n - ne < 2 {
            return None;
        }
        if s.get_char(ne) != '=' {
            return None;
        }
        if s.get_char(ne + 1) != '"' {
            return None;
        }
        let vs = ne + 2;
        let ve = scan_value_end_exec(s, vs);
        if ve >= n {
            return None;
        }
        if s.get_char(ve) != '"' {
            return None;
        }
        match parse_attrs_exec(s, ve + 1) {
            None => None,
            Some((mut rest, j)) => {
                let aname = String::from_str(s.substring_char(ns, ne));
                let avalue = String::from_str(s.substring_char(vs, ve));
                let ghost rv = attrs_view(rest@);
                rest.insert(0, XmlAttr { name: aname, value: avalue });
                proof {
                    assert(attrs_view(rest@) =~= seq![
                        (
                            s@.subrange(ns as int, ne as int),
                            s@.subrange(vs as int, ve as int),
                        ),
                    ] + rv);
                }
                Some((rest, j))
            },
        }
    } else {
        let r: Vec<XmlAttr> = Vec::new();
        proof {
            assert(attrs_view(r@) =~= Seq::<(Seq<char>, Seq<char>)>::empty());
        }
        Some((r, w))
    }
}

/// Parses the element that starts exactly at position `i`.
pub fn parse_node_exec(s: &str, i: usize) -> (r: Option<(XmlNode, usize)>)
    requires
        i <= s@.len(),
    ensures
        match r {
            Some(p) => parse_node(s@, i as int) == Some((p.0@, p.1 as int)) && i < p.1 <= s@.len(),
            None => parse_node(s@, i as int) is None,
        },
    decreases s@.len() - i, 1int,
{
    let n = s.unicode_len();
    if i >= n {
        return None;
    }
    if s.get_char(i) != '<' {
        return None;
    }
    let ne = scan_name_end_exec(s, i + 1);
    if i + 1 >= ne {
        return None;
    }
    let name = String::from_str(s.substring_char(i + 1, ne));
    match parse_attrs_exec(s, ne) {
        None => None,
        Some((attrs, j)) => {
            if j >= n {
                return None;
            }
            let cj = s.get_char(j);
            if cj == '/' {
                if j + 1 < n && s.get_char(j + 1) == '>' {
                    let node = XmlNode {
                        name,
                        attrs,
                        children: Vec::new(),
                        text: String::new(),
                    };
                    proof {
                        assert(node@.attrs =~= attrs_view(attrs@));
                        assert(node@.children =~= Seq::<XmlNodeView>::empty());
                        assert(node@ =~~= (parse_node(s@, i as int)->0).0);
                    }
                    return Some((node, j + 2));
                }
                return None;
            }
            if cj != '>' {
                return None;
            }
            let b = j + 1;
            let bw = scan_ws_end_exec(s, b);
            let children_case = n - bw >= 2 && s.get_char(bw) == '<' && s.get_char(bw + 1) != '/';
            if children_case {
                match parse_children_exec(s, b) {
                    None => None,
                    Some((cs, k)) => {
                        match close_tag_at(s, k, name.as_str()) {
                            None => None,
                            Some(end) => {
                                let node = XmlNode {
                                    name,
                                    attrs,
                                    children: cs,
                                    text: String::new(),
                                };
                                proof {
                                    assert(node@.attrs =~= attrs_view(attrs@));
                                    assert(node@.children =~= nodes_view(cs@));
                                    assert(node@ =~~= (parse_node(s@, i as int)->0).0);
                                }
                                Some((node, end))
                            },
                        }
                    },
                }
            } else {
                let te = scan_text_end_exec(s, b);
                let text = String::from_str(s.substring_char(b, te));
                match close_tag_at(s, te, name.as_str()) {
                    None => None,
                    Some(end) => {
                        let node = XmlNode { name, attrs, children: Vec::new(), text };
                        proof {
                            assert(node@.attrs =~= attrs_view(attrs@));
                            assert(node@.children =~= Seq::<XmlNodeView>::empty());
                            assert(node@ =~~= (parse_node(s@, i as int)->0).0);
                        }
                        Some((node, end))
                    },
                }
            }
        },
    }
}

/// Parses the run of sibling elements that starts at position `i`.
pub fn parse_children_exec(s: &str, i: usize) -> (r: Option<(Vec<XmlNode>, usize)>)
    requires
        i <= s@.len(),
    ensures
        match r {
            Some(p) => parse_children(s@, i as int) == Some((nodes_view(p.0@), p.1 as int)) && i
                <= p.1 <= s@.len(),
            None => parse_children(s@, i as int) is None,
        },
    decreases s@.len() - i, 2int,
{
    let n = s.unicode_len();
    let w = scan_ws_end_exec(s, i);
    if w >= n {
        return None;
    }
    if n - w >= 2 && s.get_char(w) == '<' && s.get_char(w + 1) == '/' {
        let r: Vec<XmlNode> = Vec::new();
        proof {
            assert(nodes_view(r@) =~= Seq::<XmlNodeView>::empty());
        }
        return Some((r, w));
    }
    if s.get_char(w) != '<' {
        return None;
    }
    match parse_node_exec(s, w) {
        None => None,
        Some((node, j)) => {
            match parse_children_exec(s, j) {
                None => None,
                Some((mut cs, k)) => {
                    let ghost csv = nodes_view(cs@);
                    cs.insert(0, node);
                    proof {
                        assert(nodes_view(cs@) =~= seq![node@] + csv);
                    }
                    Some((cs, k))
                },
            }
        },
    }
}

/// Parses a whole input as one element, past an optional XML declaration,
/// with only whitespace around it.
pub fn parse_root_exec(s: &str) -> (r: Option<XmlNode>)
    ensures
        match r {
            Some(node) => parse_root(s@) == Some(node@),
            None => parse_root(s@) is None,
        },
{
    let n = s.unicode_len();
    let i0 = scan_ws_end_exec(s, 0);
    let i1: usize = if n - i0 >= 2 && s.get_char(i0) == '<' && s.get_char(i0 + 1) == '?' {
        match scan_decl_end_exec(s, i0 + 2) {
            None => {
                return None;
            },
            Some(p) => scan_ws_end_exec(s, p + 2),
        }
    } else {
        i0
    };
    match parse_node_exec(s, i1) {
        None => None,
        Some((node, j)) => {
            if scan_ws_end_exec(s, j) == n {
                Some(node)
            } else {
                None
            }
        },
    }
}

proof fn lemma_subrange_chars(s: Seq<char>, i: int, w: Seq<char>)
    requires
        0 <= i,
        i + w.len() <= s.len(),
        s.subrange(i, i + w.len()) == w,
    ensures
        forall|t: int| 0 <= t < w.len() ==> #[trigger] w[t] == s[i + t],
{
    assert forall|t: int| 0 <= t < w.len() implies #[trigger] w[t] == s[i + t] by {
        assert(w[t] == s.subrange(i, i + w.len())[t]);
    }
}

proof fn lemma_subrange_split(s: Seq<char>, i: int, a: Seq<char>, b: Seq<char>)
    requires
        0 <= i,
        i + a.len() + b.len() <= s.len(),
        s.subrange(i, i + a.len() + b.len()) == a + b,
    ensures
        s.subrange(i, i + a.len()) == a,
        s.subrange(i + a.len(), i + a.len() + b.len()) == b,
{
    let w = a + b;
    lemma_subrange_chars(s, i, w);
    assert(s.subrange(i, i + a.len()) =~= a) by {
        assert forall|t: int| 0 <= t < a.len() implies s.subrange(i, i + a.len())[t] == a[t] by {
            assert(s[i + t] == w[t]);
            assert(w[t] == a[t]);
        }
    }
    assert(s.subrange(i + a.len(), i + a.len() + b.len()) =~= b) by {
        assert forall|t: int| 0 <= t < b.len() implies s.subrange(
            i + a.len(),
            i + a.len() + b.len(),
        )[t] == b[t] by {
            assert(s[i + a.len() + t] == w[a.len() + t]);
            assert(w[a.len() + t] == b[t]);
        }
    }
}

proof fn lemma_scan_name_run(s: Seq<char>, i: int, j: int)
    requires
        0 <= i <= j <= s.len(),
        forall|k: int| i <= k < j ==> name_char(#[trigger] s[k]),
        j < s.len() ==> !name_char(s[j]),
    ensures
        scan_name_end(s, i) == j,
    decreases j - i,
{
    if i < j {
        lemma_scan_name_run(s, i + 1, j);
    }
}

proof fn lemma_scan_text_run(s: Seq<char>, i: int, j: int)
    requires
        0 <= i <= j <= s.len(),
        forall|k: int| i <= k < j ==> #[trigger] s[k] != '<',
        j < s.len() ==> s[j] == '<',
    ensures
        scan_text_end(s, i) == j,
    decreases j - i,
{
    if i < j {
        lemma_scan_text_run(s, i + 1, j);
    }
}

proof fn lemma_scan_value_run(s: Seq<char>, i: int, j: int)
    requires
        0 <= i <= j <= s.len(),
        forall|k: int| i <= k < j ==> #[trigger] s[k] != '"',
        j < s.len() ==> s[j] == '"',
    ensures
        scan_value_end(s, i) == j,
    decreases j - i,
{
    if i < j {
        lemma_scan_value_run(s, i + 1, j);
    }
}

proof fn lemma_scan_ws_run(s: Seq<char>, i: int, j: int)
    requires
        0 <= i <= j <= s.len(),
        forall|k: int| i <= k < j ==> xml_ws(#[trigger] s[k]),
        j < s.len() ==> !xml_ws(s[j]),
    ensures
        scan_ws_end(s, i) == j,
    decreases j - i,
{
    if i < j {
        lemma_scan_ws_run(s, i + 1, j);
    }
}

proof fn lemma_scan_ws_end_props(s: Seq<char>, i: int)
    requires
        0 <= i <= s.len(),
    ensures
        i <= scan_ws_end(s, i) <= s.len(),
        forall|k: int| i <= k < scan_ws_end(s, i) ==> xml_ws(#[trigger] s[k]),
        scan_ws_end(s, i) < s.len() ==> !xml_ws(s[scan_ws_end(s, i)]),
    decreases s.len() - i,
{
    if i < s.len() && xml_ws(s[i]) {
        lemma_scan_ws_end_props(s, i + 1);
    }
}

/// Every serialized element takes at least the five characters of
/// `<n></n>` less the name.
proof fn lemma_ser_node_len(n: XmlNodeView)
    ensures
        ser_node(n).len() >= 5 + 2 * n.name.len(),
{
}

/// The attributes `attrs[k..]`, written out behind position `i` of `s` and
/// followed by `>`, parse back to exactly those attributes.
#[verifier::rlimit(30)]
proof fn lemma_parse_attrs_ser(attrs: Seq<(Seq<char>, Seq<char>)>, k: int, s: Seq<char>, i: int)
    requires
        attrs_ok(attrs),
        0 <= k <= attrs.len(),
        0 <= i,
        i + ser_attrs(attrs, k).len() < s.len(),
        s.subrange(i, i + ser_attrs(attrs, k).len()) == ser_attrs(attrs, k),
        s[i + ser_attrs(attrs, k).len()] == '>',
    ensures
        parse_attrs(s, i) == Some(
            (attrs.subrange(k, attrs.len() as int), i + ser_attrs(attrs, k).len()),
        ),
    decreases attrs.len() - k,
{
    let w = ser_attrs(attrs, k);
    lemma_subrange_chars(s, i, w);
    if k == attrs.len() {
        assert(w.len() == 0);
        assert(s[i] == '>');
        assert(!xml_ws('>'));
        assert(scan_ws_end(s, i) == i);
        assert(attrs.subrange(k, attrs.len() as int) =~= Seq::<(Seq<char>, Seq<char>)>::empty());
    } else {
        let a = attrs[k];
        assert(attr_ok(a));
        let m = a.0.len() as int;
        let v = a.1.len() as int;
        let rest = ser_attrs(attrs, k + 1);
        let head = seq![' '] + a.0 + seq!['=', '"'] + a.1 + seq!['"'];
        assert(w == head + rest);
        assert(head.len() == 4 + m + v);
        lemma_subrange_split(s, i, head, rest);
        lemma_subrange_chars(s, i, head);
        assert(head[0] == ' ');
        assert(s[i] == ' ');
        assert forall|t: int| i + 1 <= t < i + 1 + m implies name_char(#[trigger] s[t]) by {
            assert(head[t - i] == a.0[t - i - 1]);
        }
        // the leading space is the whole whitespace run: a name character
        // follows, and no name character is whitespace
        assert(name_char(s[i + 1]));
        assert(!xml_ws(s[i + 1]));
        lemma_scan_ws_run(s, i, i + 1);
        assert(scan_ws_end(s, i) == i + 1);
        assert(head[1 + m] == '=');
        assert(s[i + 1 + m] == '=');
        assert(!name_char('='));
        lemma_scan_name_run(s, i + 1, i + 1 + m);
        assert(head[2 + m] == '"');
        assert(s[i + 2 + m] == '"');
        let vs = i + 3 + m;
        assert forall|t: int| vs <= t < vs + v implies #[trigger] s[t] != '"' by {
            assert(head[t - i] == a.1[t - i - 3 - m]);
        }
        assert(head[3 + m + v] == '"');
        assert(s[vs + v] == '"');
        lemma_scan_value_run(s, vs, vs + v);
        assert(s.subrange(i + 1, i + 1 + m) =~= a.0) by {
            assert forall|t: int| 0 <= t < m implies s.subrange(i + 1, i + 1 + m)[t] == a.0[t] by {
                assert(head[1 + t] == a.0[t]);
            }
        }
        assert(s.subrange(vs, vs + v) =~= a.1) by {
            assert forall|t: int| 0 <= t < v implies s.subrange(vs, vs + v)[t] == a.1[t] by {
                assert(head[3 + m + t] == a.1[t]);
            }
        }
        lemma_parse_attrs_ser(attrs, k + 1, s, i + head.len());
        assert(seq![a] + attrs.subrange(k + 1, attrs.len() as int) =~= attrs.subrange(
            k,
            attrs.len() as int,
        ));
        assert(parse_attrs(s, i) == Some(
            (attrs.subrange(k, attrs.len() as int), i + w.len()),
        ));
    }
}

/// A well-formed element, written out behind position `i` of `s`, parses
/// back to exactly that element.
#[verifier::rlimit(50)]
pub proof fn lemma_parse_node_ser(n: XmlNodeView, s: Seq<char>, i: int)
    requires
        wf_node(n),
        0 <= i,
        i + ser_node(n).len() <= s.len(),
        s.subrange(i, i + ser_node(n).len()) == ser_node(n),
    ensures
        parse_node(s, i) == Some((n, i + ser_node(n).len())),
    decreases s.len() - i, 1int,
{
    let m = n.name.len() as int;
    let av = ser_attrs(n.attrs, 0);
    let al = av.len() as int;
    let body = if n.children.len() > 0 {
        ser_children(n.children, 0)
    } else {
        n.text
    };
    let bl = body.len() as int;
    let open = ser_open_tag(n);
    let close = ser_close_tag(n.name);
    let w = ser_node(n);
    let el = i + w.len();
    assert(w == open + body + close);
    assert(open.len() == 2 + m + al);
    assert(close.len() == 3 + m);
    lemma_subrange_split(s, i, open + body, close);
    lemma_subrange_split(s, i, open, body);
    assert(open == seq!['<'] + n.name + av + seq!['>']);
    assert((seq!['<'] + n.name) + (av + seq!['>']) =~= open);
    lemma_subrange_split(s, i, seq!['<'] + n.name, av + seq!['>']);
    lemma_subrange_split(s, i + 1 + m, av, seq!['>']);
    lemma_subrange_split(s, i, seq!['<'], n.name);
    lemma_subrange_chars(s, i, open);
    assert(open[0] == '<');
    assert(s[i] == '<');
    // the name run and its stop character
    assert forall|t: int| i + 1 <= t < i + 1 + m implies name_char(#[trigger] s[t]) by {
        assert(open[t - i] == n.name[t - i - 1]);
    }
    if n.attrs.len() > 0 {
        assert(av[0] == ' ');
        assert(open[1 + m] == ' ');
        assert(s[i + 1 + m] == ' ');
        assert(!name_char(' '));
    } else {
        assert(al == 0);
        assert(open[1 + m] == '>');
        assert(s[i + 1 + m] == '>');
        assert(!name_char('>'));
    }
    lemma_scan_name_run(s, i + 1, i + 1 + m);
    assert(scan_name_end(s, i + 1) == i + 1 + m);
    assert(s.subrange(i + 1, i + 1 + m) == n.name);
    // the attributes and the `>` that ends the open tag
    assert(open[1 + m + al] == '>');
    assert(s[i + 1 + m + al] == '>');
    lemma_parse_attrs_ser(n.attrs, 0, s, i + 1 + m);
    assert(n.attrs.subrange(0, n.attrs.len() as int) =~= n.attrs);
    assert(parse_attrs(s, i + 1 + m) == Some((n.attrs, i + 1 + m + al)));
    let b = i + 2 + m + al;
    // the close tag
    let ct = b + bl;
    lemma_subrange_chars(s, ct, close);
    assert(close == seq!['<', '/'] + n.name + seq!['>']);
    assert(close[0] == '<');
    assert(close[1] == '/');
    assert(s[ct] == '<');
    assert(s[ct + 1] == '/');
    assert(s.subrange(ct + 2, ct + 2 + m) =~= n.name) by {
        assert forall|t: int| 0 <= t < m implies s.subrange(ct + 2, ct + 2 + m)[t] == n.name[t] by {
            assert(close[2 + t] == n.name[t]);
        }
    }
    assert(close[2 + m] == '>');
    assert(s[ct + 2 + m] == '>');
    assert(close_at(s, ct, n.name) == Some(ct + 3 + m));
    assert(ct + 3 + m == el);
    if n.children.len() > 0 {
        // the body holds the children; its first element starts `<x` with
        // `x` a name character, so the children branch is taken
        assert(body == ser_children(n.children, 0));
        let c0 = n.children[0];
        assert(wf_node(c0)) by {
            lemma_wf_children_index(n.children, 0, 0);
        }
        assert(body == ser_node(c0) + ser_children(n.children, 1));
        lemma_subrange_split(s, b, ser_node(c0), ser_children(n.children, 1));
        lemma_ser_node_len(c0);
        lemma_subrange_chars(s, b, ser_node(c0));
        assert(ser_node(c0) == ser_open_tag(c0) + (if c0.children.len() > 0 {
            ser_children(c0.children, 0)
        } else {
            c0.text
        }) + ser_close_tag(c0.name));
        assert(ser_open_tag(c0)[0] == '<');
        assert(ser_open_tag(c0)[1] == c0.name[0]);
        assert(ser_node(c0)[0] == '<');
        assert(ser_node(c0)[1] == c0.name[0]);
        assert(s[b] == '<');
        assert(!xml_ws('<'));
        assert(scan_ws_end(s, b) == b);
        assert(name_char(s[b + 1]));
        assert(s[b + 1] != '/');
        assert(b + 1 < s.len());
        lemma_parse_children_ser(n.children, 0, s, b);
        assert(n.children.subrange(0, n.children.len() as int) =~= n.children);
        assert(parse_children(s, b) == Some((n.children, ct)));
        let got = XmlNodeView {
            name: s.subrange(i + 1, i + 1 + m),
            attrs: n.attrs,
            children: n.children,
            text: Seq::empty(),
        };
        assert(n.text =~= Seq::<char>::empty());
        assert(got =~~= n);
        assert(parse_node(s, i) == Some((n, el)));
    } else {
        // the body is the text; it opens no tag, so the text branch is taken
        assert(body == n.text);
        lemma_subrange_chars(s, b, n.text);
        assert forall|t: int| b <= t < b + bl implies #[trigger] s[t] != '<' by {
            assert(n.text[t - b] == s[b + (t - b)]);
            assert(n.text[t - b] != '<');
        }
        assert(s[b + bl] == '<');
        lemma_scan_text_run(s, b, b + bl);
        assert(scan_text_end(s, b) == ct);
        // whatever whitespace run opens the text, what follows it is
        // either more text (never `<`) or this element's own close tag,
        // so the body is read as text, not as children
        let p = scan_ws_end(s, b);
        lemma_scan_ws_end_props(s, b);
        assert(p <= ct) by {
            if p > ct {
                assert(xml_ws(s[ct]));
            }
        }
        if p < ct {
            assert(n.text[p - b] == s[b + (p - b)]);
            assert(n.text[p - b] != '<');
            assert(s[p] != '<');
        } else {
            assert(p == ct);
            assert(s[p] == '<' && s[p + 1] == '/');
        }
        assert(s.subrange(b, ct) == n.text);
        let got = XmlNodeView {
            name: s.subrange(i + 1, i + 1 + m),
            attrs: n.attrs,
            children: Seq::empty(),
            text: s.subrange(b, ct),
        };
        assert(n.children =~= Seq::<XmlNodeView>::empty());
        assert(got =~~= n);
        assert(parse_node(s, i) == Some((n, el)));
    }
}

/// Well-formed sibling elements `cs[k..]`, written out behind position `i`
/// of `s` and followed by a close tag, parse back to exactly those
/// elements, stopping at the close tag.
#[verifier::rlimit(30)]
pub proof fn lemma_parse_children_ser(cs: Seq<XmlNodeView>, k: int, s: Seq<char>, i: int)
    requires
        0 <= k <= cs.len(),
        wf_children(cs, k),
        0 <= i,
        i + ser_children(cs, k).len() + 1 < s.len(),
        s.subrange(i, i + ser_children(cs, k).len()) == ser_children(cs, k),
        s[i + ser_children(cs, k).len()] == '<',
        s[i + ser_children(cs, k).len() + 1] == '/',
    ensures
        parse_children(s, i) == Some(
            (cs.subrange(k, cs.len() as int), i + ser_children(cs, k).len()),
        ),
    decreases s.len() - i, 2int,
{
    let w = ser_children(cs, k);
    assert(!xml_ws('<'));
    if k == cs.len() {
        assert(w.len() == 0);
        assert(s[i] == '<' && s[i + 1] == '/');
        assert(scan_ws_end(s, i) == i);
        assert(cs.subrange(k, cs.len() as int) =~= Seq::<XmlNodeView>::empty());
    } else {
        let c = cs[k];
        assert(wf_node(c));
        assert(w == ser_node(c) + ser_children(cs, k + 1));
        lemma_subrange_split(s, i, ser_node(c), ser_children(cs, k + 1));
        lemma_ser_node_len(c);
        lemma_parse_node_ser(c, s, i);
        let j = i + ser_node(c).len() as int;
        // the first two characters are `<x` with `x` a name character, so
        // this is an element, not a close tag
        lemma_subrange_chars(s, i, ser_node(c));
        assert(ser_node(c) == ser_open_tag(c) + (if c.children.len() > 0 {
            ser_children(c.children, 0)
        } else {
            c.text
        }) + ser_close_tag(c.name));
        assert(ser_open_tag(c)[0] == '<');
        assert(ser_open_tag(c)[1] == c.name[0]);
        assert(ser_node(c)[0] == '<');
        assert(ser_node(c)[1] == c.name[0]);
        assert(s[i] == '<');
        assert(scan_ws_end(s, i) == i);
        assert(name_char(s[i + 1]));
        assert(s[i + 1] != '/');
        lemma_parse_children_ser(cs, k + 1, s, j);
        assert(seq![c] + cs.subrange(k + 1, cs.len() as int) =~= cs.subrange(k, cs.len() as int));
        assert(parse_children(s, i) == Some((cs.subrange(k, cs.len() as int), i + w.len())));
    }
}

/// THE ROUND TRIP AT THE TREE LEVEL: the serialization of a well-formed
/// element tree parses back to exactly that tree.
pub proof fn lemma_parse_root_ser(n: XmlNodeView)
    requires
        wf_node(n),
    ensures
        parse_root(ser_node(n)) == Some(n),
{
    let s = ser_node(n);
    assert(s.subrange(0, s.len() as int) =~= s);
    lemma_parse_node_ser(n, s, 0);
    lemma_ser_node_len(n);
    // the rendering opens the document element at position zero: no
    // whitespace, and no XML declaration, since a name follows the `<`
    assert(ser_open_tag(n)[0] == '<');
    assert(ser_open_tag(n)[1] == n.name[0]);
    assert(s == ser_open_tag(n) + (if n.children.len() > 0 {
        ser_children(n.children, 0)
    } else {
        n.text
    }) + ser_close_tag(n.name));
    assert(s[0] == '<');
    assert(s[1] == n.name[0]);
    assert(name_char(s[1]));
    assert(s[1] != '?');
    assert(!xml_ws('<'));
    assert(scan_ws_end(s, 0) == 0);
    assert(root_start(s) == Some(0int));
    assert(scan_ws_end(s, s.len() as int) == s.len());
}

/// Serializes one element tree.
pub fn xml_node_to_string(n: &XmlNode) -> (r: String)
    ensures
        r@ == ser_node(n@),
    decreases n,
{
    let mut s = String::from_str("<");
    s.append(n.name.as_str());
    proof {
        reveal_strlit("<");
        assert(s@ =~= seq!['<'] + n@.name);
    }
    let ghost av = n@.attrs;
    let mut k: usize = 0;
    while k < n.attrs.len()
        invariant
            0 <= k <= n.attrs.len(),
            av == n@.attrs,
            av.len() == n.attrs.len(),
            s@ + ser_attrs(av, k as int) == seq!['<'] + n@.name + ser_attrs(av, 0),
        decreases n.attrs.len() - k,
    {
        proof {
            reveal_strlit(" ");
            reveal_strlit("=\"");
            reveal_strlit("\"");
            assert(av[k as int] == n.attrs@[k as int]@);
        }
        s.append(" ");
        s.append(n.attrs[k].name.as_str());
        s.append("=\"");
        s.append(n.attrs[k].value.as_str());
        s.append("\"");
        k = k + 1;
        proof {
            assert(ser_attrs(av, k - 1) == seq![' '] + av[k - 1].0 + seq!['=', '"'] + av[k - 1].1
                + seq!['"'] + ser_attrs(av, k as int));
            assert(" "@ =~= seq![' ']);
            assert("=\""@ =~= seq!['=', '"']);
            assert("\""@ =~= seq!['"']);
            assert(s@ + ser_attrs(av, k as int) =~= seq!['<'] + n@.name + ser_attrs(av, 0));
        }
    }
    s.append(">");
    proof {
        reveal_strlit(">");
        assert(s@ =~= ser_open_tag(n@));
    }
    let ghost head = ser_open_tag(n@);
    if n.children.len() > 0 {
        let ghost cv = n@.children;
        let mut k: usize = 0;
        while k < n.children.len()
            invariant
                0 <= k <= n.children.len(),
                cv == n@.children,
                cv.len() == n.children.len(),
                head == ser_open_tag(n@),
                s@ + ser_children(cv, k as int) == head + ser_children(cv, 0),
            decreases n.children.len() - k,
        {
            proof {
                assert(cv[k as int] == n.children@[k as int]@);
                assert(decreases_to!(*n => n.children));
                assert(decreases_to!(n.children => n.children@));
            }
            let t = xml_node_to_string(&n.children[k]);
            s.append(t.as_str());
            k = k + 1;
            proof {
                assert(ser_children(cv, k - 1) == ser_node(cv[k - 1]) + ser_children(
                    cv,
                    k as int,
                ));
                assert(s@ + ser_children(cv, k as int) =~= head + ser_children(cv, 0));
            }
        }
    } else {
        s.append(n.text.as_str());
    }
    s.append("</");
    s.append(n.name.as_str());
    s.append(">");
    proof {
        reveal_strlit("</");
        reveal_strlit(">");
        assert("</"@ =~= seq!['<', '/']);
        assert(s@ =~= ser_node(n@));
    }
    s
}

} // verus!

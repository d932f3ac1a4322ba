//! The XML codec of the format: a document or balloon as an element tree
//! of [`crate::xml`], the exact canonical rendering, and the decode path
//! that reconstructs the model from a tree.

use vstd::prelude::*;
use vstd::string::StringExecFns;

use crate::b64::{b64_char, b64_enc, b64_round_trip};
use crate::balloon::{Balloon, BalloonImage, BalloonImageView, BalloonView};
use crate::consts::{type_attr, TYPES};
use crate::strutil::{dec_str, is_digit_char};
use crate::xml::{
    attr_value_ok, ser_node, text_ok, valid_name, wf_children, wf_node, XmlAttr, XmlNode,
    XmlNodeView,
};

verus! {

pub open spec fn document_tag() -> Seq<char> {
    seq!['D', 'o', 'c', 'u', 'm', 'e', 'n', 't']
}

pub open spec fn metadata_tag() -> Seq<char> {
    seq!['M', 'e', 't', 'a', 'd', 'a', 't', 'a']
}

pub open spec fn script_tag() -> Seq<char> {
    seq!['S', 'c', 'r', 'i', 'p', 't']
}

pub open spec fn app_tag() -> Seq<char> {
    seq!['A', 'p', 'p']
}

pub open spec fn info_tag() -> Seq<char> {
    seq!['I', 'n', 'f', 'o']
}

pub open spec fn tl_length_tag() -> Seq<char> {
    seq!['T', 'L', 'L', 'e', 'n', 'g', 't', 'h']
}

pub open spec fn pr_length_tag() -> Seq<char> {
    seq!['P', 'R', 'L', 'e', 'n', 'g', 't', 'h']
}

pub open spec fn cm_length_tag() -> Seq<char> {
    seq!['C', 'M', 'L', 'e', 'n', 'g', 't', 'h']
}

pub open spec fn balloon_count_tag() -> Seq<char> {
    seq!['B', 'a', 'l', 'l', 'o', 'o', 'n', 'C', 'o', 'u', 'n', 't']
}

pub open spec fn line_count_tag() -> Seq<char> {
    seq!['L', 'i', 'n', 'e', 'C', 'o', 'u', 'n', 't']
}

pub open spec fn balloons_tag() -> Seq<char> {
    seq!['B', 'a', 'l', 'l', 'o', 'o', 'n', 's']
}

pub open spec fn balloon_tag() -> Seq<char> {
    seq!['B', 'a', 'l', 'l', 'o', 'o', 'n']
}

pub open spec fn tl_tag() -> Seq<char> {
    seq!['T', 'L']
}

pub open spec fn pr_tag() -> Seq<char> {
    seq!['P', 'R']
}

pub open spec fn comment_tag() -> Seq<char> {
    seq!['C', 'o', 'm', 'm', 'e', 'n', 't']
}

pub open spec fn img_tag() -> Seq<char> {
    seq!['i', 'm', 'g']
}

pub open spec fn type_attr_name() -> Seq<char> {
    seq!['t', 'y', 'p', 'e']
}

/// An element with text only: `<name>text</name>`.
pub open spec fn leaf_node(name: Seq<char>, text: Seq<char>) -> XmlNodeView {
    XmlNodeView { name, attrs: Seq::empty(), children: Seq::empty(), text }
}

/// One leaf per line, all under the same element name, in order.
pub open spec fn text_nodes(name: Seq<char>, ls: Seq<Seq<char>>) -> Seq<XmlNodeView> {
    Seq::new(ls.len(), |i: int| leaf_node(name, ls[i]))
}

/// `<img type="{kind}">{base64 bytes}</img>`
pub open spec fn img_node(im: BalloonImageView) -> XmlNodeView {
    XmlNodeView {
        name: img_tag(),
        attrs: seq![(type_attr_name(), im.img_type)],
        children: Seq::empty(),
        text: b64_enc(im.img_data),
    }
}

/// The children of a balloon element: translation lines, proofread lines,
/// comment lines, then the image if one is attached. The order is fixed.
pub open spec fn balloon_children(b: BalloonView) -> Seq<XmlNodeView> {
    text_nodes(tl_tag(), b.tl) + text_nodes(pr_tag(), b.pr) + text_nodes(comment_tag(), b.cm) + (
    match b.img {
        Some(im) => seq![img_node(im)],
        None => Seq::<XmlNodeView>::empty(),
    })
}

/// A balloon as an element: `<Balloon type="...">` over its children.
pub open spec fn balloon_tree(b: BalloonView) -> XmlNodeView {
    XmlNodeView {
        name: balloon_tag(),
        attrs: seq![(type_attr_name(), type_attr(b.btype))],
        children: balloon_children(b),
        text: Seq::empty(),
    }
}

/// XML rendering of one balloon.
pub open spec fn balloon_xml(b: BalloonView) -> Seq<char> {
    ser_node(balloon_tree(b))
}

/// The metadata block: the three metadata strings, then the five derived
/// metrics, always recomputed from the balloons, never stored.
pub open spec fn metadata_node(d: crate::DocumentView) -> XmlNodeView {
    XmlNodeView {
        name: metadata_tag(),
        attrs: Seq::empty(),
        children: seq![
            leaf_node(script_tag(), d.script_version),
            leaf_node(app_tag(), d.app_version),
            leaf_node(info_tag(), d.info),
            leaf_node(tl_length_tag(), dec_str(crate::doc_tl_total(d.balloons, 0))),
            leaf_node(pr_length_tag(), dec_str(crate::doc_pr_total(d.balloons, 0))),
            leaf_node(cm_length_tag(), dec_str(crate::doc_cm_total(d.balloons, 0))),
            leaf_node(balloon_count_tag(), dec_str(d.balloons.len() as int)),
            leaf_node(line_count_tag(), dec_str(crate::doc_line_total(d.balloons, 0))),
        ],
        text: Seq::empty(),
    }
}

/// `<Balloons>` over one element per balloon, in document order.
pub open spec fn balloons_node(d: crate::DocumentView) -> XmlNodeView {
    XmlNodeView {
        name: balloons_tag(),
        attrs: Seq::empty(),
        children: Seq::new(d.balloons.len(), |i: int| balloon_tree(d.balloons[i])),
        text: Seq::empty(),
    }
}

/// A whole document as an element tree.
pub open spec fn doc_tree(d: crate::DocumentView) -> XmlNodeView {
    XmlNodeView {
        name: document_tag(),
        attrs: Seq::empty(),
        children: seq![metadata_node(d), balloons_node(d)],
        text: Seq::empty(),
    }
}

/// XML rendering of a whole document.
pub open spec fn doc_xml(d: crate::DocumentView) -> Seq<char> {
    ser_node(doc_tree(d))
}

/// Lines that survive the XML round trip: the format does no entity
/// escaping, so no line may open a tag.
pub open spec fn lines_clean(ls: Seq<Seq<char>>) -> bool {
    forall|i: int| 0 <= i < ls.len() ==> text_ok(#[trigger] ls[i])
}

/// A balloon that survives the XML round trip: its lines open no tag, its
/// image kind closes no quote, and its image bytes are what base64
/// guarantees of everything it encodes (see [`b64_round_trip`]).
pub open spec fn balloon_clean(b: BalloonView) -> bool {
    &&& lines_clean(b.tl)
    &&& lines_clean(b.pr)
    &&& lines_clean(b.cm)
    &&& match b.img {
        Some(im) => attr_value_ok(im.img_type) && b64_round_trip(im.img_data),
        None => true,
    }
}

/// A document that survives the XML round trip: clean metadata strings
/// and clean balloons.
pub open spec fn doc_clean(d: crate::DocumentView) -> bool {
    &&& text_ok(d.script_version)
    &&& text_ok(d.app_version)
    &&& text_ok(d.info)
    &&& forall|i: int| 0 <= i < d.balloons.len() ==> balloon_clean(#[trigger] d.balloons[i])
}

proof fn lemma_wf_children_all(cs: Seq<XmlNodeView>, k: int)
    requires
        0 <= k <= cs.len(),
        forall|i: int| k <= i < cs.len() ==> wf_node(#[trigger] cs[i]),
    ensures
        wf_children(cs, k),
    decreases cs.len() - k,
{
    if k < cs.len() {
        lemma_wf_children_all(cs, k + 1);
    }
}

proof fn lemma_leaf_wf(name: Seq<char>, text: Seq<char>)
    requires
        valid_name(name),
        text_ok(text),
    ensures
        wf_node(leaf_node(name, text)),
{
    assert(wf_children(Seq::<XmlNodeView>::empty(), 0));
}

/// Every character of the base64 alphabet is clean text and never a name
/// character's worth of trouble: in particular it opens no tag.
proof fn lemma_b64_text_ok(data: Seq<u8>)
    requires
        b64_round_trip(data),
    ensures
        text_ok(b64_enc(data)),
{
    assert forall|i: int| 0 <= i < b64_enc(data).len() implies #[trigger] b64_enc(data)[i]
        != '<' by {
        assert(b64_char(b64_enc(data)[i]));
    }
}

/// The serialization of a clean balloon parses back: its tree is
/// well-formed.
pub proof fn lemma_balloon_tree_wf(b: BalloonView)
    requires
        balloon_clean(b),
    ensures
        wf_node(balloon_tree(b)),
{
    let cs = balloon_children(b);
    let t = b.tl.len() as int;
    let p = b.pr.len() as int;
    let c = b.cm.len() as int;
    assert forall|i: int| 0 <= i < cs.len() implies wf_node(#[trigger] cs[i]) by {
        if i < t {
            assert(cs[i] == leaf_node(tl_tag(), b.tl[i]));
            lemma_leaf_wf(tl_tag(), b.tl[i]);
        } else if i < t + p {
            assert(cs[i] == leaf_node(pr_tag(), b.pr[i - t]));
            lemma_leaf_wf(pr_tag(), b.pr[i - t]);
        } else if i < t + p + c {
            assert(cs[i] == leaf_node(comment_tag(), b.cm[i - t - p]));
            lemma_leaf_wf(comment_tag(), b.cm[i - t - p]);
        } else {
            let im = b.img->0;
            assert(cs[i] == img_node(im));
            lemma_b64_text_ok(im.img_data);
            assert(wf_children(Seq::<XmlNodeView>::empty(), 0));
            assert(wf_node(img_node(im)));
        }
    }
    lemma_wf_children_all(cs, 0);
    assert(attr_value_ok(type_attr(b.btype)));
    assert(wf_node(balloon_tree(b)));
}

/// The serialization of a clean document parses back: its tree is
/// well-formed.
pub proof fn lemma_doc_tree_wf(d: crate::DocumentView)
    requires
        doc_clean(d),
    ensures
        wf_node(doc_tree(d)),
{
    let md = metadata_node(d);
    crate::lemma_doc_totals_nonneg(d.balloons, 0);
    assert forall|i: int| 0 <= i < md.children.len() implies wf_node(#[trigger] md.children[i]) by {
        assert(text_ok(dec_str(crate::doc_tl_total(d.balloons, 0)))) by {
            lemma_dec_str_text_ok(crate::doc_tl_total(d.balloons, 0));
        }
        assert(text_ok(dec_str(crate::doc_pr_total(d.balloons, 0)))) by {
            lemma_dec_str_text_ok(crate::doc_pr_total(d.balloons, 0));
        }
        assert(text_ok(dec_str(crate::doc_cm_total(d.balloons, 0)))) by {
            lemma_dec_str_text_ok(crate::doc_cm_total(d.balloons, 0));
        }
        assert(text_ok(dec_str(d.balloons.len() as int))) by {
            lemma_dec_str_text_ok(d.balloons.len() as int);
        }
        assert(text_ok(dec_str(crate::doc_line_total(d.balloons, 0)))) by {
            lemma_dec_str_text_ok(crate::doc_line_total(d.balloons, 0));
        }
        lemma_leaf_wf(md.children[i].name, md.children[i].text);
    }
    lemma_wf_children_all(md.children, 0);
    assert(wf_node(md));
    let bn = balloons_node(d);
    assert forall|i: int| 0 <= i < bn.children.len() implies wf_node(#[trigger] bn.children[i]) by {
        assert(bn.children[i] == balloon_tree(d.balloons[i]));
        assert(balloon_clean(d.balloons[i]));
        lemma_balloon_tree_wf(d.balloons[i]);
    }
    lemma_wf_children_all(bn.children, 0);
    assert(wf_node(bn));
    lemma_wf_children_all(doc_tree(d).children, 0);
    assert(wf_node(doc_tree(d)));
}

proof fn lemma_dec_str_text_ok(n: int)
    requires
        n >= 0,
    ensures
        text_ok(dec_str(n)),
{
    crate::strutil::lemma_dec_str_digits(n);
    assert forall|i: int| 0 <= i < dec_str(n).len() implies #[trigger] dec_str(n)[i] != '<' by {
        assert(is_digit_char(dec_str(n)[i]));
    }
}

/// The first child of `cs[i..]` named `name`.
pub open spec fn find_child(cs: Seq<XmlNodeView>, name: Seq<char>, i: int) -> Option<XmlNodeView>
    decreases cs.len() - i,
{
    if i < 0 || i >= cs.len() {
        None
    } else if cs[i].name == name {
        Some(cs[i])
    } else {
        find_child(cs, name, i + 1)
    }
}

/// The first node named `name` in document order, the node itself
/// included.
pub open spec fn find_descendant(n: XmlNodeView, name: Seq<char>) -> Option<XmlNodeView>
    decreases n, 0int,
{
    if n.name == name {
        Some(n)
    } else {
        find_desc_in(n.children, name, 0)
    }
}

pub open spec fn find_desc_in(cs: Seq<XmlNodeView>, name: Seq<char>, i: int) -> Option<XmlNodeView>
    decreases cs, cs.len() - i,
{
    if i < 0 || i >= cs.len() {
        None
    } else {
        match find_descendant(cs[i], name) {
            Some(x) => Some(x),
            None => find_desc_in(cs, name, i + 1),
        }
    }
}

/// The text of the first child named `name`; a missing child or missing
/// text resolves to the empty string, never to a failure.
pub open spec fn child_text(n: XmlNodeView, name: Seq<char>) -> Seq<char> {
    match find_child(n.children, name, 0) {
        Some(c) => c.text,
        None => Seq::empty(),
    }
}

/// The value of the first attribute of `attrs[i..]` named `name`.
pub open spec fn attr_value(
    attrs: Seq<(Seq<char>, Seq<char>)>,
    name: Seq<char>,
    i: int,
) -> Option<Seq<char>>
    decreases attrs.len() - i,
{
    if i < 0 || i >= attrs.len() {
        None
    } else if attrs[i].0 == name {
        Some(attrs[i].1)
    } else {
        attr_value(attrs, name, i + 1)
    }
}

/// The texts of all children of `cs[i..]` named `name`, in order.
pub open spec fn collect_texts(cs: Seq<XmlNodeView>, name: Seq<char>, i: int) -> Seq<Seq<char>>
    decreases cs.len() - i,
{
    if i < 0 || i >= cs.len() {
        Seq::empty()
    } else if cs[i].name == name {
        seq![cs[i].text] + collect_texts(cs, name, i + 1)
    } else {
        collect_texts(cs, name, i + 1)
    }
}

/// One balloon read back from its element: the `type` attribute (missing
/// or unknown resolves to `DIALOGUE`), the `TL`/`PR`/`Comment` child
/// texts in order, and the image if an `img` child stands there. Only a
/// failing base64 decode of the image text is an error.
pub open spec fn decode_balloon(n: XmlNodeView) -> Result<BalloonView, crate::SffErrorView> {
    let btype = match attr_value(n.attrs, type_attr_name(), 0) {
        Some(v) => crate::consts::attr_type(v),
        None => TYPES::DIALOGUE,
    };
    let tl = collect_texts(n.children, tl_tag(), 0);
    let pr = collect_texts(n.children, pr_tag(), 0);
    let cm = collect_texts(n.children, comment_tag(), 0);
    match find_child(n.children, img_tag(), 0) {
        None => Ok(BalloonView { tl, pr, cm, btype, img: None }),
        Some(im) => match crate::b64::b64_dec(im.text) {
            None => Err(crate::SffErrorView::InvalidImageEncoding),
            Some(bytes) => Ok(
                BalloonView {
                    tl,
                    pr,
                    cm,
                    btype,
                    img: Some(
                        BalloonImageView {
                            img_type: match attr_value(im.attrs, type_attr_name(), 0) {
                                Some(v) => v,
                                None => Seq::empty(),
                            },
                            img_data: bytes,
                        },
                    ),
                },
            ),
        },
    }
}

/// The balloons read back from the children `cs[i..]`, in order; every
/// child of `Balloons` counts as a balloon element.
pub open spec fn decode_balloons(cs: Seq<XmlNodeView>, i: int) -> Result<
    Seq<BalloonView>,
    crate::SffErrorView,
>
    decreases cs.len() - i,
{
    if i < 0 || i >= cs.len() {
        Ok(Seq::empty())
    } else {
        match decode_balloon(cs[i]) {
            Err(e) => Err(e),
            Ok(b) => match decode_balloons(cs, i + 1) {
                Err(e) => Err(e),
                Ok(rest) => Ok(seq![b] + rest),
            },
        }
    }
}

/// A whole document read back from an XML string: parse the tree — the
/// language of [`crate::xml`]'s parser — then find the first `Metadata`
/// and `Balloons` nodes, read the metadata strings (missing nodes
/// resolve to empty strings) and the balloons. The stored metric fields
/// are deliberately ignored: the model recomputes them.
pub open spec fn xml_decode_spec(s: Seq<char>) -> Result<
    crate::DocumentView,
    crate::SffErrorView,
> {
    match crate::xml::parse_root(s) {
        None => Err(crate::SffErrorView::MalformedXml),
        Some(root) => match find_descendant(root, metadata_tag()) {
            None => Err(crate::SffErrorView::MissingSection(metadata_tag())),
            Some(md) => match find_descendant(root, balloons_tag()) {
                None => Err(crate::SffErrorView::MissingSection(balloons_tag())),
                Some(bs) => match decode_balloons(bs.children, 0) {
                    Err(e) => Err(e),
                    Ok(balloons) => Ok(
                        crate::DocumentView {
                            script_version: child_text(md, script_tag()),
                            app_version: child_text(md, app_tag()),
                            info: child_text(md, info_tag()),
                            balloons,
                        },
                    ),
                },
            },
        },
    }
}

proof fn lemma_collect_texts_run(cs: Seq<XmlNodeView>, name: Seq<char>, i: int, j: int)
    requires
        0 <= i <= j <= cs.len(),
        forall|t: int| i <= t < j ==> (#[trigger] cs[t]).name == name,
    ensures
        collect_texts(cs, name, i) == Seq::new((j - i) as nat, |t: int| cs[i + t].text) + collect_texts(
            cs,
            name,
            j,
        ),
    decreases j - i,
{
    if i == j {
        assert(Seq::new(0nat, |t: int| cs[i + t].text) + collect_texts(cs, name, j) =~= collect_texts(
            cs,
            name,
            i,
        ));
    } else {
        lemma_collect_texts_run(cs, name, i + 1, j);
        assert(seq![cs[i].text] + (Seq::new((j - i - 1) as nat, |t: int| cs[i + 1 + t].text)
            + collect_texts(cs, name, j)) =~= Seq::new((j - i) as nat, |t: int| cs[i + t].text)
            + collect_texts(cs, name, j));
    }
}

proof fn lemma_collect_texts_skip(cs: Seq<XmlNodeView>, name: Seq<char>, i: int, j: int)
    requires
        0 <= i <= j <= cs.len(),
        forall|t: int| i <= t < j ==> (#[trigger] cs[t]).name != name,
    ensures
        collect_texts(cs, name, i) == collect_texts(cs, name, j),
    decreases j - i,
{
    if i < j {
        lemma_collect_texts_skip(cs, name, i + 1, j);
    }
}

proof fn lemma_find_child_skip(cs: Seq<XmlNodeView>, name: Seq<char>, i: int, j: int)
    requires
        0 <= i <= j <= cs.len(),
        forall|t: int| i <= t < j ==> (#[trigger] cs[t]).name != name,
    ensures
        find_child(cs, name, i) == find_child(cs, name, j),
    decreases j - i,
{
    if i < j {
        lemma_find_child_skip(cs, name, i + 1, j);
    }
}

proof fn lemma_find_desc_in_leaves(cs: Seq<XmlNodeView>, name: Seq<char>, k: int)
    requires
        0 <= k <= cs.len(),
        forall|i: int| k <= i < cs.len() ==> (#[trigger] cs[i]).name != name && cs[i].children.len()
            == 0,
    ensures
        find_desc_in(cs, name, k) is None,
    decreases cs.len() - k,
{
    if k < cs.len() {
        assert(find_desc_in(cs[k].children, name, 0) is None);
        assert(find_descendant(cs[k], name) is None);
        lemma_find_desc_in_leaves(cs, name, k + 1);
    }
}

/// A clean balloon read back from its own element is itself: the `type`
/// attribute decodes to the same kind, the child texts are the same lines
/// in the same order, and the image bytes survive base64.
proof fn lemma_decode_balloon_tree(b: BalloonView)
    requires
        balloon_clean(b),
    ensures
        decode_balloon(balloon_tree(b)) == Ok::<BalloonView, crate::SffErrorView>(b),
{
    let n = balloon_tree(b);
    let cs = balloon_children(b);
    let t = b.tl.len() as int;
    let p = b.pr.len() as int;
    let c = b.cm.len() as int;
    let e = cs.len() as int;
    crate::consts::lemma_attr_type_inverts_type_attr(b.btype);
    assert(attr_value(n.attrs, type_attr_name(), 0) == Some(type_attr(b.btype)));
    // names of the four regions
    assert(tl_tag() != pr_tag()) by {
        assert(tl_tag()[0] == 'T' && pr_tag()[0] == 'P');
    }
    assert forall|i: int| 0 <= i < t implies (#[trigger] cs[i]).name == tl_tag() && cs[i].text
        == b.tl[i] by {
        assert(cs[i] == leaf_node(tl_tag(), b.tl[i]));
    }
    assert forall|i: int| t <= i < t + p implies (#[trigger] cs[i]).name == pr_tag() && cs[i].text
        == b.pr[i - t] by {
        assert(cs[i] == leaf_node(pr_tag(), b.pr[i - t]));
    }
    assert forall|i: int| t + p <= i < t + p + c implies (#[trigger] cs[i]).name == comment_tag()
        && cs[i].text == b.cm[i - t - p] by {
        assert(cs[i] == leaf_node(comment_tag(), b.cm[i - t - p]));
    }
    if b.img is Some {
        assert(cs[t + p + c] == img_node(b.img->0));
        assert(cs[t + p + c].name == img_tag());
    }
    // translation lines: a run of TL, then nothing named TL
    lemma_collect_texts_run(cs, tl_tag(), 0, t);
    lemma_collect_texts_skip(cs, tl_tag(), t, e);
    assert(collect_texts(cs, tl_tag(), e) == Seq::<Seq<char>>::empty());
    assert(collect_texts(cs, tl_tag(), 0) =~= b.tl) by {
        assert(Seq::new(t as nat, |i: int| cs[0 + i].text) + Seq::<Seq<char>>::empty() =~= Seq::new(
            t as nat,
            |i: int| cs[0 + i].text,
        ));
        assert forall|i: int| 0 <= i < t implies Seq::new(t as nat, |k: int| cs[0 + k].text)[i]
            == b.tl[i] by {
            assert(cs[i].text == b.tl[i]);
        }
    }
    // proofread lines
    lemma_collect_texts_skip(cs, pr_tag(), 0, t);
    lemma_collect_texts_run(cs, pr_tag(), t, t + p);
    lemma_collect_texts_skip(cs, pr_tag(), t + p, e);
    assert(collect_texts(cs, pr_tag(), 0) =~= b.pr) by {
        assert(collect_texts(cs, pr_tag(), 0) == Seq::new(p as nat, |i: int| cs[t + i].text)
            + Seq::<Seq<char>>::empty());
        assert forall|i: int| 0 <= i < p implies Seq::new(p as nat, |k: int| cs[t + k].text)[i]
            == b.pr[i] by {
            assert(cs[t + i].text == b.pr[i]);
        }
    }
    // comment lines
    lemma_collect_texts_skip(cs, comment_tag(), 0, t + p);
    lemma_collect_texts_run(cs, comment_tag(), t + p, t + p + c);
    lemma_collect_texts_skip(cs, comment_tag(), t + p + c, e);
    assert(collect_texts(cs, comment_tag(), 0) =~= b.cm) by {
        assert(collect_texts(cs, comment_tag(), 0) == Seq::new(c as nat, |i: int| cs[t + p + i].text)
            + Seq::<Seq<char>>::empty());
        assert forall|i: int| 0 <= i < c implies Seq::new(c as nat, |k: int| cs[t + p + k].text)[i]
            == b.cm[i] by {
            assert(cs[t + p + i].text == b.cm[i]);
        }
    }
    // the image, where one is attached
    lemma_find_child_skip(cs, img_tag(), 0, t + p + c);
    match b.img {
        None => {
            assert(find_child(cs, img_tag(), t + p + c) is None);
            assert(decode_balloon(n)->Ok_0 =~~= b);
        },
        Some(im) => {
            assert(find_child(cs, img_tag(), t + p + c) == Some(img_node(im)));
            assert(crate::b64::b64_dec(img_node(im).text) == Some(im.img_data));
            assert(attr_value(img_node(im).attrs, type_attr_name(), 0) == Some(im.img_type));
            assert(decode_balloon(n)->Ok_0 =~~= b);
        },
    }
}

proof fn lemma_decode_balloon_trees(bs: Seq<BalloonView>, nodes: Seq<XmlNodeView>, k: int)
    requires
        nodes.len() == bs.len(),
        0 <= k <= bs.len(),
        forall|i: int| 0 <= i < bs.len() ==> #[trigger] nodes[i] == balloon_tree(bs[i]),
        forall|i: int| 0 <= i < bs.len() ==> balloon_clean(#[trigger] bs[i]),
    ensures
        decode_balloons(nodes, k) == Ok::<Seq<BalloonView>, crate::SffErrorView>(
            bs.subrange(k, bs.len() as int),
        ),
    decreases bs.len() - k,
{
    if k == bs.len() {
        assert(bs.subrange(k, bs.len() as int) =~= Seq::<BalloonView>::empty());
    } else {
        lemma_decode_balloon_tree(bs[k]);
        lemma_decode_balloon_trees(bs, nodes, k + 1);
        assert(seq![bs[k]] + bs.subrange(k + 1, bs.len() as int) =~= bs.subrange(
            k,
            bs.len() as int,
        ));
    }
}

/// ROUND TRIP (XML): decoding the XML rendering of any clean document
/// reproduces that document exactly, so re-rendering it gives the same
/// string character for character.
///
/// "Clean" (see [`doc_clean`]) asks that no text of the document opens a
/// tag — the format does no entity escaping, so a line such as `"</TL>"`
/// cannot survive — and holds of the image bytes exactly what the base64
/// encoder guarantees of everything it encodes.
pub proof fn lemma_xml_round_trip(d: crate::DocumentView)
    requires
        doc_clean(d),
    ensures
        xml_decode_spec(doc_xml(d)) == Ok::<crate::DocumentView, crate::SffErrorView>(d),
        doc_xml(xml_decode_spec(doc_xml(d))->Ok_0) == doc_xml(d),
{
    let root = doc_tree(d);
    let md = metadata_node(d);
    let bn = balloons_node(d);
    lemma_doc_tree_wf(d);
    crate::xml::lemma_parse_root_ser(root);
    assert(crate::xml::parse_root(doc_xml(d)) == Some(root));
    // the first descendant named Metadata is the metadata block
    assert(document_tag() != metadata_tag()) by {
        assert(document_tag()[0] == 'D' && metadata_tag()[0] == 'M');
    }
    assert(find_descendant(md, metadata_tag()) == Some(md));
    assert(find_desc_in(root.children, metadata_tag(), 0) == Some(md));
    assert(find_descendant(root, metadata_tag()) == Some(md));
    // the first descendant named Balloons is the balloon list: neither
    // the root, nor the metadata block, nor any of its leaves carries
    // that name
    assert(document_tag() != balloons_tag());
    assert(metadata_tag() != balloons_tag()) by {
        assert(metadata_tag()[0] == 'M' && balloons_tag()[0] == 'B');
    }
    assert forall|i: int| 0 <= i < md.children.len() implies (#[trigger] md.children[i]).name
        != balloons_tag() && md.children[i].children.len() == 0 by {
        assert(tl_length_tag()[0] == 'T' && pr_length_tag()[0] == 'P' && cm_length_tag()[0] == 'C'
            && balloons_tag()[0] == 'B');
    }
    lemma_find_desc_in_leaves(md.children, balloons_tag(), 0);
    assert(find_descendant(md, balloons_tag()) is None);
    assert(find_descendant(bn, balloons_tag()) == Some(bn));
    assert(find_desc_in(root.children, balloons_tag(), 1) == Some(bn));
    assert(find_desc_in(root.children, balloons_tag(), 0) == Some(bn));
    assert(find_descendant(root, balloons_tag()) == Some(bn));
    // the metadata strings come back from the first three leaves
    assert(script_tag() != app_tag() && script_tag() != info_tag() && app_tag() != info_tag());
    assert(find_child(md.children, script_tag(), 0) == Some(
        leaf_node(script_tag(), d.script_version),
    ));
    assert(find_child(md.children, app_tag(), 0) == find_child(md.children, app_tag(), 1));
    assert(find_child(md.children, app_tag(), 1) == Some(leaf_node(app_tag(), d.app_version)));
    assert(find_child(md.children, info_tag(), 0) == find_child(md.children, info_tag(), 1));
    assert(find_child(md.children, info_tag(), 1) == find_child(md.children, info_tag(), 2));
    assert(find_child(md.children, info_tag(), 2) == Some(leaf_node(info_tag(), d.info)));
    // the balloons come back one for one
    assert forall|i: int| 0 <= i < d.balloons.len() implies #[trigger] bn.children[i]
        == balloon_tree(d.balloons[i]) by {}
    lemma_decode_balloon_trees(d.balloons, bn.children, 0);
    assert(d.balloons.subrange(0, d.balloons.len() as int) =~= d.balloons);
    assert(xml_decode_spec(doc_xml(d))->Ok_0 =~~= d);
}

/// The models of the balloons in `v`, in order.
pub open spec fn balloon_views(v: Seq<Balloon>) -> Seq<BalloonView> {
    Seq::new(v.len(), |i: int| v[i]@)
}

fn find_child_exec<'a>(cs: &'a Vec<XmlNode>, name: &str) -> (r: Option<&'a XmlNode>)
    ensures
        match r {
            Some(c) => find_child(crate::xml::nodes_view(cs@), name@, 0) == Some(c@),
            None => find_child(crate::xml::nodes_view(cs@), name@, 0) is None,
        },
{
    let ghost cv = crate::xml::nodes_view(cs@);
    let mut i: usize = 0;
    while i < cs.len()
        invariant
            0 <= i <= cs.len(),
            cv == crate::xml::nodes_view(cs@),
            cv.len() == cs.len(),
            find_child(cv, name@, 0) == find_child(cv, name@, i as int),
        decreases cs.len() - i,
    {
        proof {
            assert(cv[i as int] == cs@[i as int]@);
        }
        if crate::strutil::str_eq(cs[i].name.as_str(), name) {
            return Some(&cs[i]);
        }
        i = i + 1;
    }
    None
}

fn attr_value_exec<'a>(attrs: &'a Vec<XmlAttr>, name: &str) -> (r: Option<&'a String>)
    ensures
        match r {
            Some(v) => attr_value(crate::xml::attrs_view(attrs@), name@, 0) == Some(v@),
            None => attr_value(crate::xml::attrs_view(attrs@), name@, 0) is None,
        },
{
    let ghost av = crate::xml::attrs_view(attrs@);
    let mut i: usize = 0;
    while i < attrs.len()
        invariant
            0 <= i <= attrs.len(),
            av == crate::xml::attrs_view(attrs@),
            av.len() == attrs.len(),
            attr_value(av, name@, 0) == attr_value(av, name@, i as int),
        decreases attrs.len() - i,
    {
        proof {
            assert(av[i as int] == attrs@[i as int]@);
        }
        if crate::strutil::str_eq(attrs[i].name.as_str(), name) {
            return Some(&attrs[i].value);
        }
        i = i + 1;
    }
    None
}

fn find_descendant_exec<'a>(n: &'a XmlNode, name: &str) -> (r: Option<&'a XmlNode>)
    ensures
        match r {
            Some(c) => find_descendant(n@, name@) == Some(c@),
            None => find_descendant(n@, name@) is None,
        },
    decreases n,
{
    if crate::strutil::str_eq(n.name.as_str(), name) {
        return Some(n);
    }
    let ghost cv = n@.children;
    let mut i: usize = 0;
    while i < n.children.len()
        invariant
            0 <= i <= n.children.len(),
            cv == n@.children,
            cv.len() == n.children.len(),
            n@.name != name@,
            find_desc_in(cv, name@, 0) == find_desc_in(cv, name@, i as int),
        decreases n.children.len() - i,
    {
        proof {
            assert(cv[i as int] == n.children@[i as int]@);
            assert(decreases_to!(*n => n.children));
            assert(decreases_to!(n.children => n.children@));
        }
        match find_descendant_exec(&n.children[i], name) {
            Some(c) => {
                return Some(c);
            },
            None => {},
        }
        i = i + 1;
    }
    None
}

fn collect_texts_exec(cs: &Vec<XmlNode>, name: &str) -> (r: Vec<String>)
    ensures
        r.deep_view() == collect_texts(crate::xml::nodes_view(cs@), name@, 0),
{
    let ghost cv = crate::xml::nodes_view(cs@);
    let mut out: Vec<String> = Vec::new();
    let mut i: usize = 0;
    proof {
        assert(out.deep_view() =~= Seq::<Seq<char>>::empty());
    }
    while i < cs.len()
        invariant
            0 <= i <= cs.len(),
            cv == crate::xml::nodes_view(cs@),
            cv.len() == cs.len(),
            out.deep_view() + collect_texts(cv, name@, i as int) == collect_texts(cv, name@, 0),
        decreases cs.len() - i,
    {
        proof {
            assert(cv[i as int] == cs@[i as int]@);
        }
        let ghost before = out.deep_view();
        if crate::strutil::str_eq(cs[i].name.as_str(), name) {
            out.push(cs[i].text.clone());
            proof {
                assert(out.deep_view() =~= before + seq![cv[i as int].text]);
                assert(collect_texts(cv, name@, i as int) == seq![cv[i as int].text]
                    + collect_texts(cv, name@, i + 1));
                assert(out.deep_view() + collect_texts(cv, name@, i + 1) =~= collect_texts(
                    cv,
                    name@,
                    0,
                ));
            }
        }
        i = i + 1;
    }
    out
}

fn decode_balloon_exec(n: &XmlNode) -> (r: Result<Balloon, crate::SffError>)
    ensures
        match r {
            Ok(b) => decode_balloon(n@) == Ok::<BalloonView, crate::SffErrorView>(b@),
            Err(e) => decode_balloon(n@) == Err::<BalloonView, crate::SffErrorView>(e@),
        },
{
    proof {
        reveal_strlit("type");
        reveal_strlit("TL");
        reveal_strlit("PR");
        reveal_strlit("Comment");
        reveal_strlit("img");
        assert("type"@ =~= type_attr_name());
        assert("TL"@ =~= tl_tag());
        assert("PR"@ =~= pr_tag());
        assert("Comment"@ =~= comment_tag());
        assert("img"@ =~= img_tag());
        assert(n@.attrs =~= crate::xml::attrs_view(n.attrs@));
        assert(n@.children =~= crate::xml::nodes_view(n.children@));
    }
    let btype = match attr_value_exec(&n.attrs, "type") {
        Some(v) => crate::consts::attr_type_exec(v.as_str()),
        None => TYPES::DIALOGUE,
    };
    let tl = collect_texts_exec(&n.children, "TL");
    let pr = collect_texts_exec(&n.children, "PR");
    let cm = collect_texts_exec(&n.children, "Comment");
    match find_child_exec(&n.children, "img") {
        None => {
            let b = Balloon {
                tl_content: tl,
                pr_content: pr,
                comments: cm,
                btype,
                balloon_img: None,
            };
            proof {
                assert(b@ =~~= decode_balloon(n@)->Ok_0);
            }
            Ok(b)
        },
        Some(im) => {
            proof {
                assert(im@.attrs =~= crate::xml::attrs_view(im.attrs@));
            }
            match crate::b64::b64_decode(im.text.as_str()) {
                None => Err(crate::SffError::InvalidImageEncoding),
                Some(bytes) => {
                    let kind = match attr_value_exec(&im.attrs, "type") {
                        Some(v) => v.clone(),
                        None => String::new(),
                    };
                    let b = Balloon {
                        tl_content: tl,
                        pr_content: pr,
                        comments: cm,
                        btype,
                        balloon_img: Some(BalloonImage { img_type: kind, img_data: bytes }),
                    };
                    proof {
                        assert(b@ =~~= decode_balloon(n@)->Ok_0);
                    }
                    Ok(b)
                },
            }
        },
    }
}

fn decode_balloons_exec(cs: &Vec<XmlNode>, i: usize) -> (r: Result<Vec<Balloon>, crate::SffError>)
    requires
        i <= cs.len(),
    ensures
        match r {
            Ok(v) => decode_balloons(crate::xml::nodes_view(cs@), i as int) == Ok::<
                Seq<BalloonView>,
                crate::SffErrorView,
            >(balloon_views(v@)),
            Err(e) => decode_balloons(crate::xml::nodes_view(cs@), i as int) == Err::<
                Seq<BalloonView>,
                crate::SffErrorView,
            >(e@),
        },
    decreases cs.len() - i,
{
    let ghost cv = crate::xml::nodes_view(cs@);
    if i >= cs.len() {
        let r: Vec<Balloon> = Vec::new();
        proof {
            assert(balloon_views(r@) =~= Seq::<BalloonView>::empty());
        }
        return Ok(r);
    }
    proof {
        assert(cv[i as int] == cs@[i as int]@);
    }
    match decode_balloon_exec(&cs[i]) {
        Err(e) => Err(e),
        Ok(b) => {
            match decode_balloons_exec(cs, i + 1) {
                Err(e) => Err(e),
                Ok(mut v) => {
                    let ghost rest = balloon_views(v@);
                    v.insert(0, b);
                    proof {
                        assert(balloon_views(v@) =~= seq![b@] + rest);
                    }
                    Ok(v)
                },
            }
        },
    }
}

/// Reads a whole document back from an XML string.
pub fn xml_decode(s: &str) -> (r: Result<crate::Document, crate::SffError>)
    ensures
        match r {
            Ok(d) => xml_decode_spec(s@) == Ok::<crate::DocumentView, crate::SffErrorView>(d@),
            Err(e) => xml_decode_spec(s@) == Err::<crate::DocumentView, crate::SffErrorView>(e@),
        },
{
    proof {
        reveal_strlit("Metadata");
        reveal_strlit("Balloons");
        reveal_strlit("Script");
        reveal_strlit("App");
        reveal_strlit("Info");
        assert("Metadata"@ =~= metadata_tag());
        assert("Balloons"@ =~= balloons_tag());
        assert("Script"@ =~= script_tag());
        assert("App"@ =~= app_tag());
        assert("Info"@ =~= info_tag());
    }
    let root = match crate::xml::parse_root_exec(s) {
        None => {
            return Err(crate::SffError::MalformedXml);
        },
        Some(n) => n,
    };
    let md = match find_descendant_exec(&root, "Metadata") {
        None => {
            return Err(crate::SffError::MissingSection(String::from_str("Metadata")));
        },
        Some(m) => m,
    };
    proof {
        assert(md@.children =~= crate::xml::nodes_view(md.children@));
    }
    let script = match find_child_exec(&md.children, "Script") {
        Some(c) => c.text.clone(),
        None => String::new(),
    };
    let app = match find_child_exec(&md.children, "App") {
        Some(c) => c.text.clone(),
        None => String::new(),
    };
    let info = match find_child_exec(&md.children, "Info") {
        Some(c) => c.text.clone(),
        None => String::new(),
    };
    let bs = match find_descendant_exec(&root, "Balloons") {
        None => {
            return Err(crate::SffError::MissingSection(String::from_str("Balloons")));
        },
        Some(b) => b,
    };
    proof {
        assert(bs@.children =~= crate::xml::nodes_view(bs.children@));
    }
    match decode_balloons_exec(&bs.children, 0) {
        Err(e) => Err(e),
        Ok(balloons) => {
            let d = crate::Document {
                METADATA_SCRIPT_VERSION: script,
                METADATA_APP_VERSION: app,
                METADATA_INFO: info,
                balloons,
            };
            proof {
                assert(d@.balloons =~= balloon_views(d.balloons@));
                assert(d@ =~~= xml_decode_spec(s@)->Ok_0);
            }
            Ok(d)
        },
    }
}

/// Builds the element tree of a whole document. The five metric fields
/// are computed at render time, never cached.
pub fn doc_to_node(d: &crate::Document) -> (r: XmlNode)
    requires
        crate::doc_tl_total(d@.balloons, 0) <= usize::MAX,
        crate::doc_pr_total(d@.balloons, 0) <= usize::MAX,
        crate::doc_cm_total(d@.balloons, 0) <= usize::MAX,
        crate::doc_line_total(d@.balloons, 0) <= usize::MAX,
    ensures
        r@ == doc_tree(d@),
{
    let ghost dv = d@;
    proof {
        reveal_strlit("Document");
        reveal_strlit("Metadata");
        reveal_strlit("Script");
        reveal_strlit("App");
        reveal_strlit("Info");
        reveal_strlit("TLLength");
        reveal_strlit("PRLength");
        reveal_strlit("CMLength");
        reveal_strlit("BalloonCount");
        reveal_strlit("LineCount");
        reveal_strlit("Balloons");
        assert("Document"@ =~= document_tag());
        assert("Metadata"@ =~= metadata_tag());
        assert("Script"@ =~= script_tag());
        assert("App"@ =~= app_tag());
        assert("Info"@ =~= info_tag());
        assert("TLLength"@ =~= tl_length_tag());
        assert("PRLength"@ =~= pr_length_tag());
        assert("CMLength"@ =~= cm_length_tag());
        assert("BalloonCount"@ =~= balloon_count_tag());
        assert("LineCount"@ =~= line_count_tag());
        assert("Balloons"@ =~= balloons_tag());
    }
    let mut mdc: Vec<XmlNode> = Vec::new();
    mdc.push(make_leaf("Script", d.METADATA_SCRIPT_VERSION.clone()));
    mdc.push(make_leaf("App", d.METADATA_APP_VERSION.clone()));
    mdc.push(make_leaf("Info", d.METADATA_INFO.clone()));
    mdc.push(make_leaf("TLLength", crate::strutil::usize_to_decimal(d.tl_chars())));
    mdc.push(make_leaf("PRLength", crate::strutil::usize_to_decimal(d.pr_chars())));
    mdc.push(make_leaf("CMLength", crate::strutil::usize_to_decimal(d.comment_chars())));
    mdc.push(make_leaf("BalloonCount", crate::strutil::usize_to_decimal(d.len())));
    mdc.push(make_leaf("LineCount", crate::strutil::usize_to_decimal(d.line_count())));
    let md = XmlNode {
        name: String::from_str("Metadata"),
        attrs: Vec::new(),
        children: mdc,
        text: String::new(),
    };
    proof {
        assert(md@.attrs =~= Seq::<(Seq<char>, Seq<char>)>::empty());
        assert(md@.children =~= metadata_node(dv).children);
        assert(md@ =~~= metadata_node(dv));
    }
    let mut bsc: Vec<XmlNode> = Vec::new();
    let mut k: usize = 0;
    while k < d.balloons.len()
        invariant
            0 <= k <= d.balloons.len(),
            dv == d@,
            dv.balloons.len() == d.balloons.len(),
            bsc@.len() == k,
            forall|i: int| 0 <= i < k ==> crate::xml::node_view(#[trigger] bsc@[i]) == balloon_tree(
                dv.balloons[i],
            ),
        decreases d.balloons.len() - k,
    {
        proof {
            assert(dv.balloons[k as int] == d.balloons@[k as int]@);
        }
        let bn = balloon_to_node(&d.balloons[k]);
        bsc.push(bn);
        k = k + 1;
    }
    let bn = XmlNode {
        name: String::from_str("Balloons"),
        attrs: Vec::new(),
        children: bsc,
        text: String::new(),
    };
    proof {
        assert(bn@.attrs =~= Seq::<(Seq<char>, Seq<char>)>::empty());
        assert(bn@.children =~= balloons_node(dv).children);
        assert(bn@ =~~= balloons_node(dv));
    }
    let root = XmlNode {
        name: String::from_str("Document"),
        attrs: Vec::new(),
        children: vec![md, bn],
        text: String::new(),
    };
    proof {
        assert(root@.attrs =~= Seq::<(Seq<char>, Seq<char>)>::empty());
        assert(root@.children =~= doc_tree(dv).children);
        assert(root@ =~~= doc_tree(dv));
    }
    root
}

/// Builds the leaf element `<name>text</name>`.
fn make_leaf(name: &str, text: String) -> (r: XmlNode)
    ensures
        r@ == leaf_node(name@, text@),
{
    let r = XmlNode { name: String::from_str(name), attrs: Vec::new(), children: Vec::new(), text };
    proof {
        assert(r@.attrs =~= Seq::<(Seq<char>, Seq<char>)>::empty());
        assert(r@.children =~= Seq::<XmlNodeView>::empty());
        assert(r@ =~~= leaf_node(name@, r.text@));
    }
    r
}

/// Builds the element tree of one balloon.
pub fn balloon_to_node(b: &Balloon) -> (r: XmlNode)
    ensures
        r@ == balloon_tree(b@),
{
    let ghost bv = b@;
    let ghost t = bv.tl.len() as int;
    let ghost p = bv.pr.len() as int;
    let ghost c = bv.cm.len() as int;
    proof {
        reveal_strlit("TL");
        reveal_strlit("PR");
        reveal_strlit("Comment");
        reveal_strlit("img");
        reveal_strlit("type");
        reveal_strlit("Balloon");
        assert("TL"@ =~= tl_tag());
        assert("PR"@ =~= pr_tag());
        assert("Comment"@ =~= comment_tag());
        assert("img"@ =~= img_tag());
        assert("type"@ =~= type_attr_name());
        assert("Balloon"@ =~= balloon_tag());
    }
    let mut children: Vec<XmlNode> = Vec::new();
    let mut k: usize = 0;
    while k < b.tl_content.len()
        invariant
            0 <= k <= b.tl_content.len(),
            bv == b@,
            bv.tl.len() == b.tl_content.len(),
            "TL"@ == tl_tag(),
            children@.len() == k,
            forall|i: int| 0 <= i < k ==> crate::xml::node_view(#[trigger] children@[i])
                == leaf_node(tl_tag(), bv.tl[i]),
        decreases b.tl_content.len() - k,
    {
        proof {
            assert(bv.tl[k as int] == b.tl_content@[k as int]@);
        }
        let leaf = make_leaf("TL", b.tl_content[k].clone());
        children.push(leaf);
        k = k + 1;
    }
    let mut k: usize = 0;
    while k < b.pr_content.len()
        invariant
            0 <= k <= b.pr_content.len(),
            bv == b@,
            bv.tl.len() == t,
            bv.pr.len() == b.pr_content.len(),
            "PR"@ == pr_tag(),
            children@.len() == t + k,
            forall|i: int| 0 <= i < t ==> crate::xml::node_view(#[trigger] children@[i])
                == leaf_node(tl_tag(), bv.tl[i]),
            forall|i: int| t <= i < t + k ==> crate::xml::node_view(#[trigger] children@[i])
                == leaf_node(pr_tag(), bv.pr[i - t]),
        decreases b.pr_content.len() - k,
    {
        proof {
            assert(bv.pr[k as int] == b.pr_content@[k as int]@);
        }
        let leaf = make_leaf("PR", b.pr_content[k].clone());
        children.push(leaf);
        k = k + 1;
    }
    let mut k: usize = 0;
    while k < b.comments.len()
        invariant
            0 <= k <= b.comments.len(),
            bv == b@,
            bv.tl.len() == t,
            bv.pr.len() == p,
            bv.cm.len() == b.comments.len(),
            "Comment"@ == comment_tag(),
            children@.len() == t + p + k,
            forall|i: int| 0 <= i < t ==> crate::xml::node_view(#[trigger] children@[i])
                == leaf_node(tl_tag(), bv.tl[i]),
            forall|i: int| t <= i < t + p ==> crate::xml::node_view(#[trigger] children@[i])
                == leaf_node(pr_tag(), bv.pr[i - t]),
            forall|i: int| t + p <= i < t + p + k ==> crate::xml::node_view(
                #[trigger] children@[i],
            ) == leaf_node(comment_tag(), bv.cm[i - t - p]),
        decreases b.comments.len() - k,
    {
        proof {
            assert(bv.cm[k as int] == b.comments@[k as int]@);
        }
        let leaf = make_leaf("Comment", b.comments[k].clone());
        children.push(leaf);
        k = k + 1;
    }
    match &b.balloon_img {
        Some(im) => {
            let encoded = crate::b64::b64_encode(im.img_data.as_slice());
            let img = XmlNode {
                name: String::from_str("img"),
                attrs: vec![XmlAttr { name: String::from_str("type"), value: im.img_type.clone() }],
                children: Vec::new(),
                text: encoded,
            };
            proof {
                assert(img@.attrs =~= seq![(type_attr_name(), im.img_type@)]);
                assert(img@.children =~= Seq::<XmlNodeView>::empty());
                assert(img@ =~~= img_node(im@));
            }
            children.push(img);
        },
        None => {},
    }
    let battr = XmlAttr {
        name: String::from_str("type"),
        value: String::from_str(crate::consts::type_attr_str(b.btype)),
    };
    let node = XmlNode {
        name: String::from_str("Balloon"),
        attrs: vec![battr],
        children,
        text: String::new(),
    };
    proof {
        assert(node@.attrs =~= seq![(type_attr_name(), type_attr(bv.btype))]);
        assert(node@.children =~= balloon_children(bv)) by {
            let cs = balloon_children(bv);
            assert(node@.children.len() == cs.len());
            assert forall|j: int| 0 <= j < cs.len() implies node@.children[j] == cs[j] by {
                if j < t {
                    assert(cs[j] == leaf_node(tl_tag(), bv.tl[j]));
                } else if j < t + p {
                    assert(cs[j] == leaf_node(pr_tag(), bv.pr[j - t]));
                } else if j < t + p + c {
                    assert(cs[j] == leaf_node(comment_tag(), bv.cm[j - t - p]));
                } else {
                    assert(cs[j] == img_node(bv.img->0));
                }
            }
        }
        assert(node@ =~~= balloon_tree(bv));
    }
    node
}

} // verus!

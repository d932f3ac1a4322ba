//! # rsff
//!
//! `rsff` (scanlation file format) is the core library of an application
//! designed to facilitate the work of teams translating content such as
//! manga, manhwa, manhua and webtoons.
//!
//! A [`Document`] owns an ordered list of [`balloon::Balloon`]s plus
//! script/app/info metadata. It renders to a canonical XML form
//! (lossless), to a zlib-compressed variant of the same XML, or to a
//! human-readable plain-text form (lossy), and each form parses back.

use vstd::prelude::*;
use vstd::string::StringExecFns;
use vstd::utf8::{decode_utf8, encode_utf8, valid_utf8};

pub mod b64;
pub mod balloon;
pub mod codec;
pub mod consts;
pub mod strutil;
pub mod textcodec;
pub mod xml;
pub mod zlib;

use balloon::{balloon_line_count, balloon_plain, Balloon, BalloonView};
use strutil::lens_sum;

verus! {

/// What can go wrong while reading a stored document back.
///
/// Missing optional text nodes and unrecognized type attributes or
/// prefixes are NOT errors: they resolve to documented defaults.
#[derive(Debug, PartialEq)]
pub enum SffError {
    /// The input is not well-formed XML of this format.
    MalformedXml,
    /// A required `Metadata` or `Balloons` node is absent.
    MissingSection(String),
    /// The text of an `img` node is no base64 rendering.
    InvalidImageEncoding,
    /// The storage collaborator was given an unrecognized file suffix.
    UnsupportedExtension,
    /// The storage collaborator was given a nonexistent path.
    NotFound,
}

/// Mathematical model of a [`SffError`].
pub enum SffErrorView {
    MalformedXml,
    MissingSection(Seq<char>),
    InvalidImageEncoding,
    UnsupportedExtension,
    NotFound,
}

impl View for SffError {
    type V = SffErrorView;

    open spec fn view(&self) -> SffErrorView {
        match self {
            SffError::MalformedXml => SffErrorView::MalformedXml,
            SffError::MissingSection(s) => SffErrorView::MissingSection(s@),
            SffError::InvalidImageEncoding => SffErrorView::InvalidImageEncoding,
            SffError::UnsupportedExtension => SffErrorView::UnsupportedExtension,
            SffError::NotFound => SffErrorView::NotFound,
        }
    }
}

/// Mathematical model of a [`Document`].
#[verifier::ext_equal]
pub struct DocumentView {
    pub script_version: Seq<char>,
    pub app_version: Seq<char>,
    pub info: Seq<char>,
    pub balloons: Seq<BalloonView>,
}

/// A document containing all of your translation data.
#[allow(non_snake_case)]
#[derive(Debug)]
pub struct Document {
    /// sff (Scanlation File Format) version. No big changes expected.
    pub METADATA_SCRIPT_VERSION: String,
    /// If you use this library for an app, it may come in handy to
    /// indicate your app's version.
    pub METADATA_APP_VERSION: String,
    /// Some other info you want to give/specify.
    pub METADATA_INFO: String,
    /// There are your balloons m8.
    pub balloons: Vec<Balloon>,
}

impl View for Document {
    type V = DocumentView;

    open spec fn view(&self) -> DocumentView {
        DocumentView {
            script_version: self.METADATA_SCRIPT_VERSION@,
            app_version: self.METADATA_APP_VERSION@,
            info: self.METADATA_INFO@,
            balloons: Seq::new(self.balloons@.len(), |i: int| self.balloons@[i]@),
        }
    }
}

/// Default value of the script version metadata field.
pub open spec fn default_script_version() -> Seq<char> {
    "Scanlation Script File v0.2.0"@
}

/// Default value of the info metadata field.
pub open spec fn default_info() -> Seq<char> {
    "Num"@
}

/// Total translation byte length of the balloons `bs[i..]`.
pub open spec fn doc_tl_total(bs: Seq<BalloonView>, i: int) -> int
    decreases bs.len() - i,
{
    if i < 0 || i >= bs.len() {
        0
    } else {
        lens_sum(bs[i].tl, 0) + doc_tl_total(bs, i + 1)
    }
}

/// Total proofread byte length of the balloons `bs[i..]`.
pub open spec fn doc_pr_total(bs: Seq<BalloonView>, i: int) -> int
    decreases bs.len() - i,
{
    if i < 0 || i >= bs.len() {
        0
    } else {
        lens_sum(bs[i].pr, 0) + doc_pr_total(bs, i + 1)
    }
}

/// Total comment byte length of the balloons `bs[i..]`.
pub open spec fn doc_cm_total(bs: Seq<BalloonView>, i: int) -> int
    decreases bs.len() - i,
{
    if i < 0 || i >= bs.len() {
        0
    } else {
        lens_sum(bs[i].cm, 0) + doc_cm_total(bs, i + 1)
    }
}

/// Total line count of the balloons `bs[i..]`.
pub open spec fn doc_line_total(bs: Seq<BalloonView>, i: int) -> int
    decreases bs.len() - i,
{
    if i < 0 || i >= bs.len() {
        0
    } else {
        balloon_line_count(bs[i]) + doc_line_total(bs, i + 1)
    }
}

pub proof fn lemma_doc_totals_nonneg(bs: Seq<BalloonView>, i: int)
    ensures
        doc_tl_total(bs, i) >= 0,
        doc_pr_total(bs, i) >= 0,
        doc_cm_total(bs, i) >= 0,
        doc_line_total(bs, i) >= 0,
    decreases bs.len() - i,
{
    if 0 <= i < bs.len() {
        lemma_doc_totals_nonneg(bs, i + 1);
        strutil::lemma_lens_sum_nonneg(bs[i].tl, 0);
        strutil::lemma_lens_sum_nonneg(bs[i].pr, 0);
        strutil::lemma_lens_sum_nonneg(bs[i].cm, 0);
    }
}

/// The separator between two balloons in the plain-text form.
pub open spec fn balloon_sep() -> Seq<char> {
    seq!['\n', '\n']
}

/// Plain-text rendering of a whole document: the balloons' plain texts
/// joined with a blank line. Lossy: metadata and images are dropped.
pub open spec fn doc_plain(bs: Seq<BalloonView>) -> Seq<char> {
    if bs.len() == 0 {
        Seq::empty()
    } else {
        balloon_plain(bs[0]) + doc_plain_tail(bs, 1)
    }
}

pub open spec fn doc_plain_tail(bs: Seq<BalloonView>, i: int) -> Seq<char>
    decreases bs.len() - i,
{
    if i < 1 || i >= bs.len() {
        Seq::empty()
    } else {
        balloon_sep() + balloon_plain(bs[i]) + doc_plain_tail(bs, i + 1)
    }
}

impl Default for Document {
    /// The empty document: default metadata, no balloons.
    fn default() -> (r: Self)
        ensures
            r@.script_version == default_script_version(),
            r@.app_version == Seq::<char>::empty(),
            r@.info == default_info(),
            r@.balloons == Seq::<BalloonView>::empty(),
    {
        let r = Document {
            METADATA_SCRIPT_VERSION: String::from_str("Scanlation Script File v0.2.0"),
            METADATA_APP_VERSION: String::new(),
            METADATA_INFO: String::from_str("Num"),
            balloons: Vec::new(),
        };
        proof {
            assert(r@.balloons =~= Seq::<BalloonView>::empty());
        }
        r
    }
}

impl Document {
    /// Total length of all translation content, in raw bytes of the
    /// encoded text. *(Spaces included.)*
    pub fn tl_chars(&self) -> (r: usize)
        requires
            doc_tl_total(self@.balloons, 0) <= usize::MAX,
        ensures
            r == doc_tl_total(self@.balloons, 0),
    {
        let ghost bs = self@.balloons;
        let mut acc: usize = 0;
        let mut k: usize = 0;
        proof {
            lemma_doc_totals_nonneg(bs, 0);
        }
        while k < self.balloons.len()
            invariant
                0 <= k <= self.balloons.len(),
                bs == self@.balloons,
                bs.len() == self.balloons.len(),
                acc + doc_tl_total(bs, k as int) == doc_tl_total(bs, 0),
                doc_tl_total(bs, 0) <= usize::MAX,
            decreases self.balloons.len() - k,
        {
            proof {
                lemma_doc_totals_nonneg(bs, k + 1);
                strutil::lemma_lens_sum_nonneg(bs[k as int].tl, 0);
                assert(bs[k as int] == self.balloons@[k as int]@);
            }
            let n = self.balloons[k].tl_chars();
            acc = acc + n;
            k = k + 1;
        }
        acc
    }

    /// Total length of all proofread content, in raw bytes of the
    /// encoded text. *(Spaces included.)*
    pub fn pr_chars(&self) -> (r: usize)
        requires
            doc_pr_total(self@.balloons, 0) <= usize::MAX,
        ensures
            r == doc_pr_total(self@.balloons, 0),
    {
        let ghost bs = self@.balloons;
        let mut acc: usize = 0;
        let mut k: usize = 0;
        proof {
            lemma_doc_totals_nonneg(bs, 0);
        }
        while k < self.balloons.len()
            invariant
                0 <= k <= self.balloons.len(),
                bs == self@.balloons,
                bs.len() == self.balloons.len(),
                acc + doc_pr_total(bs, k as int) == doc_pr_total(bs, 0),
                doc_pr_total(bs, 0) <= usize::MAX,
            decreases self.balloons.len() - k,
        {
            proof {
                lemma_doc_totals_nonneg(bs, k + 1);
                strutil::lemma_lens_sum_nonneg(bs[k as int].pr, 0);
                assert(bs[k as int] == self.balloons@[k as int]@);
            }
            let n = self.balloons[k].pr_chars();
            acc = acc + n;
            k = k + 1;
        }
        acc
    }

    /// Total length of all comments, in raw bytes of the encoded text.
    /// *(Spaces included.)*
    pub fn comment_chars(&self) -> (r: usize)
        requires
            doc_cm_total(self@.balloons, 0) <= usize::MAX,
        ensures
            r == doc_cm_total(self@.balloons, 0),
    {
        let ghost bs = self@.balloons;
        let mut acc: usize = 0;
        let mut k: usize = 0;
        proof {
            lemma_doc_totals_nonneg(bs, 0);
        }
        while k < self.balloons.len()
            invariant
                0 <= k <= self.balloons.len(),
                bs == self@.balloons,
                bs.len() == self.balloons.len(),
                acc + doc_cm_total(bs, k as int) == doc_cm_total(bs, 0),
                doc_cm_total(bs, 0) <= usize::MAX,
            decreases self.balloons.len() - k,
        {
            proof {
                lemma_doc_totals_nonneg(bs, k + 1);
                strutil::lemma_lens_sum_nonneg(bs[k as int].cm, 0);
                assert(bs[k as int] == self.balloons@[k as int]@);
            }
            let n = self.balloons[k].comments_chars();
            acc = acc + n;
            k = k + 1;
        }
        acc
    }

    /// Total line count of the whole document.
    /// Counts proofread content lines where a balloon has proofread
    /// content, otherwise counts its translation content lines.
    pub fn line_count(&self) -> (r: usize)
        requires
            doc_line_total(self@.balloons, 0) <= usize::MAX,
        ensures
            r == doc_line_total(self@.balloons, 0),
    {
        let ghost bs = self@.balloons;
        let mut acc: usize = 0;
        let mut k: usize = 0;
        proof {
            lemma_doc_totals_nonneg(bs, 0);
        }
        while k < self.balloons.len()
            invariant
                0 <= k <= self.balloons.len(),
                bs == self@.balloons,
                bs.len() == self.balloons.len(),
                acc + doc_line_total(bs, k as int) == doc_line_total(bs, 0),
                doc_line_total(bs, 0) <= usize::MAX,
            decreases self.balloons.len() - k,
        {
            proof {
                lemma_doc_totals_nonneg(bs, k + 1);
                assert(bs[k as int] == self.balloons@[k as int]@);
            }
            let n = self.balloons[k].line_count();
            acc = acc + n;
            k = k + 1;
        }
        acc
    }

    /// Total balloon count.
    pub fn len(&self) -> (r: usize)
        ensures
            r == self@.balloons.len(),
    {
        self.balloons.len()
    }

    /// Generates an XML string of the document. No data loss, so you can
    /// use this whenever you want.
    ///
    /// **Note:** Raw image data will be converted to a base64 encoded
    /// string.
    pub fn to_xml(&self) -> (r: String)
        requires
            doc_tl_total(self@.balloons, 0) <= usize::MAX,
            doc_pr_total(self@.balloons, 0) <= usize::MAX,
            doc_cm_total(self@.balloons, 0) <= usize::MAX,
            doc_line_total(self@.balloons, 0) <= usize::MAX,
        ensures
            r@ == codec::doc_xml(self@),
    {
        let node = codec::doc_to_node(self);
        xml::xml_node_to_string(&node)
    }

    /// Generates a document from an XML string.
    ///
    /// The accepted language is the format's XML: an optional leading
    /// XML declaration, whitespace between tags, and self-closing tags
    /// are all read; text content is taken verbatim (no entity
    /// decoding), and comments or text mixed between elements are not
    /// read. A missing `Metadata` or `Balloons` node and malformed input
    /// are errors; a missing metadata text, a missing or unknown `type`
    /// attribute, and the stored metric fields are not: the first two
    /// resolve to documented defaults, the metrics are recomputed.
    pub fn xml_to_doc(&mut self, xml: String) -> (r: Result<Document, SffError>)
        ensures
            *final(self) == *old(self),
            match r {
                Ok(d) => codec::xml_decode_spec(xml@) == Ok::<DocumentView, SffErrorView>(d@),
                Err(e) => codec::xml_decode_spec(xml@) == Err::<DocumentView, SffErrorView>(e@),
            },
    {
        codec::xml_decode(xml.as_str())
    }

    /// Generates the zlib-compressed XML bytes of the document. The
    /// compressed form decompresses to byte-identical XML.
    pub fn to_zlib(&self) -> (r: Vec<u8>)
        requires
            doc_tl_total(self@.balloons, 0) <= usize::MAX,
            doc_pr_total(self@.balloons, 0) <= usize::MAX,
            doc_cm_total(self@.balloons, 0) <= usize::MAX,
            doc_line_total(self@.balloons, 0) <= usize::MAX,
        ensures
            r@ == zlib::zlib_of(encode_utf8(codec::doc_xml(self@))),
            zlib::unzlib_of(r@) == Some(encode_utf8(codec::doc_xml(self@))),
    {
        let xml = self.to_xml();
        zlib::zlib_compress(xml.as_str().as_bytes())
    }

    /// Generates a document from zlib-compressed XML bytes: decompress,
    /// then parse as [`Self::xml_to_doc`] does, with the same accepted
    /// language. A stream that does not decompress to UTF-8 XML of the
    /// format is malformed.
    pub fn zlib_to_doc(&mut self, data: &[u8]) -> (r: Result<Document, SffError>)
        ensures
            *final(self) == *old(self),
            match r {
                Ok(d) => zlib_decode_spec(data@) == Ok::<DocumentView, SffErrorView>(d@),
                Err(e) => zlib_decode_spec(data@) == Err::<DocumentView, SffErrorView>(e@),
            },
    {
        let bytes = match zlib::zlib_decompress(data) {
            None => {
                return Err(SffError::MalformedXml);
            },
            Some(b) => b,
        };
        let xml = match zlib::string_from_utf8(bytes) {
            None => {
                return Err(SffError::MalformedXml);
            },
            Some(s) => s,
        };
        codec::xml_decode(xml.as_str())
    }

    /// Generates a document from lossy plain text. The heuristic parser
    /// never fails structurally: at worst the document does not
    /// faithfully represent the text.
    pub fn txt_to_doc(&self, txt: String) -> (r: Result<Document, SffError>)
        ensures
            r is Ok,
            r->Ok_0@ == textcodec::txt_decode_spec(txt@),
    {
        let balloons = textcodec::txt_parse(txt.as_str());
        let d = Document {
            METADATA_SCRIPT_VERSION: String::from_str("Scanlation Script File v0.2.0"),
            METADATA_APP_VERSION: String::new(),
            METADATA_INFO: String::from_str("Num"),
            balloons,
        };
        proof {
            assert(d@.balloons =~= codec::balloon_views(d.balloons@));
            assert(d@ =~~= textcodec::txt_decode_spec(txt@));
        }
        Ok(d)
    }

    /// Generates the stringified version of the document.
    /// Use this with caution because of data loss.
    ///
    /// **IMPORTANT NOTE:** ***Metadata and balloon_img are lost during the
    /// creation of the text!***
    pub fn to_string(&self) -> (r: String)
        ensures
            r@ == doc_plain(self@.balloons),
    {
        let ghost bs = self@.balloons;
        proof {
            reveal_strlit("\n\n");
            assert("\n\n"@ =~= balloon_sep());
        }
        let mut s = String::new();
        let mut k: usize = 0;
        while k < self.balloons.len()
            invariant
                0 <= k <= self.balloons.len(),
                bs == self@.balloons,
                bs.len() == self.balloons.len(),
                "\n\n"@ == balloon_sep(),
                k == 0 ==> s@ == Seq::<char>::empty(),
                k >= 1 ==> s@ + doc_plain_tail(bs, k as int) == doc_plain(bs),
            decreases self.balloons.len() - k,
        {
            proof {
                assert(bs[k as int] == self.balloons@[k as int]@);
            }
            if k > 0 {
                s.append("\n\n");
            }
            let t = self.balloons[k].to_string();
            s.append(t.as_str());
            k = k + 1;
            proof {
                if k == 1 {
                    assert(s@ == balloon_plain(bs[0]));
                    assert(s@ + doc_plain_tail(bs, 1) =~= doc_plain(bs));
                } else {
                    assert(doc_plain_tail(bs, k - 1) == balloon_sep() + balloon_plain(bs[k - 1])
                        + doc_plain_tail(bs, k as int));
                    assert(s@ + doc_plain_tail(bs, k as int) =~= doc_plain(bs));
                }
            }
        }
        s
    }
}

/// The document read back from a zlib-compressed XML stream.
pub open spec fn zlib_decode_spec(b: Seq<u8>) -> Result<DocumentView, SffErrorView> {
    match zlib::unzlib_of(b) {
        None => Err(SffErrorView::MalformedXml),
        Some(bytes) => if !valid_utf8(bytes) {
            Err(SffErrorView::MalformedXml)
        } else {
            codec::xml_decode_spec(decode_utf8(bytes))
        },
    }
}

/// IDEMPOTENCE: the XML rendering is a pure function of the document
/// value; two renderings of an unmodified document are identical
/// character for character.
pub proof fn lemma_render_xml_pure(d1: DocumentView, d2: DocumentView)
    requires
        d1 == d2,
    ensures
        codec::doc_xml(d1) == codec::doc_xml(d2),
{
}

/// ROUND TRIP (compressed XML): the compressed form of a clean document
/// decompresses to byte-identical XML and decodes to that document. The
/// premise on the XML bytes holds of everything the compressor is handed
/// (see [`zlib::zlib_round_trip`]).
pub proof fn lemma_zlib_round_trip(d: DocumentView)
    requires
        codec::doc_clean(d),
        zlib::zlib_round_trip(encode_utf8(codec::doc_xml(d))),
    ensures
        zlib_decode_spec(zlib::zlib_of(encode_utf8(codec::doc_xml(d)))) == Ok::<
            DocumentView,
            SffErrorView,
        >(d),
{
    let bytes = encode_utf8(codec::doc_xml(d));
    vstd::utf8::encode_utf8_valid_utf8(codec::doc_xml(d));
    vstd::utf8::encode_utf8_decode_utf8(codec::doc_xml(d));
    codec::lemma_xml_round_trip(d);
}

} // verus!

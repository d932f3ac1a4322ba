//! The atomic content unit of a document: a balloon owns its translation,
//! proofread and comment lines, its kind, and an optional attached image.

use vstd::prelude::*;

use crate::consts::{type_prefix, TYPES};
use crate::strutil::{joined, lens_sum};

verus! {

/// A simple image container.
#[derive(Debug)]
pub struct BalloonImage {
    pub img_type: String,
    pub img_data: Vec<u8>,
}

/// Mathematical model of a [`BalloonImage`].
#[verifier::ext_equal]
pub struct BalloonImageView {
    pub img_type: Seq<char>,
    pub img_data: Seq<u8>,
}

impl View for BalloonImage {
    type V = BalloonImageView;

    open spec fn view(&self) -> BalloonImageView {
        BalloonImageView { img_type: self.img_type@, img_data: self.img_data@ }
    }
}

/// A struct that represents a balloon.
///
/// Contains translation and proofread contents, comments, and the balloon
/// image (if it has any). Must have a distinct type.
#[derive(Debug)]
pub struct Balloon {
    pub tl_content: Vec<String>,
    pub pr_content: Vec<String>,
    pub comments: Vec<String>,
    pub btype: TYPES,
    pub balloon_img: Option<BalloonImage>,
}

/// Mathematical model of a [`Balloon`].
#[verifier::ext_equal]
pub struct BalloonView {
    pub tl: Seq<Seq<char>>,
    pub pr: Seq<Seq<char>>,
    pub cm: Seq<Seq<char>>,
    pub btype: TYPES,
    pub img: Option<BalloonImageView>,
}

impl View for Balloon {
    type V = BalloonView;

    open spec fn view(&self) -> BalloonView {
        BalloonView {
            tl: self.tl_content.deep_view(),
            pr: self.pr_content.deep_view(),
            cm: self.comments.deep_view(),
            btype: self.btype,
            img: match self.balloon_img {
                Some(i) => Some(i@),
                None => None,
            },
        }
    }
}

/// The empty balloon: no lines, no image, kind `DIALOGUE`.
pub open spec fn empty_balloon() -> BalloonView {
    BalloonView {
        tl: Seq::empty(),
        pr: Seq::empty(),
        cm: Seq::empty(),
        btype: TYPES::DIALOGUE,
        img: None,
    }
}

/// The separator between the lines of one balloon in the plain-text form.
pub open spec fn line_sep() -> Seq<char> {
    seq!['\n', '/', '/', '\n']
}

/// The lines that ship: proofread content supersedes translation content
/// once it exists.
pub open spec fn shipped_lines(b: BalloonView) -> Seq<Seq<char>> {
    if b.pr.len() > 0 {
        b.pr
    } else {
        b.tl
    }
}

/// Plain-text rendering of a balloon: each shipped line behind the kind's
/// prefix, lines joined with the continuation separator. Lossy: comments
/// and the image are dropped.
pub open spec fn balloon_plain(b: BalloonView) -> Seq<char> {
    joined(type_prefix(b.btype), shipped_lines(b), line_sep())
}

/// Line count of a balloon: proofread lines if any, else translation lines.
pub open spec fn balloon_line_count(b: BalloonView) -> int {
    shipped_lines(b).len() as int
}

impl Default for Balloon {
    /// The empty balloon.
    fn default() -> (r: Self)
        ensures
            r@ == empty_balloon(),
    {
        let r = Balloon {
            tl_content: Vec::new(),
            pr_content: Vec::new(),
            comments: Vec::new(),
            btype: TYPES::DIALOGUE,
            balloon_img: None,
        };
        proof {
            assert(r@.tl =~= Seq::<Seq<char>>::empty());
            assert(r@.pr =~= Seq::<Seq<char>>::empty());
            assert(r@.cm =~= Seq::<Seq<char>>::empty());
        }
        r
    }
}

impl Balloon {
    /// Add image to balloon. Creates a `BalloonImage` struct and adds it to
    /// the balloon. `img_type` is a string holding the image's extension,
    /// "jpg" etc. `img_data` is the raw image as bytes.
    pub fn add_image(&mut self, img_type: String, img_data: Vec<u8>)
        ensures
            final(self)@ == (BalloonView {
                img: Some(BalloonImageView { img_type: img_type@, img_data: img_data@ }),
                ..old(self)@
            }),
    {
        self.balloon_img = Some(BalloonImage { img_type, img_data });
    }

    /// Removes the image from the balloon.
    pub fn remove_img(&mut self)
        ensures
            final(self)@ == (BalloonView { img: None, ..old(self)@ }),
    {
        self.balloon_img = None;
    }

    /// Total length of all translation content, in raw bytes of the
    /// encoded text. *(Spaces included.)*
    pub fn tl_chars(&self) -> (r: usize)
        requires
            lens_sum(self@.tl, 0) <= usize::MAX,
        ensures
            r == lens_sum(self@.tl, 0),
    {
        crate::strutil::sum_lens(&self.tl_content)
    }

    /// Total length of all proofread content, in raw bytes of the
    /// encoded text. *(Spaces included.)*
    pub fn pr_chars(&self) -> (r: usize)
        requires
            lens_sum(self@.pr, 0) <= usize::MAX,
        ensures
            r == lens_sum(self@.pr, 0),
    {
        crate::strutil::sum_lens(&self.pr_content)
    }

    /// Total length of all comments, in raw bytes of the encoded text.
    /// *(Spaces included.)*
    pub fn comments_chars(&self) -> (r: usize)
        requires
            lens_sum(self@.cm, 0) <= usize::MAX,
        ensures
            r == lens_sum(self@.cm, 0),
    {
        crate::strutil::sum_lens(&self.comments)
    }

    /// Total line count of the balloon: proofread content lines if the
    /// balloon has proofread content, otherwise translation content lines.
    pub fn line_count(&self) -> (r: usize)
        ensures
            r == balloon_line_count(self@),
    {
        if self.pr_content.len() > 0 {
            self.pr_content.len()
        } else {
            self.tl_content.len()
        }
    }

    /// Generates the stringified version of the balloon.
    /// Use this with caution because of data loss.
    ///
    /// **IMPORTANT NOTE:** ***The kind tag and balloon_img are lost during
    /// the creation of the text!***
    pub fn to_string(&self) -> (r: String)
        ensures
            r@ == balloon_plain(self@),
    {
        proof {
            reveal_strlit("\n//\n");
            assert("\n//\n"@ =~= line_sep());
        }
        let prefix = crate::consts::type_prefix_str(self.btype);
        if self.pr_content.len() > 0 {
            crate::strutil::join_with_prefix(prefix, &self.pr_content, "\n//\n")
        } else {
            crate::strutil::join_with_prefix(prefix, &self.tl_content, "\n//\n")
        }
    }

    /// Generates an XML string of the balloon. No data loss, so you can
    /// use this whenever you want.
    ///
    /// **Note:** Raw image data will be converted to a base64 encoded
    /// string.
    pub fn to_xml(&self) -> (r: String)
        ensures
            r@ == crate::codec::balloon_xml(self@),
    {
        let node = crate::codec::balloon_to_node(self);
        crate::xml::xml_node_to_string(&node)
    }
}

} // verus!

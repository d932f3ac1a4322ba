//! Closed enumerations of the format: balloon kinds and output kinds,
//! with their two wire representations (XML `type` attribute, plain-text
//! line prefix).

use vstd::prelude::*;

verus! {

/// Supported output file types.
///
/// `RAW`: raw XML string; `ZLIB`: compressed XML; `TXT`: lossy plain text.
#[derive(Clone, Copy, Debug)]
pub enum OUT {
    RAW,
    ZLIB,
    TXT,
}

/// Balloon types. Default value is `DIALOGUE`.
///
/// ST: Sub-text, OT: Over-text.
#[derive(PartialEq, Eq, Structural, Debug, Clone, Copy)]
pub enum TYPES {
    DIALOGUE,
    SQUARE,
    THINKING,
    ST,
    OT,
}

impl Default for TYPES {
    fn default() -> (r: Self)
        ensures
            r == TYPES::DIALOGUE,
    {
        Self::DIALOGUE
    }
}

/// XML `type` attribute value of each balloon kind.
pub open spec fn type_attr(t: TYPES) -> Seq<char> {
    match t {
        TYPES::DIALOGUE => seq!['D', 'i', 'a', 'l', 'o', 'g', 'u', 'e'],
        TYPES::SQUARE => seq!['S', 'q', 'u', 'a', 'r', 'e'],
        TYPES::ST => seq!['S', 'T'],
        TYPES::OT => seq!['O', 'T'],
        TYPES::THINKING => seq!['T', 'h', 'i', 'n', 'k', 'i', 'n', 'g'],
    }
}

/// Balloon kind denoted by an XML `type` attribute value.
/// An unrecognized value denotes `DIALOGUE`: leniency, not an error.
pub open spec fn attr_type(s: Seq<char>) -> TYPES {
    if s == type_attr(TYPES::SQUARE) {
        TYPES::SQUARE
    } else if s == type_attr(TYPES::ST) {
        TYPES::ST
    } else if s == type_attr(TYPES::OT) {
        TYPES::OT
    } else if s == type_attr(TYPES::THINKING) {
        TYPES::THINKING
    } else {
        TYPES::DIALOGUE
    }
}

/// Plain-text line prefix of each balloon kind, header and spacer together.
pub open spec fn type_prefix(t: TYPES) -> Seq<char> {
    match t {
        TYPES::DIALOGUE => seq!['(', ')', ':', ' '],
        TYPES::SQUARE => seq!['[', ']', ':', ' '],
        TYPES::ST => seq!['S', 'T', ':', ' '],
        TYPES::OT => seq!['O', 'T', ':', ' '],
        TYPES::THINKING => seq!['{', '}', ':', ' '],
    }
}

/// Balloon kind denoted by the first two characters of a plain-text line.
/// An unrecognized pair denotes `DIALOGUE`: leniency, not an error.
pub open spec fn prefix_type(c0: char, c1: char) -> TYPES {
    if c0 == '(' && c1 == ')' {
        TYPES::DIALOGUE
    } else if c0 == 'O' && c1 == 'T' {
        TYPES::OT
    } else if c0 == '[' && c1 == ']' {
        TYPES::SQUARE
    } else if c0 == 'S' && c1 == 'T' {
        TYPES::ST
    } else if c0 == '{' && c1 == '}' {
        TYPES::THINKING
    } else {
        TYPES::DIALOGUE
    }
}

/// Every XML `type` attribute value outside the closed set of the five
/// balloon kinds decodes to `DIALOGUE`; decoding never fails on it.
pub proof fn lemma_unknown_attr_is_dialogue(s: Seq<char>)
    requires
        s != type_attr(TYPES::SQUARE),
        s != type_attr(TYPES::ST),
        s != type_attr(TYPES::OT),
        s != type_attr(TYPES::THINKING),
    ensures
        attr_type(s) == TYPES::DIALOGUE,
{
}

/// `attr_type` inverts `type_attr`: the attribute written for a kind
/// decodes to that same kind.
pub proof fn lemma_attr_type_inverts_type_attr(t: TYPES)
    ensures
        attr_type(type_attr(t)) == t,
{
    assert(type_attr(TYPES::SQUARE).len() == 6);
    assert(type_attr(TYPES::ST).len() == 2);
    assert(type_attr(TYPES::OT).len() == 2);
    assert(type_attr(TYPES::THINKING).len() == 8);
    assert(type_attr(TYPES::DIALOGUE).len() == 8);
    assert(type_attr(TYPES::ST)[0] != type_attr(TYPES::OT)[0]);
    assert(type_attr(TYPES::THINKING)[0] != type_attr(TYPES::DIALOGUE)[0]);
}

/// The output kind stored under a file extension: `txt` holds plain
/// text, `sffx` raw XML, `sffz` compressed XML. Any other extension is
/// unsupported.
pub open spec fn extension_kind_spec(e: Seq<char>) -> Option<OUT> {
    if e == "txt"@ {
        Some(OUT::TXT)
    } else if e == "sffx"@ {
        Some(OUT::RAW)
    } else if e == "sffz"@ {
        Some(OUT::ZLIB)
    } else {
        None
    }
}

/// The output kind stored under a file extension, if any.
pub fn extension_kind(ext: &str) -> (r: Option<OUT>)
    ensures
        r == extension_kind_spec(ext@),
{
    if crate::strutil::str_eq(ext, "txt") {
        Some(OUT::TXT)
    } else if crate::strutil::str_eq(ext, "sffx") {
        Some(OUT::RAW)
    } else if crate::strutil::str_eq(ext, "sffz") {
        Some(OUT::ZLIB)
    } else {
        None
    }
}

/// The balloon kind denoted by the first two characters of a plain-text
/// line; an unrecognized pair denotes `DIALOGUE`.
pub fn prefix_type_exec(c0: char, c1: char) -> (r: TYPES)
    ensures
        r == prefix_type(c0, c1),
{
    if c0 == '(' && c1 == ')' {
        TYPES::DIALOGUE
    } else if c0 == 'O' && c1 == 'T' {
        TYPES::OT
    } else if c0 == '[' && c1 == ']' {
        TYPES::SQUARE
    } else if c0 == 'S' && c1 == 'T' {
        TYPES::ST
    } else if c0 == '{' && c1 == '}' {
        TYPES::THINKING
    } else {
        TYPES::DIALOGUE
    }
}

/// The balloon kind denoted by an XML `type` attribute value; an
/// unrecognized value denotes `DIALOGUE`.
pub fn attr_type_exec(s: &str) -> (r: TYPES)
    ensures
        r == attr_type(s@),
{
    proof {
        reveal_strlit("Dialogue");
        reveal_strlit("Square");
        reveal_strlit("ST");
        reveal_strlit("OT");
        reveal_strlit("Thinking");
        assert("Square"@ =~= type_attr(TYPES::SQUARE));
        assert("ST"@ =~= type_attr(TYPES::ST));
        assert("OT"@ =~= type_attr(TYPES::OT));
        assert("Thinking"@ =~= type_attr(TYPES::THINKING));
    }
    if crate::strutil::str_eq(s, "Square") {
        TYPES::SQUARE
    } else if crate::strutil::str_eq(s, "ST") {
        TYPES::ST
    } else if crate::strutil::str_eq(s, "OT") {
        TYPES::OT
    } else if crate::strutil::str_eq(s, "Thinking") {
        TYPES::THINKING
    } else {
        TYPES::DIALOGUE
    }
}

/// The exact XML `type` attribute text of a balloon kind.
pub fn type_attr_str(t: TYPES) -> (r: &'static str)
    ensures
        r@ == type_attr(t),
{
    proof {
        reveal_strlit("Dialogue");
        reveal_strlit("Square");
        reveal_strlit("ST");
        reveal_strlit("OT");
        reveal_strlit("Thinking");
    }
    match t {
        TYPES::DIALOGUE => {
            let r = "Dialogue";
            proof {
                assert(r@ =~= type_attr(TYPES::DIALOGUE));
            }
            r
        },
        TYPES::SQUARE => {
            let r = "Square";
            proof {
                assert(r@ =~= type_attr(TYPES::SQUARE));
            }
            r
        },
        TYPES::ST => {
            let r = "ST";
            proof {
                assert(r@ =~= type_attr(TYPES::ST));
            }
            r
        },
        TYPES::OT => {
            let r = "OT";
            proof {
                assert(r@ =~= type_attr(TYPES::OT));
            }
            r
        },
        TYPES::THINKING => {
            let r = "Thinking";
            proof {
                assert(r@ =~= type_attr(TYPES::THINKING));
            }
            r
        },
    }
}

/// The exact plain-text line prefix of a balloon kind.
pub fn type_prefix_str(t: TYPES) -> (r: &'static str)
    ensures
        r@ == type_prefix(t),
{
    proof {
        reveal_strlit("(): ");
        reveal_strlit("[]: ");
        reveal_strlit("ST: ");
        reveal_strlit("OT: ");
        reveal_strlit("{}: ");
    }
    match t {
        TYPES::DIALOGUE => {
            let r = "(): ";
            proof {
                assert(r@ =~= type_prefix(TYPES::DIALOGUE));
            }
            r
        },
        TYPES::SQUARE => {
            let r = "[]: ";
            proof {
                assert(r@ =~= type_prefix(TYPES::SQUARE));
            }
            r
        },
        TYPES::ST => {
            let r = "ST: ";
            proof {
                assert(r@ =~= type_prefix(TYPES::ST));
            }
            r
        },
        TYPES::OT => {
            let r = "OT: ";
            proof {
                assert(r@ =~= type_prefix(TYPES::OT));
            }
            r
        },
        TYPES::THINKING => {
            let r = "{}: ";
            proof {
                assert(r@ =~= type_prefix(TYPES::THINKING));
            }
            r
        },
    }
}

} // verus!

//! The parse paths: XML decode with its round trip, the compressed form,
//! the heuristic plain-text parser, and the error cases.

use base64::Engine as _;
use rsff::balloon::Balloon;
use rsff::consts::{extension_kind, TYPES, OUT};
use rsff::{Document, SffError};

fn document_with_image() -> Document {
    let mut d = Document::default();
    d.METADATA_APP_VERSION = String::from("tester");

    let mut b1 = Balloon::default();
    b1.tl_content.push(String::from("num"));
    b1.tl_content.push(String::from("nam"));
    b1.pr_content.push(String::from("numnam"));
    b1.comments.push(String::from("check page 3"));
    b1.btype = TYPES::THINKING;
    b1.add_image("jpg".to_string(), vec![255u8, 216, 12, 0, 77, 3]);

    let mut b2 = Balloon::default();
    b2.tl_content.push(String::from("num"));
    b2.btype = TYPES::SQUARE;

    d.balloons.push(b1);
    d.balloons.push(b2);
    d
}

#[test]
fn xml_round_trip_reproduces_document() {
    let d = document_with_image();
    let xml = d.to_xml();

    let d2 = Document::default().xml_to_doc(xml.clone()).unwrap();

    assert_eq!(d2.to_xml(), xml);
    assert_eq!(d2.METADATA_APP_VERSION, "tester");
    assert_eq!(d2.balloons.len(), 2);
    assert_eq!(d2.balloons[0].btype, TYPES::THINKING);
    assert_eq!(d2.balloons[0].comments[0], "check page 3");
    let img = d2.balloons[0].balloon_img.as_ref().unwrap();
    assert_eq!(img.img_type, "jpg");
    assert_eq!(img.img_data, vec![255u8, 216, 12, 0, 77, 3]);
    assert!(d2.balloons[1].balloon_img.is_none());
}

#[test]
fn compressed_round_trip_reproduces_document() {
    let d = document_with_image();
    let compressed = d.to_zlib();

    let d2 = Document::default().zlib_to_doc(&compressed).unwrap();

    assert_eq!(d2.to_xml(), d.to_xml());
}

#[test]
fn image_text_is_encoded_not_raw() {
    let mut b = Balloon::default();
    b.add_image("png".to_string(), vec![0u8, 1, 2, 250]);
    let xml = b.to_xml();
    let expected = base64::engine::general_purpose::URL_SAFE_NO_PAD.encode([0u8, 1, 2, 250]);
    assert_eq!(
        xml,
        format!("<Balloon type=\"Dialogue\"><img type=\"png\">{}</img></Balloon>", expected)
    );
}

#[test]
fn unknown_type_attribute_reads_as_dialogue() {
    let xml = r#"<Document><Metadata><Script>s</Script><App></App><Info>i</Info></Metadata><Balloons><Balloon type="Bogus"><TL>x</TL></Balloon></Balloons></Document>"#;
    let d = Document::default().xml_to_doc(xml.to_string()).unwrap();
    assert_eq!(d.balloons.len(), 1);
    assert_eq!(d.balloons[0].btype, TYPES::DIALOGUE);
    assert_eq!(d.balloons[0].tl_content[0], "x");
}

#[test]
fn malformed_xml_is_rejected() {
    let r = Document::default().xml_to_doc("no markup here".to_string());
    assert_eq!(r.unwrap_err(), SffError::MalformedXml);

    let r = Document::default().xml_to_doc("<Document><TL></Document>".to_string());
    assert_eq!(r.unwrap_err(), SffError::MalformedXml);
}

#[test]
fn missing_metadata_section_is_reported() {
    let r = Document::default().xml_to_doc("<Document></Document>".to_string());
    assert_eq!(r.unwrap_err(), SffError::MissingSection("Metadata".to_string()));
}

#[test]
fn missing_balloons_section_is_reported() {
    let r = Document::default().xml_to_doc(
        "<Document><Metadata><Script>s</Script></Metadata></Document>".to_string(),
    );
    assert_eq!(r.unwrap_err(), SffError::MissingSection("Balloons".to_string()));
}

#[test]
fn invalid_image_encoding_is_reported() {
    let xml = r#"<Document><Metadata><Script>s</Script></Metadata><Balloons><Balloon type="OT"><img type="jpg">!!!</img></Balloon></Balloons></Document>"#;
    let r = Document::default().xml_to_doc(xml.to_string());
    assert_eq!(r.unwrap_err(), SffError::InvalidImageEncoding);
}

#[test]
fn missing_metadata_texts_read_as_empty() {
    let xml = r#"<Document><Metadata></Metadata><Balloons></Balloons></Document>"#;
    let d = Document::default().xml_to_doc(xml.to_string()).unwrap();
    assert_eq!(d.METADATA_SCRIPT_VERSION, "");
    assert_eq!(d.METADATA_APP_VERSION, "");
    assert_eq!(d.METADATA_INFO, "");
    assert_eq!(d.balloons.len(), 0);
}

#[test]
fn txt_reconstruction_groups_continuations() {
    let d = Document::default()
        .txt_to_doc("OT: num\n//\nOT: nam\n(): num".to_string())
        .unwrap();

    assert_eq!(d.balloons.len(), 2);
    assert_eq!(d.balloons[0].btype, TYPES::OT);
    assert_eq!(
        d.balloons[0].tl_content,
        vec!["num".to_string(), "nam".to_string()]
    );
    assert_eq!(d.balloons[1].btype, TYPES::DIALOGUE);
    assert_eq!(d.balloons[1].tl_content[0], "num");
    assert_eq!(d.line_count(), 3);
}

#[test]
fn txt_reconstruction_of_writer_text() {
    let d = Document::default()
        .txt_to_doc("OT: numnam\n\n(): num".to_string())
        .unwrap();

    assert_eq!(d.line_count(), 2);
    assert_eq!(d.balloons.len(), 2);
    assert_eq!(d.balloons[0].btype, TYPES::OT);
    assert_eq!(d.balloons[0].tl_content[0], "numnam");
    assert_eq!(d.balloons[1].btype, TYPES::DIALOGUE);
    assert_eq!(d.balloons[1].tl_content[0], "num");
}

#[test]
fn txt_reconstruction_keeps_continuation_lines_apart() {
    let d = Document::default()
        .txt_to_doc("ST: one\n//\nST: two\n//\nST: three".to_string())
        .unwrap();

    assert_eq!(d.balloons.len(), 1);
    assert_eq!(d.balloons[0].btype, TYPES::ST);
    assert_eq!(
        d.balloons[0].tl_content,
        vec!["one".to_string(), "two".to_string(), "three".to_string()]
    );
}

#[test]
fn txt_reconstruction_trims_content() {
    let d = Document::default()
        .txt_to_doc("{}:  spaced out \n\n[]: x".to_string())
        .unwrap();

    assert_eq!(d.balloons.len(), 2);
    assert_eq!(d.balloons[0].btype, TYPES::THINKING);
    assert_eq!(d.balloons[0].tl_content[0], "spaced out");
    assert_eq!(d.balloons[1].btype, TYPES::SQUARE);
    assert_eq!(d.balloons[1].tl_content[0], "x");
}

#[test]
fn txt_reconstruction_tolerates_short_and_unknown_lines() {
    let d = Document::default().txt_to_doc("zz\n?????: what".to_string()).unwrap();

    assert_eq!(d.balloons.len(), 2);
    assert_eq!(d.balloons[0].btype, TYPES::DIALOGUE);
    assert_eq!(d.balloons[0].tl_content[0], "");
    assert_eq!(d.balloons[1].btype, TYPES::DIALOGUE);
    assert_eq!(d.balloons[1].tl_content[0], "?: what");
}

#[test]
fn plain_text_round_trip_of_writer_output() {
    let mut d = Document::default();
    let mut b = Balloon::default();
    b.tl_content.push(String::from("alpha"));
    b.tl_content.push(String::from("beta"));
    b.btype = TYPES::OT;
    d.balloons.push(b);

    let text = d.to_string();
    assert_eq!(text, "OT: alpha\n//\nOT: beta");

    let d2 = Document::default().txt_to_doc(text).unwrap();
    assert_eq!(d2.balloons.len(), 1);
    assert_eq!(d2.balloons[0].btype, TYPES::OT);
    assert_eq!(
        d2.balloons[0].tl_content,
        vec!["alpha".to_string(), "beta".to_string()]
    );
}

#[test]
fn extension_dispatch() {
    assert!(matches!(extension_kind("txt"), Some(OUT::TXT)));
    assert!(matches!(extension_kind("sffx"), Some(OUT::RAW)));
    assert!(matches!(extension_kind("sffz"), Some(OUT::ZLIB)));
    assert!(matches!(extension_kind("test"), None));
    assert!(matches!(extension_kind(""), None));
}

#[test]
fn zlib_stream_is_not_raw_xml() {
    let d = document_with_image();
    let xml = d.to_xml();
    let compressed = d.to_zlib();
    assert_ne!(compressed, xml.into_bytes());
}

#[test]
fn byte_lengths_count_encoded_bytes() {
    let mut b = Balloon::default();
    b.tl_content.push("h\u{e9}llo".to_string());
    b.pr_content.push("\u{3042}".to_string());
    b.comments.push("a\u{a0}b".to_string());
    assert_eq!(b.tl_chars(), 6);
    assert_eq!(b.pr_chars(), 3);
    assert_eq!(b.comments_chars(), 4);

    let mut d = Document::default();
    d.balloons.push(b);
    assert_eq!(d.tl_chars(), 6);
    assert_eq!(d.pr_chars(), 3);
    assert_eq!(d.comment_chars(), 4);
}

#[test]
fn metadata_lengths_are_byte_lengths() {
    let mut d = Document::default();
    let mut b = Balloon::default();
    b.tl_content.push("\u{3042}".to_string());
    d.balloons.push(b);

    assert_eq!(
        d.to_xml(),
        "<Document><Metadata><Script>Scanlation Script File v0.2.0</Script><App></App><Info>Num</Info><TLLength>3</TLLength><PRLength>0</PRLength><CMLength>0</CMLength><BalloonCount>1</BalloonCount><LineCount>1</LineCount></Metadata><Balloons><Balloon type=\"Dialogue\"><TL>\u{3042}</TL></Balloon></Balloons></Document>"
    );
}

#[test]
fn txt_reconstruction_trims_unicode_whitespace() {
    let d = Document::default()
        .txt_to_doc("(): \u{3000}wide\u{a0}\u{2003} \n\nST: x\u{85}".to_string())
        .unwrap();

    assert_eq!(d.balloons.len(), 2);
    assert_eq!(d.balloons[0].tl_content[0], "wide");
    assert_eq!(d.balloons[1].tl_content[0], "x");
}

#[test]
fn pretty_printed_xml_is_read() {
    let pretty = "<Document>\n  <Metadata>\n    <Script>s</Script>\n  </Metadata>\n  <Balloons>\n    <Balloon type=\"OT\">\n      <TL>num</TL>\n    </Balloon>\n  </Balloons>\n</Document>";
    let d = Document::default().xml_to_doc(pretty.to_string()).unwrap();
    assert_eq!(d.METADATA_SCRIPT_VERSION, "s");
    assert_eq!(d.balloons.len(), 1);
    assert_eq!(d.balloons[0].btype, TYPES::OT);
    assert_eq!(d.balloons[0].tl_content[0], "num");
}

#[test]
fn xml_declaration_is_read() {
    let declared = "<?xml version=\"1.0\" encoding=\"UTF-8\"?>\n<Document><Metadata></Metadata><Balloons></Balloons></Document>";
    let d = Document::default().xml_to_doc(declared.to_string()).unwrap();
    assert_eq!(d.balloons.len(), 0);

    let missing = "<?xml version=\"1.0\"?><Document></Document>";
    let r = Document::default().xml_to_doc(missing.to_string());
    assert_eq!(r.unwrap_err(), SffError::MissingSection("Metadata".to_string()));
}

#[test]
fn self_closing_tags_read_as_empty_elements() {
    let xml = r#"<Document><Metadata><Script>s</Script><App/><Info/></Metadata><Balloons><Balloon type="ST"><TL/><TL>x</TL></Balloon></Balloons></Document>"#;
    let d = Document::default().xml_to_doc(xml.to_string()).unwrap();
    assert_eq!(d.METADATA_SCRIPT_VERSION, "s");
    assert_eq!(d.METADATA_APP_VERSION, "");
    assert_eq!(d.METADATA_INFO, "");
    assert_eq!(d.balloons[0].btype, TYPES::ST);
    assert_eq!(d.balloons[0].tl_content, vec!["".to_string(), "x".to_string()]);
}

#[test]
fn whitespace_only_leaf_text_is_kept_verbatim() {
    let xml = "<Document><Metadata><Script>  </Script></Metadata><Balloons><Balloon type=\"OT\"><TL> a </TL></Balloon></Balloons></Document>";
    let d = Document::default().xml_to_doc(xml.to_string()).unwrap();
    assert_eq!(d.METADATA_SCRIPT_VERSION, "  ");
    assert_eq!(d.balloons[0].tl_content[0], " a ");
}

#[test]
fn text_mixed_between_elements_is_rejected() {
    let xml = "<Document>x<Metadata></Metadata><Balloons></Balloons></Document>";
    let r = Document::default().xml_to_doc(xml.to_string());
    assert_eq!(r.unwrap_err(), SffError::MalformedXml);
}

#[test]
fn pretty_printed_xml_reaches_the_typed_errors() {
    let no_balloons = "<Document>\n  <Metadata><Script>s</Script></Metadata>\n</Document>";
    let r = Document::default().xml_to_doc(no_balloons.to_string());
    assert_eq!(r.unwrap_err(), SffError::MissingSection("Balloons".to_string()));

    let bad_image = "<Document>\n  <Metadata></Metadata>\n  <Balloons>\n    <Balloon type=\"OT\">\n      <img type=\"jpg\">a!</img>\n    </Balloon>\n  </Balloons>\n</Document>";
    let r = Document::default().xml_to_doc(bad_image.to_string());
    assert_eq!(r.unwrap_err(), SffError::InvalidImageEncoding);
}

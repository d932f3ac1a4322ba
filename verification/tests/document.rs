//! Document-level behaviour: aggregated metrics, plain-text and XML
//! rendering, and the compressed form.

use std::io::Read;

use flate2::read::ZlibDecoder;
use rsff::balloon::Balloon;
use rsff::consts::TYPES;
use rsff::Document;

const CANONICAL_XML: &str = r#"<Document><Metadata><Script>Scanlation Script File v0.2.0</Script><App></App><Info>Num</Info><TLLength>9</TLLength><PRLength>6</PRLength><CMLength>0</CMLength><BalloonCount>2</BalloonCount><LineCount>2</LineCount></Metadata><Balloons><Balloon type="OT"><TL>num</TL><TL>nam</TL><PR>numnam</PR></Balloon><Balloon type="Dialogue"><TL>num</TL></Balloon></Balloons></Document>"#;

fn two_balloon_document() -> Document {
    let mut d = Document::default();
    let mut b1 = Balloon::default();
    let mut b2 = Balloon::default();

    b1.tl_content.push(String::from("num"));
    b1.tl_content.push(String::from("nam"));
    b1.pr_content.push(String::from("numnam"));
    b1.btype = TYPES::OT;

    b2.tl_content.push(String::from("num"));

    d.balloons.push(b1);
    d.balloons.push(b2);
    d
}

#[test]
fn document_tl_chars() {
    let mut d = Document::default();
    let mut b1 = Balloon::default();
    let mut b2 = Balloon::default();

    b1.tl_content.push(String::from("num"));
    b2.tl_content.push(String::from("num"));
    b2.tl_content.push(String::from("namnam"));

    d.balloons.push(b1);
    d.balloons.push(b2);

    assert_eq!(d.tl_chars(), 12)
}

#[test]
fn document_pr_chars() {
    let mut d = Document::default();
    let mut b1 = Balloon::default();
    let mut b2 = Balloon::default();

    b1.pr_content.push(String::from("num"));
    b2.pr_content.push(String::from("num"));
    b2.pr_content.push(String::from("namnam"));

    d.balloons.push(b1);
    d.balloons.push(b2);

    assert_eq!(d.pr_chars(), 12)
}

#[test]
fn document_comment_chars() {
    let mut d = Document::default();
    let mut b1 = Balloon::default();
    let mut b2 = Balloon::default();

    b1.comments.push(String::from("num"));
    b2.comments.push(String::from("num"));
    b2.comments.push(String::from("namnam"));

    d.balloons.push(b1);
    d.balloons.push(b2);

    assert_eq!(d.comment_chars(), 12)
}

#[test]
fn document_line_count() {
    let mut d = Document::default();
    let mut b1 = Balloon::default();
    let mut b2 = Balloon::default();

    b1.tl_content.push(String::from("num"));
    b2.tl_content.push(String::from("num"));
    b2.pr_content.push(String::from("namnam"));

    d.balloons.push(b1);
    d.balloons.push(b2);

    assert_eq!(d.line_count(), 2)
}

#[test]
fn document_length() {
    let mut d = Document::default();
    let b1 = Balloon::default();
    let b2 = Balloon::default();

    d.balloons.push(b1);
    d.balloons.push(b2);

    assert_eq!(d.len(), 2)
}

#[test]
fn document_to_string() {
    let d = two_balloon_document();

    assert_eq!(d.to_string(), String::from("OT: numnam\n\n(): num"))
}

#[test]
fn document_to_xml() {
    let d = two_balloon_document();

    assert_eq!(d.to_xml(), CANONICAL_XML)
}

#[test]
fn document_to_compressed() {
    let d = two_balloon_document();

    let encoded = d.to_zlib();
    let mut created = String::new();
    let mut decoder = ZlibDecoder::new(&*encoded);
    decoder.read_to_string(&mut created).unwrap();

    assert_eq!(CANONICAL_XML, created)
}

#[test]
fn document_render_twice_identical() {
    let d = two_balloon_document();

    let first = d.to_xml();
    let second = d.to_xml();
    assert_eq!(first, second);
}

#[test]
fn document_empty_to_xml() {
    let d = Document::default();
    assert_eq!(
        d.to_xml(),
        r#"<Document><Metadata><Script>Scanlation Script File v0.2.0</Script><App></App><Info>Num</Info><TLLength>0</TLLength><PRLength>0</PRLength><CMLength>0</CMLength><BalloonCount>0</BalloonCount><LineCount>0</LineCount></Metadata><Balloons></Balloons></Document>"#
    );
}

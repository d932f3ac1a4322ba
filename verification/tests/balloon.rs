//! Balloon-level behaviour: metrics, image handling, plain-text and XML
//! rendering.

use base64::Engine as _;
use rsff::balloon::Balloon;

const IMG_B64: &str = "2be18zs71c_P0dPS1NTS0tPX09HS17-_81BR_6in0dLU709P4ZKV09TW1dPU2tnX2tzZ7u_x6srL_gwL7u7u7Kin8zs70dHP2dnZ5eXl5uTl09PT_v7-6Hh22dfa0cvN70dG5n-A09HU09XU09PV1cfH7Jua9EJC1tbW2NjY2ru5-CEf3pSV53Bs8zs5-hob8UlJ44WF5Hp65IB-7U5L_Rgd-hgZ52tr4qal-fTw3Nzc09PT-DAw8m5s_bOy7uDf91FT9oqK1NTS2tne3d3d19fV3t7e_v__9fXz19nY-tzc_0ZE47az1dPU1NTU1NTU1tbW3t7e2NjY2tra2tra4YuM9jU23d3d09PT1dXV29vb4-Pj3Nzc1tbW1tbW2dnZ_woJ2NTT29vb1tbW";

fn test_img_bytes() -> Vec<u8> {
    base64::engine::general_purpose::URL_SAFE_NO_PAD
        .decode(IMG_B64)
        .unwrap()
}

#[test]
fn ballo0n_add_img() {
    let mut b = Balloon::default();
    b.add_image("jpg".to_string(), test_img_bytes());
    assert!(true);
}

#[test]
fn balloon_remove_img() {
    let mut b = Balloon::default();
    b.add_image("jpg".to_string(), test_img_bytes());
    b.remove_img();
    assert!(true);
}

#[test]
fn balloon_get_tl_chars() {
    let mut b = Balloon::default();

    b.tl_content.push("Text 1".to_string());
    b.tl_content.push("Text 2".to_string());

    assert_eq!(b.tl_chars(), 12);
}

#[test]
fn balloon_get_tl_len() {
    let mut b = Balloon::default();

    b.tl_content.push("Text 1".to_string());
    b.tl_content.push("Text 2".to_string());

    assert_eq!(b.tl_content.len(), 2);
}

#[test]
fn balloon_get_pr_chars() {
    let mut b = Balloon::default();

    b.pr_content.push("Text 1".to_string());
    b.pr_content.push("Text 2".to_string());

    assert_eq!(b.pr_chars(), 12);
}

#[test]
fn balloon_get_pr_len() {
    let mut b = Balloon::default();

    b.pr_content.push("Text 1".to_string());
    b.pr_content.push("Text 2".to_string());

    assert_eq!(b.pr_content.len(), 2);
}

#[test]
fn balloon_get_comment_chars() {
    let mut b = Balloon::default();

    b.comments.push("Text 1".to_string());
    b.comments.push("Text 2".to_string());

    assert_eq!(b.comments_chars(), 12);
}

#[test]
fn balloon_get_comment_len() {
    let mut b = Balloon::default();

    b.comments.push("Text 1".to_string());
    b.comments.push("Text 2".to_string());

    assert_eq!(b.comments.len(), 2);
}

#[test]
fn balloon_to_string() {
    let mut b = Balloon::default();

    b.tl_content.push("a".to_string());
    b.pr_content.push("a".to_string());
    b.comments.push("a".to_string());
    b.pr_content.push("ZZZZZ".to_string());

    b.add_image("jpg".to_string(), test_img_bytes());

    let str = b.to_string();

    let intended_result = String::from("(): a\n//\n(): ZZZZZ");
    assert_eq!(str, intended_result);
}

#[test]
fn balloon_to_xml() {
    let mut b = Balloon::default();

    b.tl_content.push("a".to_string());
    b.pr_content.push("a".to_string());
    b.comments.push("a".to_string());
    b.pr_content.push("ZZZZZ".to_string());

    b.add_image("jpg".to_string(), test_img_bytes());

    let str = b.to_xml();

    let intended_xml = format!(
        r#"<Balloon type="Dialogue"><TL>a</TL><PR>a</PR><PR>ZZZZZ</PR><Comment>a</Comment><img type="jpg">{}</img></Balloon>"#,
        IMG_B64
    );
    assert_eq!(str, intended_xml);
}

use mailcore::body::{BodyStructure, FileMeta};
use mailcore::error::MailError;

const BS_STRING: &'static str = r#"* 123123 FETCH (BODYSTRUCTURE (("TEXT" "PLAIN" ("CHARSET" "utf-8") NIL NIL "QUOTED-PRINTABLE" 495 10 NIL NIL NIL)(("TEXT" "HTML" ("CHARSET" "utf-8") NIL NIL "QUOTED-PRINTABLE" 6328 127 NIL NIL NIL)("IMAGE" "PNG" ("NAME" "og-image.png" "X-UNIX-MODE" "0666") "<34A362DC-C052-41DA-B3C2-C6782B912403>" NIL "BASE64" 68590 NIL ("INLINE" ("FILENAME" "og-image.png")) NIL)("IMAGE" "PNG" ("NAME" "1*jtOTreOJuxO8FtLYyU9Uyw.png" "X-UNIX-MODE" "0666") "<E80B1254-3757-4EB9-AC92-C2E2EC312001>" NIL "BASE64" 180504 NIL ("INLINE" ("FILENAME" "1*jtOTreOJuxO8FtLYyU9Uyw.png")) NIL) "RELATED" ("BOUNDARY" "Apple-Mail=_A6722D8A-5BBB-478B-8940-7B14BCE39030" "TYPE" "text/html") NIL NIL) "ALTERNATIVE" ("BOUNDARY" "Apple-Mail=_D5EF70C3-5230-4B9A-A34D-20255319DA45") NIL NIL))
"#;

fn tree_eq(a: &BodyStructure, b: &BodyStructure) -> bool {
    match (a, b) {
        (BodyStructure::Plain, BodyStructure::Plain) => true,
        (BodyStructure::Html, BodyStructure::Html) => true,
        (BodyStructure::Image(m1), BodyStructure::Image(m2)) => m1 == m2,
        (BodyStructure::Application(m1), BodyStructure::Application(m2)) => m1 == m2,
        (BodyStructure::Mixed(c1, b1), BodyStructure::Mixed(c2, b2))
        | (BodyStructure::Related(c1, b1), BodyStructure::Related(c2, b2))
        | (BodyStructure::Alternative(c1, b1), BodyStructure::Alternative(c2, b2)) => {
            b1 == b2
                && c1.len() == c2.len()
                && c1.iter().zip(c2.iter()).all(|(x, y)| tree_eq(x, y))
        }
        _ => false,
    }
}

#[test]
fn test_bodystruct_parse() {
    let val: BodyStructure = BodyStructure::parse(BS_STRING).unwrap();
    let expected_val = BodyStructure::Alternative(
        vec![
            BodyStructure::Plain,
            BodyStructure::Related(
                vec![
                    BodyStructure::Html,
                    BodyStructure::Image(FileMeta {
                        file_type: "PNG".to_string(),
                        name: "og-image.png".to_string(),
                    }),
                    BodyStructure::Image(FileMeta {
                        file_type: "PNG".to_string(),
                        name: "1*jtOTreOJuxO8FtLYyU9Uyw.png".to_string(),
                    }),
                ],
                "Apple-Mail=_A6722D8A-5BBB-478B-8940-7B14BCE39030".to_string(),
            ),
        ],
        "Apple-Mail=_D5EF70C3-5230-4B9A-A34D-20255319DA45".to_string(),
    );
    assert!(tree_eq(&val, &expected_val));
}

#[test]
fn bodystruct_shape_and_boundaries() {
    let val = BodyStructure::parse(BS_STRING).unwrap();
    match &val {
        BodyStructure::Alternative(children, boundary) => {
            assert_eq!(boundary.as_str(), "Apple-Mail=_D5EF70C3-5230-4B9A-A34D-20255319DA45");
            assert_eq!(children.len(), 2);
            assert!(matches!(children[0], BodyStructure::Plain));
            match &children[1] {
                BodyStructure::Related(inner, inner_boundary) => {
                    assert_eq!(
                        inner_boundary.as_str(),
                        "Apple-Mail=_A6722D8A-5BBB-478B-8940-7B14BCE39030"
                    );
                    assert_eq!(inner.len(), 3);
                    assert!(matches!(inner[0], BodyStructure::Html));
                    assert!(matches!(inner[1], BodyStructure::Image(_)));
                    assert!(matches!(inner[2], BodyStructure::Image(_)));
                }
                other => panic!("expected a related part, got {:?}", other),
            }
        }
        other => panic!("expected an alternative root, got {:?}", other),
    }
}

#[test]
fn find_text_top_level_path() {
    let val = BodyStructure::parse(BS_STRING).unwrap();
    let path = val.find_text().unwrap();
    assert_eq!(path.as_str(), "1");
}

#[test]
fn find_text_nested_path() {
    let tree = BodyStructure::Alternative(
        vec![
            BodyStructure::Html,
            BodyStructure::Mixed(
                vec![BodyStructure::Html, BodyStructure::Plain],
                "b2".to_string(),
            ),
        ],
        "b1".to_string(),
    );
    assert_eq!(tree.find_text().unwrap().as_str(), "2.2");
}

#[test]
fn find_text_root_plain_is_one() {
    let tree = BodyStructure::Plain;
    assert_eq!(tree.find_text().unwrap().as_str(), "1");
}

#[test]
fn find_text_html_only_fails() {
    let tree = BodyStructure::Related(
        vec![
            BodyStructure::Html,
            BodyStructure::Image(FileMeta {
                file_type: "PNG".to_string(),
                name: "x.png".to_string(),
            }),
        ],
        "b".to_string(),
    );
    assert!(tree.find_text().is_none());
}

#[test]
fn malformed_bodystructure_is_rejected() {
    let res = BodyStructure::parse("(no parts at all here");
    assert!(matches!(res, Err(MailError::MalformedBodyStructure)));
}

const APP_STRING: &'static str = r#"* 5 FETCH (BODYSTRUCTURE (("TEXT" "PLAIN" ("CHARSET" "utf-8") NIL NIL "7BIT" 2 1 NIL NIL NIL)("APPLICATION" "PDF" ("NAME" "report.pdf") NIL NIL "BASE64" 100 NIL NIL NIL) "MIXED" ("BOUNDARY" "xyz") NIL NIL))
"#;

#[test]
fn application_leaf_is_recognized() {
    let val = BodyStructure::parse(APP_STRING).unwrap();
    let expected = BodyStructure::Mixed(
        vec![
            BodyStructure::Plain,
            BodyStructure::Application(FileMeta {
                file_type: "PDF".to_string(),
                name: "report.pdf".to_string(),
            }),
        ],
        "xyz".to_string(),
    );
    assert!(tree_eq(&val, &expected));
    assert_eq!(val.find_text().unwrap().as_str(), "1");
}

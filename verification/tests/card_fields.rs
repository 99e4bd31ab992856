use piney::tokens::CardValue;
use piney::versions::{extract_card_fields, split_tags, CardFields, TagDecision};

fn obj(fields: Vec<(&str, CardValue)>) -> CardValue {
    CardValue::Object(fields.into_iter().map(|(k, v)| (k.to_string(), v)).collect())
}

fn text(s: &str) -> CardValue {
    CardValue::Text(s.to_string())
}

#[test]
fn fields_come_from_the_data_object_when_present() {
    let card = obj(vec![
        ("spec", text("chara_card_v2")),
        ("spec_version", text("2.0")),
        ("name", text("root-name")),
        (
            "data",
            obj(vec![
                ("name", text("data-name")),
                ("description", text("a card")),
                ("creator_notes", text("notes-author")),
                ("tags", text(" fantasy, ,long term , ")),
            ]),
        ),
    ]);
    let f: CardFields = extract_card_fields(&card);
    assert_eq!(f.name, Some("data-name".to_string()));
    assert_eq!(f.description, Some("a card".to_string()));
    assert_eq!(f.author, Some("notes-author".to_string()));
    assert_eq!(f.spec_name, Some("chara_card_v2".to_string()));
    assert_eq!(f.spec_version, Some("2.0".to_string()));
    match f.tags {
        TagDecision::SplitText(pieces) => {
            assert_eq!(pieces, vec!["fantasy".to_string(), "long term".to_string()]);
        }
        _ => panic!("expected a comma-split tag text"),
    }
}

#[test]
fn root_fields_are_used_without_a_data_object() {
    let card = obj(vec![
        ("name", text("only-root")),
        ("creator", text("direct-author")),
        ("creator_notes", text("fallback-author")),
        ("tags", CardValue::List(vec![text("kept")])),
    ]);
    let f = extract_card_fields(&card);
    assert_eq!(f.name, Some("only-root".to_string()));
    assert_eq!(f.author, Some("direct-author".to_string()));
    assert!(f.description.is_none());
    assert!(f.spec_name.is_none());
    assert!(matches!(f.tags, TagDecision::KeepList));
}

#[test]
fn missing_or_odd_tags_yield_no_tags() {
    let f = extract_card_fields(&obj(vec![("name", text("n"))]));
    assert!(matches!(f.tags, TagDecision::NoTags));
    let f2 = extract_card_fields(&obj(vec![
        ("name", text("n")),
        ("tags", CardValue::Truth(true)),
    ]));
    assert!(matches!(f2.tags, TagDecision::NoTags));
}

#[test]
fn tag_splitting_trims_and_drops_empty_pieces() {
    let split = |s: &str| split_tags(&s.to_string());
    assert_eq!(split("a,b,c"), vec!["a", "b", "c"]);
    assert_eq!(split(" a , b ,, c "), vec!["a", "b", "c"]);
    assert_eq!(split(""), Vec::<String>::new());
    assert_eq!(split(" , ,"), Vec::<String>::new());
    assert_eq!(split("solo"), vec!["solo"]);
    assert_eq!(split("trailing,"), vec!["trailing"]);
}

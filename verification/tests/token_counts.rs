use piney::response::TokenCounts;
use piney::tokens::{calculate_card_tokens, card_token_counts, CardValue};

fn obj(fields: Vec<(&str, CardValue)>) -> CardValue {
    CardValue::Object(fields.into_iter().map(|(k, v)| (k.to_string(), v)).collect())
}

fn text(s: &str) -> CardValue {
    CardValue::Text(s.to_string())
}

fn bpe(s: &str) -> i32 {
    tiktoken_rs::cl100k_base_singleton()
        .encode_with_special_tokens(s)
        .len() as i32
}

#[test]
fn card_counts_follow_the_tokenizer() {
    let card = obj(vec![
        ("name", text("Rin")),
        ("description", text("Hello world")),
        ("personality", text("")),
        ("talkativeness", CardValue::Number("0.5".to_string())),
        (
            "data",
            obj(vec![
                ("description", text("Hello world")),
                (
                    "alternate_greetings",
                    CardValue::List(vec![text("Hi"), text("Hello world"), text("")]),
                ),
                (
                    "character_book",
                    obj(vec![(
                        "entries",
                        CardValue::List(vec![obj(vec![
                            ("content", text("Ancient lore")),
                            ("enabled", CardValue::Truth(true)),
                        ])]),
                    )]),
                ),
            ]),
        ),
        ("regex_scripts", obj(vec![("find", text("ignored text"))])),
    ]);
    let counts: TokenCounts = calculate_card_tokens(&card);
    let spec_expected = bpe("Hello world") + bpe("0.5") + bpe("Hi");
    let wb_expected = bpe("Ancient lore");
    let total_expected =
        bpe("Rin") + bpe("Hello world") + bpe("0.5") + bpe("Hi") + bpe("Ancient lore") + bpe("true");
    assert_eq!(counts.spec_tokens, spec_expected);
    assert_eq!(counts.wb, wb_expected);
    assert_eq!(counts.total, total_expected);
    assert_eq!(
        counts.other,
        (total_expected - spec_expected - wb_expected).max(0)
    );
}

#[test]
fn duplicate_texts_are_counted_once() {
    let card = obj(vec![
        ("description", text("Same text")),
        ("personality", text("Same text")),
        ("scenario", text("Same text")),
    ]);
    let counts = card_token_counts(&card).expect("counts fit");
    assert_eq!(counts.spec_tokens, bpe("Same text"));
    assert_eq!(counts.total, bpe("Same text"));
    assert_eq!(counts.wb, 0);
    assert_eq!(counts.other, 0);
}

#[test]
fn empty_card_counts_nothing() {
    let counts = card_token_counts(&obj(vec![])).expect("counts fit");
    assert_eq!(counts.total, 0);
    assert_eq!(counts.spec_tokens, 0);
    assert_eq!(counts.wb, 0);
    assert_eq!(counts.other, 0);
}

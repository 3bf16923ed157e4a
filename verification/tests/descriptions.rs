use elytra_ping::parse::{FancyText, ServerPlayersSample, TextComponent};

fn plain(s: &str) -> TextComponent {
    TextComponent::Plain(s.to_string())
}

#[test]
fn anonymous_players() {
    let no_id = ServerPlayersSample { name: Some("steve".to_string()), id: None };
    assert!(no_id.is_anonymous());

    let zero = ServerPlayersSample {
        name: Some("steve".to_string()),
        id: Some("00000000-0000-0000-0000-000000000000".to_string()),
    };
    assert!(zero.is_anonymous());

    let real = ServerPlayersSample {
        name: Some("steve".to_string()),
        id: Some("11111111-2222-3333-4444-555555555555".to_string()),
    };
    assert!(!real.is_anonymous());
}

#[test]
fn fancy_from_plain() {
    let fancy = FancyText::from_component(plain("hi"));
    assert_eq!(fancy.text.as_deref(), Some("hi"));
    assert!(fancy.color.is_none());
    assert!(fancy.extra.is_none());
}

#[test]
fn fancy_from_fancy_is_identity() {
    let node = FancyText {
        text: Some("hi".to_string()),
        color: Some("red".to_string()),
        bold: Some(true),
        italic: None,
        underlined: None,
        strikethrough: None,
        obfuscated: None,
        extra: None,
    };
    let out = FancyText::from_component(TextComponent::Fancy(node));
    assert_eq!(out.text.as_deref(), Some("hi"));
    assert_eq!(out.color.as_deref(), Some("red"));
    assert_eq!(out.bold, Some(true));
}

#[test]
fn fancy_from_empty_list_is_default() {
    let out = FancyText::from_component(TextComponent::Extra(Vec::new()));
    assert!(out.text.is_none());
    assert!(out.color.is_none());
    assert!(out.extra.is_none());
}

#[test]
fn fancy_from_list_folds_into_first() {
    let out = FancyText::from_component(TextComponent::Extra(vec![
        plain("a"),
        plain("b"),
        plain("c"),
    ]));
    assert_eq!(out.text.as_deref(), Some("a"));
    assert_eq!(out.extra, Some(vec![plain("b"), plain("c")]));
}

#[test]
fn fancy_from_list_keeps_existing_children() {
    let first = FancyText {
        text: Some("head".to_string()),
        color: None,
        bold: None,
        italic: None,
        underlined: None,
        strikethrough: None,
        obfuscated: None,
        extra: Some(vec![plain("old")]),
    };
    let out = FancyText::from_component(TextComponent::Extra(vec![
        TextComponent::Fancy(first),
        plain("new"),
    ]));
    assert_eq!(out.text.as_deref(), Some("head"));
    assert_eq!(out.extra, Some(vec![plain("old"), plain("new")]));
}

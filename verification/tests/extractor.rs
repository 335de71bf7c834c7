use puml::events::MdEvent;
use puml::machine::{extract, Slot};
use puml::render::{splice, strip_preamble, wrap_figure, RenderOutcome};

#[test]
fn extractor_gathers_segmented_text() {
    let events = vec![
        MdEvent::FencedStart("plantuml".to_string()),
        MdEvent::Text("a".to_string()),
        MdEvent::Text("b".to_string()),
        MdEvent::FencedEnd,
    ];
    let (slots, blocks) = extract(events);
    assert_eq!(blocks, vec!["ab".to_string()]);
    assert_eq!(slots.len(), 1);
    assert!(matches!(slots[0], Slot::Block(0)));
}

#[test]
fn extractor_leaves_other_fences() {
    let events = vec![
        MdEvent::FencedStart("rust".to_string()),
        MdEvent::Text("code".to_string()),
        MdEvent::FencedEnd,
    ];
    let (slots, blocks) = extract(events);
    assert_eq!(blocks.len(), 0);
    assert_eq!(slots.len(), 3);
    assert!(matches!(slots[0], Slot::Ev(MdEvent::FencedStart(_))));
    assert!(matches!(slots[2], Slot::Ev(MdEvent::FencedEnd)));
}

#[test]
fn extractor_numbers_blocks_in_source_order() {
    let events = vec![
        MdEvent::FencedStart("plantuml".to_string()),
        MdEvent::Text("one".to_string()),
        MdEvent::FencedEnd,
        MdEvent::Text("between".to_string()),
        MdEvent::FencedStart("plantuml".to_string()),
        MdEvent::Text("two".to_string()),
        MdEvent::FencedEnd,
    ];
    let (slots, blocks) = extract(events);
    assert_eq!(blocks, vec!["one".to_string(), "two".to_string()]);
    assert_eq!(slots.len(), 3);
    assert!(matches!(slots[0], Slot::Block(0)));
    assert!(matches!(slots[1], Slot::Ev(MdEvent::Text(_))));
    assert!(matches!(slots[2], Slot::Block(1)));
}

#[test]
fn extractor_drops_unterminated_block() {
    let events = vec![
        MdEvent::FencedStart("plantuml".to_string()),
        MdEvent::Text("lost".to_string()),
    ];
    let (slots, blocks) = extract(events);
    assert_eq!(blocks.len(), 0);
    assert_eq!(slots.len(), 0);
}

#[test]
fn splice_mixed_outcomes() {
    let slots = vec![
        Slot::Ev(MdEvent::Text("lead".to_string())),
        Slot::Block(0),
        Slot::Block(1),
        Slot::Ev(MdEvent::Text("tail".to_string())),
    ];
    let outcomes = vec![
        RenderOutcome::SpawnFailed("gone".to_string()),
        RenderOutcome::Success(b"<svg/>".to_vec()),
    ];
    let spliced = splice(slots, &outcomes);
    assert_eq!(spliced.len(), 3);
    assert!(matches!(&spliced[0], MdEvent::Text(t) if t == "lead"));
    assert!(matches!(&spliced[1], MdEvent::RawHtml(h) if h == "<figure><svg/></figure>\n\n"));
    assert!(matches!(&spliced[2], MdEvent::Text(t) if t == "tail"));
}

#[test]
fn strip_preamble_exact() {
    let preamble = "<?xml version=\"1.0\" encoding=\"UTF-8\" standalone=\"no\"?>";
    assert_eq!(
        strip_preamble(&format!("{}<svg/>", preamble)),
        "<svg/>".to_string()
    );
    assert_eq!(strip_preamble("no preamble here"), "no preamble here");
    assert_eq!(
        strip_preamble(&format!("ab{}cd", preamble)),
        "abcd".to_string()
    );
    // only the first occurrence goes
    assert_eq!(
        strip_preamble(&format!("{}X{}", preamble, preamble)),
        format!("X{}", preamble)
    );
    // a near miss stays
    assert_eq!(
        strip_preamble("<?xml version=\"1.0\"?>"),
        "<?xml version=\"1.0\"?>".to_string()
    );
}

#[test]
fn wrap_figure_exact() {
    assert_eq!(wrap_figure("<svg/>"), "<figure><svg/></figure>\n\n".to_string());
    assert_eq!(wrap_figure(""), "<figure></figure>\n\n".to_string());
}

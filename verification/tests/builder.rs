use xml_tree::Event;
use xml_tree::ParseError;
use xml_tree::XmlItem;
use xml_tree::read_xml;

fn start(name: &str, attrs: &[(&str, &str)]) -> Event {
    Event::StartElement {
        name: name.to_string(),
        attributes: attrs.iter().map(|(k, v)| (k.to_string(), v.to_string())).collect(),
    }
}

fn end(name: &str) -> Event {
    Event::EndElement { name: name.to_string() }
}

fn text(t: &str) -> Event {
    Event::Text(t.to_string())
}

#[test]
fn empty_document_yields_no_roots() {
    let events = vec![Event::StartDocument, Event::EndDocument];
    let roots = read_xml(&events).unwrap();
    assert_eq!(roots.len(), 0);
}

#[test]
fn single_element_keeps_its_name() {
    let events = vec![Event::StartDocument, start("a", &[]), end("a"), Event::EndDocument];
    let roots = read_xml(&events).unwrap();
    assert_eq!(roots.len(), 1);
    assert_eq!(roots[0].name, "a");
    assert_eq!(roots[0].data, "");
    assert!(roots[0].attributes.is_empty());
    assert!(roots[0].children.is_empty());
}

#[test]
fn multiple_roots_are_permitted() {
    let events = vec![
        Event::StartDocument,
        start("a", &[]),
        end("a"),
        start("b", &[]),
        end("b"),
        Event::EndDocument,
    ];
    let roots = read_xml(&events).unwrap();
    assert_eq!(roots.len(), 2);
    assert_eq!(roots[0].name, "a");
    assert_eq!(roots[1].name, "b");
}

#[test]
fn attribute_dedup_keeps_first_occurrence() {
    let events = vec![
        Event::StartDocument,
        start("e", &[("a", "1"), ("b", "2"), ("a", "3")]),
        end("e"),
        Event::EndDocument,
    ];
    let roots = read_xml(&events).unwrap();
    assert_eq!(
        roots[0].attributes,
        vec![("a".to_string(), "1".to_string()), ("b".to_string(), "2".to_string())]
    );
}

#[test]
fn text_runs_concatenate_in_document_order() {
    let events = vec![
        Event::StartDocument,
        start("x", &[]),
        text("Hello "),
        start("y", &[]),
        text("inner"),
        end("y"),
        text("world"),
        end("x"),
        Event::EndDocument,
    ];
    let roots = read_xml(&events).unwrap();
    assert_eq!(roots[0].data, "Hello world");
    assert_eq!(roots[0].children.len(), 1);
    assert_eq!(roots[0].children[0].name, "y");
    assert_eq!(roots[0].children[0].data, "inner");
}

#[test]
fn empty_text_run_adds_nothing() {
    let events = vec![
        Event::StartDocument,
        start("x", &[]),
        text("Hello "),
        text(""),
        end("x"),
        Event::EndDocument,
    ];
    let roots = read_xml(&events).unwrap();
    assert_eq!(roots[0].data, "Hello ");
}

#[test]
fn trivia_is_skipped_everywhere() {
    let events = vec![
        Event::StartDocument,
        Event::Trivia,
        start("a", &[]),
        Event::Trivia,
        end("a"),
        Event::Trivia,
        Event::EndDocument,
    ];
    let roots = read_xml(&events).unwrap();
    assert_eq!(roots.len(), 1);
    assert_eq!(roots[0].data, "");
    assert!(roots[0].children.is_empty());
}

#[test]
fn nested_children_keep_document_order() {
    let events = vec![
        Event::StartDocument,
        start("r", &[]),
        start("a", &[]),
        end("a"),
        start("b", &[]),
        start("c", &[]),
        end("c"),
        end("b"),
        Event::Trivia,
        start("d", &[]),
        end("d"),
        end("r"),
        Event::EndDocument,
    ];
    let roots = read_xml(&events).unwrap();
    assert_eq!(roots.len(), 1);
    let names: Vec<&str> = roots[0].children.iter().map(|c| c.name.as_str()).collect();
    assert_eq!(names, vec!["a", "b", "d"]);
    assert_eq!(roots[0].children[1].children[0].name, "c");
}

#[test]
fn premature_end_when_events_run_out() {
    let events = vec![Event::StartDocument, start("a", &[])];
    assert_eq!(read_xml(&events), Err(ParseError::PrematureEnd));
}

#[test]
fn premature_end_without_document_end() {
    let events: Vec<Event> = vec![Event::StartDocument];
    assert_eq!(read_xml(&events), Err(ParseError::PrematureEnd));
}

#[test]
fn mismatched_close_reports_both_names() {
    let events = vec![Event::StartDocument, start("a", &[]), end("b")];
    assert_eq!(
        read_xml(&events),
        Err(ParseError::MismatchedEndElement {
            expected: "a".to_string(),
            found: "b".to_string(),
        })
    );
}

#[test]
fn text_outside_any_element_is_rejected() {
    let events = vec![Event::StartDocument, text("loose"), Event::EndDocument];
    assert_eq!(read_xml(&events), Err(ParseError::TextOutsideElement));
}

#[test]
fn unmatched_end_element_is_rejected() {
    let events = vec![Event::StartDocument, end("a"), Event::EndDocument];
    assert_eq!(read_xml(&events), Err(ParseError::UnmatchedEndElement));
}

#[test]
fn second_document_start_at_top_level_is_rejected() {
    let events = vec![Event::StartDocument, Event::StartDocument, Event::EndDocument];
    assert_eq!(read_xml(&events), Err(ParseError::UnexpectedDocumentStart));
}

#[test]
fn document_start_inside_an_element_is_rejected() {
    let events = vec![
        Event::StartDocument,
        start("a", &[]),
        Event::StartDocument,
        end("a"),
        Event::EndDocument,
    ];
    assert_eq!(read_xml(&events), Err(ParseError::UnexpectedDocumentStart));
}

#[test]
fn document_end_inside_an_element_is_rejected() {
    let events = vec![Event::StartDocument, start("a", &[]), Event::EndDocument];
    assert_eq!(read_xml(&events), Err(ParseError::UnexpectedDocumentBoundary));
}

#[test]
fn nesting_past_the_depth_bound_is_rejected() {
    let mut events = vec![Event::StartDocument];
    for _ in 0..501 {
        events.push(start("d", &[]));
    }
    assert_eq!(read_xml(&events), Err(ParseError::DepthExceeded));
}

#[test]
fn nesting_at_the_depth_bound_is_accepted() {
    let mut events = vec![Event::StartDocument];
    for _ in 0..500 {
        events.push(start("d", &[]));
    }
    for _ in 0..500 {
        events.push(end("d"));
    }
    events.push(Event::EndDocument);
    let roots = read_xml(&events).unwrap();
    assert_eq!(roots.len(), 1);
}

#[test]
fn first_error_wins_over_later_content() {
    let events = vec![
        Event::StartDocument,
        start("a", &[]),
        end("b"),
        start("c", &[]),
        end("c"),
        Event::EndDocument,
    ];
    assert_eq!(
        read_xml(&events),
        Err(ParseError::MismatchedEndElement {
            expected: "a".to_string(),
            found: "b".to_string(),
        })
    );
}

#[test]
fn parsing_twice_yields_equal_trees() {
    let events = vec![
        Event::StartDocument,
        start("r", &[("k", "v"), ("k", "w")]),
        text("one "),
        start("a", &[]),
        text("two"),
        end("a"),
        text("three"),
        end("r"),
        Event::EndDocument,
    ];
    let first = read_xml(&events).unwrap();
    let second = read_xml(&events).unwrap();
    assert_eq!(first, second);
}

#[test]
fn dedup_attributes_drops_later_duplicates_only() {
    let attrs = vec![
        ("a".to_string(), "1".to_string()),
        ("b".to_string(), "2".to_string()),
        ("a".to_string(), "3".to_string()),
        ("c".to_string(), "4".to_string()),
        ("b".to_string(), "5".to_string()),
    ];
    let kept = XmlItem::dedup_attributes(&attrs);
    assert_eq!(
        kept,
        vec![
            ("a".to_string(), "1".to_string()),
            ("b".to_string(), "2".to_string()),
            ("c".to_string(), "4".to_string()),
        ]
    );
}

use xml_tree::Event;
use xml_tree::ParseError;
use xml_tree::get_events;
use xml_tree::read_xml;

#[test]
fn tokenizer_produces_document_markers() {
    let events = get_events(b"<a/>").unwrap();
    assert_eq!(events.first(), Some(&Event::StartDocument));
    assert_eq!(events.last(), Some(&Event::EndDocument));
}

#[test]
fn simple_document_parses_end_to_end() {
    let events = get_events(b"<a b=\"1\">hi</a>").unwrap();
    let roots = read_xml(&events).unwrap();
    assert_eq!(roots.len(), 1);
    assert_eq!(roots[0].name, "a");
    assert_eq!(roots[0].data, "hi");
    assert_eq!(roots[0].attributes, vec![("b".to_string(), "1".to_string())]);
}

#[test]
fn namespace_prefixes_are_stripped_to_local_names() {
    let doc = b"<x:a xmlns:x=\"urn:example\" x:b=\"2\"><x:c/></x:a>";
    let events = get_events(doc).unwrap();
    let roots = read_xml(&events).unwrap();
    assert_eq!(roots[0].name, "a");
    assert_eq!(roots[0].attributes, vec![("b".to_string(), "2".to_string())]);
    assert_eq!(roots[0].children[0].name, "c");
}

#[test]
fn nested_elements_and_text_survive_the_round_trip() {
    let doc = b"<list><item>one</item><item>two</item></list>";
    let events = get_events(doc).unwrap();
    let roots = read_xml(&events).unwrap();
    assert_eq!(roots.len(), 1);
    assert_eq!(roots[0].children.len(), 2);
    assert_eq!(roots[0].children[0].data, "one");
    assert_eq!(roots[0].children[1].data, "two");
}

#[test]
fn comments_and_processing_instructions_become_trivia() {
    let doc = b"<?xml version=\"1.0\"?><a><!-- note --><?target data?></a>";
    let events = get_events(doc).unwrap();
    assert!(events.contains(&Event::Trivia));
    let roots = read_xml(&events).unwrap();
    assert_eq!(roots[0].data, "");
    assert!(roots[0].children.is_empty());
}

#[test]
fn entities_are_unescaped_by_the_tokenizer() {
    let events = get_events(b"<a>x &amp; y</a>").unwrap();
    let roots = read_xml(&events).unwrap();
    assert_eq!(roots[0].data, "x & y");
}

#[test]
fn truncated_input_is_a_tokenize_failure() {
    let result = get_events(b"<a>");
    match result {
        Err(ParseError::TokenizeFailure(_)) => {},
        other => panic!("expected a tokenize failure, got {other:?}"),
    }
}

#[test]
fn mismatched_tags_are_caught_by_the_tokenizer() {
    let result = get_events(b"<a></b>");
    match result {
        Err(ParseError::TokenizeFailure(_)) => {},
        other => panic!("expected a tokenize failure, got {other:?}"),
    }
}

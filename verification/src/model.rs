//! The mathematical model of the builder: ghost trees, the attribute
//! dedup policy, and a step-indexed interpreter of the event sequence
//! that the executable builder is proved to agree with exactly.

use vstd::prelude::*;
use crate::events::Event;
use crate::events::ParseError;

verus! {

/// Deepest element nesting the builder accepts; one level further fails
/// with [`ParseError::DepthExceeded`].
pub const MAX_DEPTH: usize = 500;

/// The ghost image of one built node: name, accumulated direct text,
/// deduplicated attributes in first-occurrence order, and children in
/// document order.
#[verifier::ext_equal]
pub struct NodeS {
    pub name: Seq<char>,
    pub data: Seq<char>,
    pub attributes: Seq<(Seq<char>, Seq<char>)>,
    pub children: Seq<NodeS>,
}

/// The ghost image of a structural error.
pub enum ErrorS {
    UnexpectedDocumentStart,
    UnexpectedDocumentBoundary,
    TextOutsideElement,
    UnmatchedEndElement,
    MismatchedEndElement { expected: Seq<char>, found: Seq<char> },
    PrematureEnd,
    DepthExceeded,
}

/// Outcome of interpreting one open-element frame: the finished node and
/// the index just past its closing tag, a structural error, or fuel ran
/// out (never reached when the fuel exceeds the events left).
pub enum FrameRes {
    Done { node: NodeS, next: int },
    Fail { err: ErrorS },
    OutOfFuel,
}

/// Outcome of interpreting the whole document: the root nodes in
/// document order, a structural error, or fuel ran out.
pub enum DocRes {
    Done { roots: Seq<NodeS> },
    Fail { err: ErrorS },
    OutOfFuel,
}

/// The views of a sequence of owned attribute pairs.
pub open spec fn pairs_view(s: Seq<(String, String)>) -> Seq<(Seq<char>, Seq<char>)> {
    s.map_values(|p: (String, String)| (p.0@, p.1@))
}

/// Does some pair in `s` carry the attribute name `k`?
pub open spec fn key_in(s: Seq<(String, String)>, k: Seq<char>) -> bool {
    exists|j: int| 0 <= j < s.len() && s[j].0@ == k
}

/// First-occurrence-wins deduplication of an attribute list: a pair is
/// kept exactly when no earlier pair has the same name, and the kept
/// pairs stay in document order.
pub open spec fn dedup_first(s: Seq<(String, String)>) -> Seq<(Seq<char>, Seq<char>)>
    decreases s.len(),
{
    if s.len() == 0 {
        Seq::empty()
    } else {
        let front = s.drop_last();
        let kept = dedup_first(front);
        if key_in(front, s.last().0@) {
            kept
        } else {
            kept.push((s.last().0@, s.last().1@))
        }
    }
}

/// The node a fresh element-start opens: named, attributes deduplicated,
/// no text and no children yet.
pub open spec fn node_from(name: Seq<char>, attrs: Seq<(String, String)>) -> NodeS {
    NodeS {
        name: name,
        data: Seq::empty(),
        attributes: dedup_first(attrs),
        children: Seq::empty(),
    }
}

/// Interprets the events of one open element, starting just after its
/// element-start. `cur` is the node built so far, `depth` how many more
/// nesting levels may open below this one. Consumes events until the
/// matching element-end; text runs concatenate onto `cur.data` in
/// document order, trivia is skipped, a nested element-start builds a
/// child frame whose node is appended to `cur.children`.
pub open spec fn frame_spec(events: Seq<Event>, i: int, cur: NodeS, depth: int, fuel: nat) -> FrameRes
    decreases fuel,
{
    if fuel == 0 {
        FrameRes::OutOfFuel
    } else if !(0 <= i < events.len()) {
        FrameRes::Fail { err: ErrorS::PrematureEnd }
    } else {
        match events[i] {
            Event::StartDocument => FrameRes::Fail { err: ErrorS::UnexpectedDocumentStart },
            Event::EndDocument => FrameRes::Fail { err: ErrorS::UnexpectedDocumentBoundary },
            Event::Trivia => frame_spec(events, i + 1, cur, depth, (fuel - 1) as nat),
            Event::Text(t) => frame_spec(
                events,
                i + 1,
                NodeS { data: cur.data + t@, ..cur },
                depth,
                (fuel - 1) as nat,
            ),
            Event::EndElement { name } => if name@ == cur.name {
                FrameRes::Done { node: cur, next: i + 1 }
            } else {
                FrameRes::Fail {
                    err: ErrorS::MismatchedEndElement { expected: cur.name, found: name@ },
                }
            },
            Event::StartElement { name, attributes } => if depth <= 0 {
                FrameRes::Fail { err: ErrorS::DepthExceeded }
            } else {
                match frame_spec(
                    events,
                    i + 1,
                    node_from(name@, attributes@),
                    depth - 1,
                    (fuel - 1) as nat,
                ) {
                    FrameRes::Done { node, next } => frame_spec(
                        events,
                        next,
                        NodeS { children: cur.children.push(node), ..cur },
                        depth,
                        (fuel - 1) as nat,
                    ),
                    FrameRes::Fail { err } => FrameRes::Fail { err },
                    FrameRes::OutOfFuel => FrameRes::OutOfFuel,
                }
            },
        }
    }
}

/// Interprets the top level of the document from index `i`: roots built
/// so far in `roots`, and whether a document-start has been seen.
/// Document-end yields the roots; a second document-start, top-level
/// text, and top-level element-ends are the structural errors of the
/// top level.
pub open spec fn doc_spec(events: Seq<Event>, i: int, roots: Seq<NodeS>, seen_start: bool, fuel: nat) -> DocRes
    decreases fuel,
{
    if fuel == 0 {
        DocRes::OutOfFuel
    } else if !(0 <= i < events.len()) {
        DocRes::Fail { err: ErrorS::PrematureEnd }
    } else {
        match events[i] {
            Event::StartDocument => if seen_start {
                DocRes::Fail { err: ErrorS::UnexpectedDocumentStart }
            } else {
                doc_spec(events, i + 1, roots, true, (fuel - 1) as nat)
            },
            Event::EndDocument => DocRes::Done { roots },
            Event::Trivia => doc_spec(events, i + 1, roots, seen_start, (fuel - 1) as nat),
            Event::Text(t) => DocRes::Fail { err: ErrorS::TextOutsideElement },
            Event::EndElement { name } => DocRes::Fail { err: ErrorS::UnmatchedEndElement },
            Event::StartElement { name, attributes } => match frame_spec(
                events,
                i + 1,
                node_from(name@, attributes@),
                MAX_DEPTH - 1,
                (fuel - 1) as nat,
            ) {
                FrameRes::Done { node, next } => doc_spec(
                    events,
                    next,
                    roots.push(node),
                    seen_start,
                    (fuel - 1) as nat,
                ),
                FrameRes::Fail { err } => DocRes::Fail { err },
                FrameRes::OutOfFuel => DocRes::OutOfFuel,
            },
        }
    }
}

/// Fuel that always suffices from index `i`: one unit per event left,
/// and one more for the final step.
pub open spec fn enough_fuel(events: Seq<Event>, i: int) -> nat {
    (events.len() - i + 1) as nat
}

/// The frame interpreter at its canonical (always sufficient) fuel.
pub open spec fn frame_at(events: Seq<Event>, i: int, cur: NodeS, depth: int) -> FrameRes {
    frame_spec(events, i, cur, depth, enough_fuel(events, i))
}

/// The top-level interpreter at its canonical (always sufficient) fuel.
pub open spec fn doc_at(events: Seq<Event>, i: int, roots: Seq<NodeS>, seen_start: bool) -> DocRes {
    doc_spec(events, i, roots, seen_start, enough_fuel(events, i))
}

/// What parsing an event sequence means: the whole-document
/// interpretation from the start, with nothing built and no
/// document-start seen yet. Every result of [`crate::read_xml`] agrees
/// with this function.
pub open spec fn parse_spec(events: Seq<Event>) -> DocRes {
    doc_at(events, 0, Seq::empty(), false)
}

/// A finished frame consumed at least one event and stopped within the
/// sequence: its `next` index lies strictly beyond where it started and
/// no further than the end.
pub proof fn lemma_frame_progress(events: Seq<Event>, i: int, cur: NodeS, depth: int, fuel: nat)
    ensures
        frame_spec(events, i, cur, depth, fuel) matches FrameRes::Done { node, next } ==> i
            < next <= events.len(),
    decreases fuel,
{
    if fuel > 0 && 0 <= i < events.len() {
        match events[i] {
            Event::Trivia => {
                lemma_frame_progress(events, i + 1, cur, depth, (fuel - 1) as nat);
            },
            Event::Text(t) => {
                lemma_frame_progress(
                    events,
                    i + 1,
                    NodeS { data: cur.data + t@, ..cur },
                    depth,
                    (fuel - 1) as nat,
                );
            },
            Event::StartElement { name, attributes } => {
                if depth > 0 {
                    let child = node_from(name@, attributes@);
                    lemma_frame_progress(events, i + 1, child, depth - 1, (fuel - 1) as nat);
                    match frame_spec(events, i + 1, child, depth - 1, (fuel - 1) as nat) {
                        FrameRes::Done { node, next } => {
                            lemma_frame_progress(
                                events,
                                next,
                                NodeS { children: cur.children.push(node), ..cur },
                                depth,
                                (fuel - 1) as nat,
                            );
                        },
                        _ => {},
                    }
                }
            },
            _ => {},
        }
    }
}

/// Any two fuels that exceed the number of events left give the frame
/// interpreter the same result, and that result is never out of fuel.
pub proof fn lemma_frame_fuel(
    events: Seq<Event>,
    i: int,
    cur: NodeS,
    depth: int,
    f1: nat,
    f2: nat,
)
    requires
        0 <= i <= events.len(),
        f1 > events.len() - i,
        f2 > events.len() - i,
    ensures
        frame_spec(events, i, cur, depth, f1) == frame_spec(events, i, cur, depth, f2),
        !(frame_spec(events, i, cur, depth, f1) is OutOfFuel),
    decreases f1 + f2,
{
    if i < events.len() {
        match events[i] {
            Event::Trivia => {
                lemma_frame_fuel(events, i + 1, cur, depth, (f1 - 1) as nat, (f2 - 1) as nat);
            },
            Event::Text(t) => {
                lemma_frame_fuel(
                    events,
                    i + 1,
                    NodeS { data: cur.data + t@, ..cur },
                    depth,
                    (f1 - 1) as nat,
                    (f2 - 1) as nat,
                );
            },
            Event::StartElement { name, attributes } => {
                if depth > 0 {
                    let child = node_from(name@, attributes@);
                    lemma_frame_fuel(
                        events,
                        i + 1,
                        child,
                        depth - 1,
                        (f1 - 1) as nat,
                        (f2 - 1) as nat,
                    );
                    match frame_spec(events, i + 1, child, depth - 1, (f1 - 1) as nat) {
                        FrameRes::Done { node, next } => {
                            lemma_frame_progress(
                                events,
                                i + 1,
                                child,
                                depth - 1,
                                (f1 - 1) as nat,
                            );
                            lemma_frame_fuel(
                                events,
                                next,
                                NodeS { children: cur.children.push(node), ..cur },
                                depth,
                                (f1 - 1) as nat,
                                (f2 - 1) as nat,
                            );
                        },
                        _ => {},
                    }
                }
            },
            _ => {},
        }
    }
}

/// Any two fuels that exceed the number of events left give the
/// top-level interpreter the same result, and that result is never out
/// of fuel.
pub proof fn lemma_doc_fuel(
    events: Seq<Event>,
    i: int,
    roots: Seq<NodeS>,
    seen_start: bool,
    f1: nat,
    f2: nat,
)
    requires
        0 <= i <= events.len(),
        f1 > events.len() - i,
        f2 > events.len() - i,
    ensures
        doc_spec(events, i, roots, seen_start, f1) == doc_spec(events, i, roots, seen_start, f2),
        !(doc_spec(events, i, roots, seen_start, f1) is OutOfFuel),
    decreases f1 + f2,
{
    if i < events.len() {
        match events[i] {
            Event::StartDocument => {
                if !seen_start {
                    lemma_doc_fuel(events, i + 1, roots, true, (f1 - 1) as nat, (f2 - 1) as nat);
                }
            },
            Event::Trivia => {
                lemma_doc_fuel(
                    events,
                    i + 1,
                    roots,
                    seen_start,
                    (f1 - 1) as nat,
                    (f2 - 1) as nat,
                );
            },
            Event::StartElement { name, attributes } => {
                let child = node_from(name@, attributes@);
                lemma_frame_fuel(
                    events,
                    i + 1,
                    child,
                    MAX_DEPTH - 1,
                    (f1 - 1) as nat,
                    (f2 - 1) as nat,
                );
                match frame_spec(events, i + 1, child, MAX_DEPTH - 1, (f1 - 1) as nat) {
                    FrameRes::Done { node, next } => {
                        lemma_frame_progress(events, i + 1, child, MAX_DEPTH - 1, (f1 - 1) as nat);
                        lemma_doc_fuel(
                            events,
                            next,
                            roots.push(node),
                            seen_start,
                            (f1 - 1) as nat,
                            (f2 - 1) as nat,
                        );
                    },
                    _ => {},
                }
            },
            _ => {},
        }
    }
}

/// Does the executable error value depict the ghost error exactly?
pub open spec fn err_matches(e: ParseError, s: ErrorS) -> bool {
    match (e, s) {
        (ParseError::UnexpectedDocumentStart, ErrorS::UnexpectedDocumentStart) => true,
        (ParseError::UnexpectedDocumentBoundary, ErrorS::UnexpectedDocumentBoundary) => true,
        (ParseError::TextOutsideElement, ErrorS::TextOutsideElement) => true,
        (ParseError::UnmatchedEndElement, ErrorS::UnmatchedEndElement) => true,
        (
            ParseError::MismatchedEndElement { expected: e1, found: f1 },
            ErrorS::MismatchedEndElement { expected: e2, found: f2 },
        ) => e1@ == e2 && f1@ == f2,
        (ParseError::PrematureEnd, ErrorS::PrematureEnd) => true,
        (ParseError::DepthExceeded, ErrorS::DepthExceeded) => true,
        _ => false,
    }
}

} // verus!

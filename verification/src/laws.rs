//! The library's general guarantees, stated and proved as theorems over
//! the model: balanced input never trips the tag-matching errors,
//! attribute deduplication keeps exactly the first occurrence of each
//! name, every produced node has unique attribute names, and parsing is
//! deterministic.

use vstd::prelude::*;
use crate::events::Event;
use crate::events::ParseError;
use crate::builder::XmlItem;
use crate::builder::item_matches;
use crate::builder::item_wf;
use crate::builder::read_xml_post;
use crate::model::DocRes;
use crate::model::ErrorS;
use crate::model::FrameRes;
use crate::model::MAX_DEPTH;
use crate::model::NodeS;
use crate::model::dedup_first;
use crate::model::doc_spec;
use crate::model::enough_fuel;
use crate::model::err_matches;
use crate::model::frame_spec;
use crate::model::key_in;
use crate::model::node_from;
use crate::model::pairs_view;
use crate::model::parse_spec;

verus! {

/// Are the element tags of the sequence balanced from index `i`, with
/// the names of the currently open elements in `open_names` (innermost
/// last)? Every element-end must close the innermost open element, and
/// no element may stay open when the events run out or the document
/// ends.
pub open spec fn tags_balanced_from(events: Seq<Event>, i: int, open_names: Seq<Seq<char>>) -> bool
    decreases events.len() - i,
{
    if !(0 <= i < events.len()) {
        open_names.len() == 0
    } else {
        match events[i] {
            Event::StartElement { name, attributes } => tags_balanced_from(
                events,
                i + 1,
                open_names.push(name@),
            ),
            Event::EndElement { name } => open_names.len() > 0 && open_names.last() == name@
                && tags_balanced_from(events, i + 1, open_names.drop_last()),
            Event::EndDocument => open_names.len() == 0,
            _ => tags_balanced_from(events, i + 1, open_names),
        }
    }
}

/// Is the whole sequence balanced: every open tag has exactly one
/// matching close, correctly nested?
pub open spec fn tags_balanced(events: Seq<Event>) -> bool {
    tags_balanced_from(events, 0, Seq::empty())
}

proof fn lemma_frame_balanced(
    events: Seq<Event>,
    i: int,
    cur: NodeS,
    depth: int,
    fuel: nat,
    outer: Seq<Seq<char>>,
)
    requires
        tags_balanced_from(events, i, outer.push(cur.name)),
    ensures
        match frame_spec(events, i, cur, depth, fuel) {
            FrameRes::Done { node, next } => tags_balanced_from(events, next, outer),
            FrameRes::Fail { err } => err is UnexpectedDocumentStart || err is DepthExceeded,
            FrameRes::OutOfFuel => true,
        },
    decreases fuel,
{
    if fuel > 0 && 0 <= i < events.len() {
        match events[i] {
            Event::Trivia => {
                lemma_frame_balanced(events, i + 1, cur, depth, (fuel - 1) as nat, outer);
            },
            Event::Text(t) => {
                lemma_frame_balanced(
                    events,
                    i + 1,
                    NodeS { data: cur.data + t@, ..cur },
                    depth,
                    (fuel - 1) as nat,
                    outer,
                );
            },
            Event::EndElement { name } => {
                assert(outer.push(cur.name).drop_last() =~= outer);
            },
            Event::StartElement { name, attributes } => {
                if depth > 0 {
                    let child = node_from(name@, attributes@);
                    lemma_frame_balanced(
                        events,
                        i + 1,
                        child,
                        depth - 1,
                        (fuel - 1) as nat,
                        outer.push(cur.name),
                    );
                    match frame_spec(events, i + 1, child, depth - 1, (fuel - 1) as nat) {
                        FrameRes::Done { node, next } => {
                            lemma_frame_balanced(
                                events,
                                next,
                                NodeS { children: cur.children.push(node), ..cur },
                                depth,
                                (fuel - 1) as nat,
                                outer,
                            );
                        },
                        _ => {},
                    }
                }
            },
            _ => {},
        }
    }
}

proof fn lemma_doc_balanced(
    events: Seq<Event>,
    i: int,
    roots: Seq<NodeS>,
    seen_start: bool,
    fuel: nat,
)
    requires
        tags_balanced_from(events, i, Seq::empty()),
    ensures
        doc_spec(events, i, roots, seen_start, fuel) matches DocRes::Fail { err } ==> !(err
            is MismatchedEndElement) && !(err is UnmatchedEndElement),
    decreases fuel,
{
    if fuel > 0 && 0 <= i < events.len() {
        match events[i] {
            Event::StartDocument => {
                if !seen_start {
                    lemma_doc_balanced(events, i + 1, roots, true, (fuel - 1) as nat);
                }
            },
            Event::Trivia => {
                lemma_doc_balanced(events, i + 1, roots, seen_start, (fuel - 1) as nat);
            },
            Event::StartElement { name, attributes } => {
                let child = node_from(name@, attributes@);
                assert(Seq::<Seq<char>>::empty().push(name@) == Seq::empty().push(child.name));
                lemma_frame_balanced(
                    events,
                    i + 1,
                    child,
                    MAX_DEPTH - 1,
                    (fuel - 1) as nat,
                    Seq::empty(),
                );
                match frame_spec(events, i + 1, child, MAX_DEPTH - 1, (fuel - 1) as nat) {
                    FrameRes::Done { node, next } => {
                        lemma_doc_balanced(
                            events,
                            next,
                            roots.push(node),
                            seen_start,
                            (fuel - 1) as nat,
                        );
                    },
                    _ => {},
                }
            },
            _ => {},
        }
    }
}

/// **Balanced nesting.** On balanced input — every open tag has exactly
/// one matching close, correctly nested — the parse never reports a
/// mismatched or an unmatched element-end.
pub proof fn lemma_balanced_nesting(events: Seq<Event>)
    requires
        tags_balanced(events),
    ensures
        parse_spec(events) matches DocRes::Fail { err } ==> !(err is MismatchedEndElement)
            && !(err is UnmatchedEndElement),
{
    lemma_doc_balanced(events, 0, Seq::empty(), false, enough_fuel(events, 0));
}

/// **Name and attributes are fixed at creation.** Whatever events a
/// frame still consumes, the node it finishes with keeps the name and
/// the attributes it was opened with: only text and children are ever
/// added. In particular every finished node's name is the local name
/// carried by the element-start that opened it, since that is what
/// [`node_from`] starts the frame with.
pub proof fn lemma_name_fixed_at_creation(
    events: Seq<Event>,
    i: int,
    cur: NodeS,
    depth: int,
    fuel: nat,
)
    ensures
        frame_spec(events, i, cur, depth, fuel) matches FrameRes::Done { node, next } ==>
            node.name == cur.name && node.attributes == cur.attributes,
    decreases fuel,
{
    if fuel > 0 && 0 <= i < events.len() {
        match events[i] {
            Event::Trivia => {
                lemma_name_fixed_at_creation(events, i + 1, cur, depth, (fuel - 1) as nat);
            },
            Event::Text(t) => {
                lemma_name_fixed_at_creation(
                    events,
                    i + 1,
                    NodeS { data: cur.data + t@, ..cur },
                    depth,
                    (fuel - 1) as nat,
                );
            },
            Event::StartElement { name, attributes } => {
                if depth > 0 {
                    let child = node_from(name@, attributes@);
                    match frame_spec(events, i + 1, child, depth - 1, (fuel - 1) as nat) {
                        FrameRes::Done { node, next } => {
                            lemma_name_fixed_at_creation(
                                events,
                                next,
                                NodeS { children: cur.children.push(node), ..cur },
                                depth,
                                (fuel - 1) as nat,
                            );
                        },
                        _ => {},
                    }
                }
            },
            _ => {},
        }
    }
}

/// **Text runs accumulate.** A frame only ever appends to the text
/// gathered so far: whatever was accumulated when the frame stood at
/// `i` stays as a prefix of the finished node's text. Since the text
/// step of [`frame_spec`] appends each run in document order, a node's
/// text is the concatenation of the runs found directly inside it —
/// no run is discarded or overwritten.
pub proof fn lemma_text_runs_accumulate(
    events: Seq<Event>,
    i: int,
    cur: NodeS,
    depth: int,
    fuel: nat,
)
    ensures
        frame_spec(events, i, cur, depth, fuel) matches FrameRes::Done { node, next } ==>
            node.data.len() >= cur.data.len() && node.data.subrange(0, cur.data.len() as int)
                == cur.data,
    decreases fuel,
{
    if fuel > 0 && 0 <= i < events.len() {
        match events[i] {
            Event::Trivia => {
                lemma_text_runs_accumulate(events, i + 1, cur, depth, (fuel - 1) as nat);
            },
            Event::Text(t) => {
                let cur2 = NodeS { data: cur.data + t@, ..cur };
                lemma_text_runs_accumulate(events, i + 1, cur2, depth, (fuel - 1) as nat);
                match frame_spec(events, i + 1, cur2, depth, (fuel - 1) as nat) {
                    FrameRes::Done { node, next } => {
                        assert(cur2.data.subrange(0, cur.data.len() as int) =~= cur.data);
                        assert(node.data.subrange(0, cur.data.len() as int) =~= node.data.subrange(
                            0,
                            cur2.data.len() as int,
                        ).subrange(0, cur.data.len() as int));
                    },
                    _ => {},
                }
            },
            Event::EndElement { name } => {
                if name@ == cur.name {
                    assert(cur.data.subrange(0, cur.data.len() as int) =~= cur.data);
                }
            },
            Event::StartElement { name, attributes } => {
                if depth > 0 {
                    let child = node_from(name@, attributes@);
                    match frame_spec(events, i + 1, child, depth - 1, (fuel - 1) as nat) {
                        FrameRes::Done { node, next } => {
                            lemma_text_runs_accumulate(
                                events,
                                next,
                                NodeS { children: cur.children.push(node), ..cur },
                                depth,
                                (fuel - 1) as nat,
                            );
                        },
                        _ => {},
                    }
                }
            },
            _ => {},
        }
    }
}

/// A name occurs among the deduplicated attributes exactly when it
/// occurs somewhere in the raw attribute list.
pub proof fn lemma_dedup_keys(s: Seq<(String, String)>, k: Seq<char>)
    ensures
        key_in(s, k) <==> exists|m: int|
            0 <= m < dedup_first(s).len() && dedup_first(s)[m].0 == k,
    decreases s.len(),
{
    if s.len() > 0 {
        let front = s.drop_last();
        lemma_dedup_keys(front, k);
        let kept = dedup_first(front);
        if key_in(s, k) {
            let j = choose|j: int| 0 <= j < s.len() && s[j].0@ == k;
            if j < s.len() - 1 {
                assert(front[j].0@ == k);
                let m = choose|m: int| 0 <= m < kept.len() && kept[m].0 == k;
                assert(dedup_first(s)[m].0 == k);
            } else {
                if key_in(front, k) {
                    let m = choose|m: int| 0 <= m < kept.len() && kept[m].0 == k;
                    assert(dedup_first(s)[m].0 == k);
                } else {
                    assert(dedup_first(s)[kept.len() as int].0 == k);
                }
            }
        }
        if exists|m: int| 0 <= m < dedup_first(s).len() && dedup_first(s)[m].0 == k {
            let m = choose|m: int| 0 <= m < dedup_first(s).len() && dedup_first(s)[m].0 == k;
            if key_in(front, s.last().0@) {
                assert(kept[m].0 == k);
                let j = choose|j: int| 0 <= j < front.len() && front[j].0@ == k;
                assert(s[j].0@ == k);
            } else {
                if m < kept.len() {
                    let j = choose|j: int| 0 <= j < front.len() && front[j].0@ == k;
                    assert(s[j].0@ == k);
                } else {
                    assert(s[s.len() - 1].0@ == k);
                }
            }
        }
    }
}

/// **No duplicate names survive.** Two distinct entries of the
/// deduplicated attribute list never carry the same name.
pub proof fn lemma_dedup_unique(s: Seq<(String, String)>, m1: int, m2: int)
    requires
        0 <= m1 < m2 < dedup_first(s).len(),
    ensures
        dedup_first(s)[m1].0 != dedup_first(s)[m2].0,
    decreases s.len(),
{
    if s.len() > 0 {
        let front = s.drop_last();
        let kept = dedup_first(front);
        if key_in(front, s.last().0@) {
            lemma_dedup_unique(front, m1, m2);
        } else {
            if m2 < kept.len() {
                lemma_dedup_unique(front, m1, m2);
            } else {
                lemma_dedup_keys(front, kept[m1].0);
                assert(key_in(front, dedup_first(s)[m1].0));
            }
        }
    }
}

/// **First occurrence wins.** The first pair of the raw attribute list
/// to carry a given name appears unchanged in the deduplicated list;
/// by [`lemma_dedup_unique`] it is the only pair there with that name.
pub proof fn lemma_dedup_first_occurrence(s: Seq<(String, String)>, j: int)
    requires
        0 <= j < s.len(),
        forall|q: int| 0 <= q < j ==> s[q].0@ != s[j].0@,
    ensures
        exists|m: int|
            0 <= m < dedup_first(s).len() && dedup_first(s)[m] == (s[j].0@, s[j].1@),
    decreases s.len(),
{
    let front = s.drop_last();
    let kept = dedup_first(front);
    if j == s.len() - 1 {
        if key_in(front, s.last().0@) {
            let q = choose|q: int| 0 <= q < front.len() && front[q].0@ == s.last().0@;
            assert(s[q].0@ == s[j].0@);
            assert(false);
        } else {
            assert(dedup_first(s)[kept.len() as int] == (s[j].0@, s[j].1@));
        }
    } else {
        assert(forall|q: int| 0 <= q < j ==> front[q].0@ != front[j].0@);
        lemma_dedup_first_occurrence(front, j);
        let m = choose|m: int|
            0 <= m < kept.len() && kept[m] == (front[j].0@, front[j].1@);
        assert(dedup_first(s)[m] == (s[j].0@, s[j].1@));
    }
}

/// Every attribute name of `n` labels exactly one entry, and the same
/// holds in all of `n`'s descendants.
pub open spec fn node_wf(n: NodeS) -> bool
    decreases n,
{
    &&& forall|m1: int, m2: int|
        0 <= m1 < m2 < n.attributes.len() ==> n.attributes[m1].0 != n.attributes[m2].0
    &&& forall|j: int| 0 <= j < n.children.len() ==> node_wf(#[trigger] n.children[j])
}

proof fn lemma_node_from_wf(name: Seq<char>, attrs: Seq<(String, String)>)
    ensures
        node_wf(node_from(name, attrs)),
{
    assert forall|m1: int, m2: int|
        0 <= m1 < m2 < dedup_first(attrs).len() implies dedup_first(attrs)[m1].0
        != dedup_first(attrs)[m2].0 by {
        lemma_dedup_unique(attrs, m1, m2);
    }
}

proof fn lemma_frame_wf(events: Seq<Event>, i: int, cur: NodeS, depth: int, fuel: nat)
    requires
        node_wf(cur),
    ensures
        frame_spec(events, i, cur, depth, fuel) matches FrameRes::Done { node, next }
            ==> node_wf(node),
    decreases fuel,
{
    if fuel > 0 && 0 <= i < events.len() {
        match events[i] {
            Event::Trivia => {
                lemma_frame_wf(events, i + 1, cur, depth, (fuel - 1) as nat);
            },
            Event::Text(t) => {
                let cur2 = NodeS { data: cur.data + t@, ..cur };
                lemma_frame_wf(events, i + 1, cur2, depth, (fuel - 1) as nat);
            },
            Event::StartElement { name, attributes } => {
                if depth > 0 {
                    let child = node_from(name@, attributes@);
                    lemma_node_from_wf(name@, attributes@);
                    lemma_frame_wf(events, i + 1, child, depth - 1, (fuel - 1) as nat);
                    match frame_spec(events, i + 1, child, depth - 1, (fuel - 1) as nat) {
                        FrameRes::Done { node, next } => {
                            let cur2 = NodeS { children: cur.children.push(node), ..cur };
                            assert forall|j: int|
                                0 <= j < cur2.children.len() implies node_wf(
                                #[trigger] cur2.children[j],
                            ) by {
                                if j < cur.children.len() {
                                    assert(cur2.children[j] == cur.children[j]);
                                }
                            }
                            lemma_frame_wf(events, next, cur2, depth, (fuel - 1) as nat);
                        },
                        _ => {},
                    }
                }
            },
            _ => {},
        }
    }
}

proof fn lemma_doc_wf(events: Seq<Event>, i: int, roots: Seq<NodeS>, seen_start: bool, fuel: nat)
    requires
        forall|j: int| 0 <= j < roots.len() ==> node_wf(#[trigger] roots[j]),
    ensures
        doc_spec(events, i, roots, seen_start, fuel) matches DocRes::Done { roots: r } ==>
            forall|j: int| 0 <= j < r.len() ==> node_wf(#[trigger] r[j]),
    decreases fuel,
{
    if fuel > 0 && 0 <= i < events.len() {
        match events[i] {
            Event::StartDocument => {
                if !seen_start {
                    lemma_doc_wf(events, i + 1, roots, true, (fuel - 1) as nat);
                }
            },
            Event::Trivia => {
                lemma_doc_wf(events, i + 1, roots, seen_start, (fuel - 1) as nat);
            },
            Event::StartElement { name, attributes } => {
                let child = node_from(name@, attributes@);
                lemma_node_from_wf(name@, attributes@);
                lemma_frame_wf(events, i + 1, child, MAX_DEPTH - 1, (fuel - 1) as nat);
                match frame_spec(events, i + 1, child, MAX_DEPTH - 1, (fuel - 1) as nat) {
                    FrameRes::Done { node, next } => {
                        let roots2 = roots.push(node);
                        assert forall|j: int| 0 <= j < roots2.len() implies node_wf(
                            #[trigger] roots2[j],
                        ) by {
                            if j < roots.len() {
                                assert(roots2[j] == roots[j]);
                            }
                        }
                        lemma_doc_wf(events, next, roots2, seen_start, (fuel - 1) as nat);
                    },
                    _ => {},
                }
            },
            _ => {},
        }
    }
}

/// **Unique attribute names everywhere.** Every root node the parse
/// yields — and every descendant of it — carries at most one attribute
/// entry per name.
pub proof fn lemma_parse_wf(events: Seq<Event>)
    ensures
        parse_spec(events) matches DocRes::Done { roots } ==> forall|j: int|
            0 <= j < roots.len() ==> node_wf(#[trigger] roots[j]),
{
    lemma_doc_wf(events, 0, Seq::empty(), false, enough_fuel(events, 0));
}

/// An item that depicts a well-formed model node is itself well-formed.
proof fn lemma_match_preserves_wf(x: XmlItem, n: NodeS)
    requires
        item_matches(x, n),
        node_wf(n),
    ensures
        item_wf(x),
    decreases n,
{
    assert forall|j: int| 0 <= j < x.children@.len() implies item_wf(
        #[trigger] x.children@[j],
    ) by {
        lemma_match_preserves_wf(x.children@[j], n.children[j]);
    }
    assert forall|m1: int, m2: int|
        0 <= m1 < m2 < x.attributes@.len() implies x.attributes@[m1].0@
        != x.attributes@[m2].0@ by {
        assert(pairs_view(x.attributes@)[m1] == n.attributes[m1]);
        assert(pairs_view(x.attributes@)[m2] == n.attributes[m2]);
    }
}

/// **Unique attribute names on what the caller receives.** Every root
/// item the parse returns is well-formed: no two attribute entries of
/// it, or of any of its descendants, carry the same name.
pub proof fn lemma_read_xml_wf(events: Seq<Event>, r: Result<Vec<XmlItem>, ParseError>)
    requires
        read_xml_post(events, r),
    ensures
        r matches Ok(items) ==> forall|j: int|
            0 <= j < items@.len() ==> item_wf(#[trigger] items@[j]),
{
    if r is Ok {
        let items = r->Ok_0;
        let roots = parse_spec(events)->Done_roots;
        lemma_parse_wf(events);
        assert forall|j: int| 0 <= j < items@.len() implies item_wf(#[trigger] items@[j]) by {
            assert(node_wf(roots[j]));
            lemma_match_preserves_wf(items@[j], roots[j]);
        }
    }
}

/// A built item depicts at most one model node: if an item matches two
/// ghost nodes, they are the same node.
pub proof fn lemma_item_model_unique(x: XmlItem, n1: NodeS, n2: NodeS)
    requires
        item_matches(x, n1),
        item_matches(x, n2),
    ensures
        n1 == n2,
    decreases n1,
{
    assert forall|j: int| 0 <= j < n1.children.len() implies n1.children[j] == n2.children[j] by {
        lemma_item_model_unique(x.children@[j], n1.children[j], n2.children[j]);
    }
    assert(n1.children =~= n2.children);
    assert(n1 =~= n2);
}

/// Do two errors report the same violation, field for field?
pub open spec fn errors_agree(e1: ParseError, e2: ParseError) -> bool {
    match (e1, e2) {
        (ParseError::TokenizeFailure(m1), ParseError::TokenizeFailure(m2)) => m1@ == m2@,
        (ParseError::UnexpectedDocumentStart, ParseError::UnexpectedDocumentStart) => true,
        (ParseError::UnexpectedDocumentBoundary, ParseError::UnexpectedDocumentBoundary) => true,
        (ParseError::TextOutsideElement, ParseError::TextOutsideElement) => true,
        (ParseError::UnmatchedEndElement, ParseError::UnmatchedEndElement) => true,
        (
            ParseError::MismatchedEndElement { expected: a1, found: b1 },
            ParseError::MismatchedEndElement { expected: a2, found: b2 },
        ) => a1@ == a2@ && b1@ == b2@,
        (ParseError::PrematureEnd, ParseError::PrematureEnd) => true,
        (ParseError::DepthExceeded, ParseError::DepthExceeded) => true,
        _ => false,
    }
}

/// Do two built items depict one and the same model node? By
/// [`item_matches`] this makes their names, text and attribute pairs
/// equal, and their children pairwise so, all the way down.
pub open spec fn items_agree(x1: XmlItem, x2: XmlItem) -> bool {
    exists|n: NodeS| item_matches(x1, n) && item_matches(x2, n)
}

/// **Idempotent parse.** Parsing carries no hidden state: any two
/// results the top-level driver's contract admits for the same event
/// sequence are structurally equal — success together with root items
/// depicting the same model tree node for node, or failure with errors
/// reporting the same violation.
pub proof fn lemma_parse_idempotent(
    events: Seq<Event>,
    r1: Result<Vec<XmlItem>, ParseError>,
    r2: Result<Vec<XmlItem>, ParseError>,
)
    requires
        read_xml_post(events, r1),
        read_xml_post(events, r2),
    ensures
        r1 is Ok <==> r2 is Ok,
        r1 is Ok ==> r1->Ok_0@.len() == r2->Ok_0@.len() && (forall|j: int|
            0 <= j < r1->Ok_0@.len() ==> items_agree(#[trigger] r1->Ok_0@[j], r2->Ok_0@[j])),
        r1 is Err ==> errors_agree(r1->Err_0, r2->Err_0),
{
    if r1 is Ok && r2 is Ok {
        let roots = parse_spec(events)->Done_roots;
        assert(r1->Ok_0@.len() == roots.len());
        assert(r2->Ok_0@.len() == roots.len());
        assert forall|j: int| 0 <= j < r1->Ok_0@.len() implies items_agree(
            #[trigger] r1->Ok_0@[j],
            r2->Ok_0@[j],
        ) by {
            let n0 = roots[j];
            assert(item_matches(r1->Ok_0@[j], n0));
            assert(item_matches(r2->Ok_0@[j], n0));
        }
    }
    if r1 is Err && r2 is Err {
        let err = parse_spec(events)->Fail_err;
        assert(err_matches(r1->Err_0, err) && err_matches(r2->Err_0, err));
    }
}

} // verus!

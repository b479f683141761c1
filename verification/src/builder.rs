//! The tree builder: the node type, the verified attribute
//! deduplication, the recursive subtree builder, and the top-level
//! driver.

use vstd::prelude::*;
use vstd::string::StringExecFns;
use crate::events::Event;
use crate::events::ParseError;
use crate::model::DocRes;
use crate::model::FrameRes;
use crate::model::MAX_DEPTH;
use crate::model::NodeS;
use crate::model::dedup_first;
use crate::model::doc_at;
use crate::model::err_matches;
use crate::model::frame_at;
use crate::model::key_in;
use crate::model::lemma_doc_fuel;
use crate::model::lemma_frame_fuel;
use crate::model::node_from;
use crate::model::pairs_view;
use crate::model::parse_spec;

verus! {

/// One markup element: its local tag name, the character data found
/// directly inside it (all runs concatenated in document order), its
/// attributes (at most one entry per name, first occurrence wins, in
/// first-occurrence order), and its child elements in document order.
#[derive(Debug, PartialEq)]
pub struct XmlItem {
    pub name: String,
    pub data: String,
    pub attributes: Vec<(String, String)>,
    pub children: Vec<XmlItem>,
}

/// Is the ghost node `n` the exact image of the built item `x`: same
/// name, same text, same attribute pairs, and children matching
/// pointwise in the same order?
pub open spec fn item_matches(x: XmlItem, n: NodeS) -> bool
    decreases n,
{
    &&& x.name@ == n.name
    &&& x.data@ == n.data
    &&& pairs_view(x.attributes@) == n.attributes
    &&& x.children@.len() == n.children.len()
    &&& forall|j: int|
        0 <= j < n.children.len() ==> item_matches(x.children@[j], #[trigger] n.children[j])
}

/// Is the item well-formed: no two of its attribute entries carry the
/// same name, and the same holds in all of its descendants?
pub open spec fn item_wf(x: XmlItem) -> bool
    decreases x,
{
    &&& forall|m1: int, m2: int|
        0 <= m1 < m2 < x.attributes@.len() ==> x.attributes@[m1].0@ != x.attributes@[m2].0@
    &&& forall|j: int| 0 <= j < x.children@.len() ==> item_wf(#[trigger] x.children@[j])
}

impl XmlItem {
    /// Resolves an element-start's attribute list: the first occurrence
    /// of each name is kept, later occurrences of the same name are
    /// silently discarded, and the kept pairs stay in document order.
    pub fn dedup_attributes(attrs: &Vec<(String, String)>) -> (r: Vec<(String, String)>)
        ensures
            pairs_view(r@) == dedup_first(attrs@),
    {
        let mut kept: Vec<(String, String)> = Vec::new();
        let mut idx: usize = 0;
        while idx < attrs.len()
            invariant
                idx <= attrs.len(),
                pairs_view(kept@) == dedup_first(attrs@.take(idx as int)),
            decreases attrs.len() - idx,
        {
            let mut seen: bool = false;
            let mut m: usize = 0;
            while m < idx
                invariant
                    m <= idx,
                    idx < attrs.len(),
                    seen == exists|q: int| 0 <= q < m && attrs@[q].0@ == attrs@[idx as int].0@,
                decreases idx - m,
            {
                if attrs[m].0 == attrs[idx].0 {
                    seen = true;
                }
                m += 1;
            }
            proof {
                let ghost k = attrs@[idx as int].0@;
                let ghost front = attrs@.take(idx as int);
                if seen {
                    let q = choose|q: int| 0 <= q < idx && attrs@[q].0@ == k;
                    assert(front[q].0@ == k);
                }
                if key_in(front, k) {
                    let q = choose|q: int| 0 <= q < front.len() && front[q].0@ == k;
                    assert(attrs@[q].0@ == k);
                }
                assert(seen == key_in(front, k));
                assert(attrs@.take(idx as int + 1).drop_last() =~= front);
                assert(attrs@.take(idx as int + 1).last() == attrs@[idx as int]);
            }
            if !seen {
                let pair = (attrs[idx].0.clone(), attrs[idx].1.clone());
                kept.push(pair);
                proof {
                    assert(pairs_view(kept@) =~= dedup_first(attrs@.take(idx as int + 1)));
                }
            }
            idx += 1;
        }
        proof {
            assert(attrs@.take(attrs@.len() as int) =~= attrs@);
        }
        kept
    }

    /// Builds the subtree of one element whose element-start (carrying
    /// `name` and `attributes`) has just been consumed, reading events
    /// from `start` until the matching element-end. Returns the finished
    /// node and the index just past its closing tag, exactly as the
    /// frame interpreter of the model prescribes; `depth` is how many
    /// more nesting levels may open below this element.
    pub fn build(
        events: &Vec<Event>,
        start: usize,
        name: &String,
        attributes: &Vec<(String, String)>,
        depth: usize,
    ) -> (r: Result<(XmlItem, usize), ParseError>)
        requires
            start <= events@.len(),
        ensures
            r matches Ok(p) ==> {
                &&& frame_at(
                    events@,
                    start as int,
                    node_from(name@, attributes@),
                    depth as int,
                ) matches FrameRes::Done { node, next }
                    && item_matches(p.0, node)
                    && p.1 == next
                &&& start < p.1 <= events@.len()
                &&& p.0.name@ == name@
                &&& pairs_view(p.0.attributes@) == dedup_first(attributes@)
            },
            r matches Err(e) ==> frame_at(
                events@,
                start as int,
                node_from(name@, attributes@),
                depth as int,
            ) matches FrameRes::Fail { err } && err_matches(e, err),
        decreases events@.len() - start,
    {
        let ghost orig = node_from(name@, attributes@);
        let attrs_kept = Self::dedup_attributes(attributes);
        let mut data = String::new();
        let mut children: Vec<XmlItem> = Vec::new();
        let ghost mut gchildren: Seq<NodeS> = Seq::empty();
        let mut i: usize = start;
        loop
            invariant
                start <= i <= events@.len(),
                pairs_view(attrs_kept@) == dedup_first(attributes@),
                children@.len() == gchildren.len(),
                forall|j: int|
                    0 <= j < gchildren.len() ==> item_matches(
                        children@[j],
                        #[trigger] gchildren[j],
                    ),
                frame_at(
                    events@,
                    i as int,
                    (NodeS {
                        name: name@,
                        data: data@,
                        attributes: dedup_first(attributes@),
                        children: gchildren,
                    }),
                    depth as int,
                ) == frame_at(events@, start as int, orig, depth as int),
                orig == node_from(name@, attributes@),
            decreases events@.len() - i,
        {
            let ghost cur = NodeS {
                name: name@,
                data: data@,
                attributes: dedup_first(attributes@),
                children: gchildren,
            };
            if i == events.len() {
                return Err(ParseError::PrematureEnd);
            }
            match &events[i] {
                Event::StartDocument => {
                    return Err(ParseError::UnexpectedDocumentStart);
                },
                Event::EndDocument => {
                    return Err(ParseError::UnexpectedDocumentBoundary);
                },
                Event::Trivia => {
                    i = i + 1;
                },
                Event::Text(t) => {
                    data.append(t.as_str());
                    i = i + 1;
                },
                Event::EndElement { name: end_name } => {
                    if end_name.eq(name) {
                        let item = XmlItem {
                            name: name.clone(),
                            data,
                            attributes: attrs_kept,
                            children,
                        };
                        return Ok((item, i + 1));
                    } else {
                        return Err(ParseError::MismatchedEndElement {
                            expected: name.clone(),
                            found: end_name.clone(),
                        });
                    }
                },
                Event::StartElement { name: child_name, attributes: child_attrs } => {
                    if depth == 0 {
                        return Err(ParseError::DepthExceeded);
                    }
                    match Self::build(events, i + 1, child_name, child_attrs, depth - 1) {
                        Ok((child, next)) => {
                            proof {
                                let fr = frame_at(
                                    events@,
                                    i as int + 1,
                                    node_from(child_name@, child_attrs@),
                                    depth as int - 1,
                                );
                                let cur2 = NodeS {
                                    children: gchildren.push(fr->Done_node),
                                    ..cur
                                };
                                lemma_frame_fuel(
                                    events@,
                                    next as int,
                                    cur2,
                                    depth as int,
                                    (events@.len() - i) as nat,
                                    (events@.len() - next + 1) as nat,
                                );
                                gchildren = gchildren.push(fr->Done_node);
                            }
                            children.push(child);
                            i = next;
                        },
                        Err(e) => {
                            return Err(e);
                        },
                    }
                },
            }
        }
    }
}

/// What the top-level driver promises: its result agrees exactly with
/// the model's whole-document interpretation of the event sequence —
/// the root items depict the model's root nodes in order on success,
/// and the error depicts the model's error on failure.
pub open spec fn read_xml_post(events: Seq<Event>, r: Result<Vec<XmlItem>, ParseError>) -> bool {
    match r {
        Ok(items) => parse_spec(events) matches DocRes::Done { roots } && items@.len()
            == roots.len() && forall|j: int|
            0 <= j < roots.len() ==> item_matches(items@[j], #[trigger] roots[j]),
        Err(e) => parse_spec(events) matches DocRes::Fail { err } && err_matches(e, err),
    }
}

/// Consumes a whole event sequence and produces the ordered sequence of
/// root items, or the first structural violation. The document may hold
/// any number of top-level elements, including none; at most one
/// document-start is skipped at the top level, and a second one at any
/// nesting level is an error; trivia at the top level is skipped; the
/// parse succeeds only by reaching a top-level document-end event, and
/// stops there.
pub fn read_xml(events: &Vec<Event>) -> (r: Result<Vec<XmlItem>, ParseError>)
    ensures
        read_xml_post(events@, r),
{
    let mut roots: Vec<XmlItem> = Vec::new();
    let ghost mut groots: Seq<NodeS> = Seq::empty();
    let mut seen_start = false;
    let mut i: usize = 0;
    loop
        invariant
            i <= events@.len(),
            roots@.len() == groots.len(),
            forall|j: int|
                0 <= j < groots.len() ==> item_matches(roots@[j], #[trigger] groots[j]),
            doc_at(events@, i as int, groots, seen_start) == parse_spec(events@),
        decreases events@.len() - i,
    {
        if i == events.len() {
            return Err(ParseError::PrematureEnd);
        }
        match &events[i] {
            Event::StartDocument => {
                if seen_start {
                    return Err(ParseError::UnexpectedDocumentStart);
                }
                seen_start = true;
                i = i + 1;
            },
            Event::EndDocument => {
                return Ok(roots);
            },
            Event::Trivia => {
                i = i + 1;
            },
            Event::Text(_) => {
                return Err(ParseError::TextOutsideElement);
            },
            Event::EndElement { .. } => {
                return Err(ParseError::UnmatchedEndElement);
            },
            Event::StartElement { name, attributes } => {
                match XmlItem::build(events, i + 1, name, attributes, MAX_DEPTH - 1) {
                    Ok((root, next)) => {
                        proof {
                            let fr = frame_at(
                                events@,
                                i as int + 1,
                                node_from(name@, attributes@),
                                MAX_DEPTH as int - 1,
                            );
                            lemma_doc_fuel(
                                events@,
                                next as int,
                                groots.push(fr->Done_node),
                                seen_start,
                                (events@.len() - i) as nat,
                                (events@.len() - next + 1) as nat,
                            );
                            groots = groots.push(fr->Done_node);
                        }
                        roots.push(root);
                        i = next;
                    },
                    Err(e) => {
                        return Err(e);
                    },
                }
            },
        }
    }
}

} // verus!

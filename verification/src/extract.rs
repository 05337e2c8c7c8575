//! The visible text of an HTML page: the text nodes outside scripts and
//! style sheets, trimmed, in document order.

use vstd::prelude::*;
use kuchiki::iter::NodeEdge;
use kuchiki::traits::TendrilSink;
use kuchiki::NodeData;
use crate::text::{same_text, trimmed, trim};

verus! {

/// The most bytes of a page that the HTML parser takes in.
pub const PAGE_LIMIT: usize = 0xFFFF_FFFF;

/// One step of a walk through a parsed document. Every node is entered and
/// left once; between the two lie its descendants.
#[derive(Debug)]
pub enum Markup {
    /// An element is entered; the name is its local name.
    Open(String),
    /// A text node is entered; the text is its content.
    Text(String),
    /// A node of another kind is entered.
    Other,
    /// The node that was entered last and not yet left is left.
    Close,
}

/// The model of [`Markup`].
pub enum MarkupView {
    Open(Seq<char>),
    Text(Seq<char>),
    Other,
    Close,
}

impl View for Markup {
    type V = MarkupView;

    open spec fn view(&self) -> MarkupView {
        match self {
            Markup::Open(name) => MarkupView::Open(name@),
            Markup::Text(content) => MarkupView::Text(content@),
            Markup::Other => MarkupView::Other,
            Markup::Close => MarkupView::Close,
        }
    }
}

/// The models of a walk.
pub open spec fn walk_view(walk: Seq<Markup>) -> Seq<MarkupView> {
    walk.map_values(|step: Markup| step@)
}

/// The walk through the document that the HTML parser makes of `html`.
pub uninterp spec fn walk_of(html: Seq<char>) -> Seq<MarkupView>;

/// Whether the content of an element of this name is never shown.
pub open spec fn is_hidden(name: Seq<char>) -> bool {
    name == "script"@ || name == "style"@ || name == "noscript"@
}

/// What a text node adds to the visible text: its trimmed content and a
/// space, or nothing if only white space is in it.
pub open spec fn piece(content: Seq<char>) -> Seq<char> {
    if trimmed(content).len() == 0 {
        Seq::empty()
    } else {
        trimmed(content).push(' ')
    }
}

/// The visible text of the rest of a walk. `depth` counts the nodes that
/// are open inside a hidden element, that element included: it is zero
/// outside hidden elements.
pub open spec fn visible(walk: Seq<MarkupView>, depth: nat) -> Seq<char>
    decreases walk.len(),
{
    if walk.len() == 0 {
        Seq::empty()
    } else if depth > 0 {
        match walk[0] {
            MarkupView::Close => visible(walk.drop_first(), (depth - 1) as nat),
            _ => visible(walk.drop_first(), depth + 1),
        }
    } else {
        match walk[0] {
            MarkupView::Open(name) => visible(walk.drop_first(), if is_hidden(name) { 1nat } else { 0nat }),
            MarkupView::Text(content) => piece(content) + visible(walk.drop_first(), 0),
            _ => visible(walk.drop_first(), 0),
        }
    }
}

/// Calls `kuchiki::parse_html`, feeds it the page and walks the document
/// with `NodeRef::traverse_inclusive`, copying out of each step what the
/// library reads. The walk is a function of the page alone. The parser's
/// buffer holds no page of more than [`PAGE_LIMIT`] bytes.
#[verifier::external_body]
fn parse_walk(html: &str) -> (walk: Vec<Markup>)
    requires
        html.len() <= PAGE_LIMIT,
    ensures
        walk_view(walk@) == walk_of(html@),
{
    kuchiki::parse_html().one(html).traverse_inclusive().map(|edge| match edge {
        NodeEdge::End(_) => Markup::Close,
        NodeEdge::Start(node) => match node.data() {
            NodeData::Element(element) => Markup::Open(element.name.local.to_string()),
            NodeData::Text(content) => Markup::Text(content.borrow().clone()),
            _ => Markup::Other,
        },
    }).collect()
}

/// Whether the content of an element of this name is never shown.
pub fn hides(name: &str) -> (r: bool)
    ensures
        r == is_hidden(name@),
{
    same_text(name, "script") || same_text(name, "style") || same_text(name, "noscript")
}

/// The visible text of a walk: the trimmed content of each text node that
/// lies in no hidden element, each followed by a space.
pub fn visible_text(walk: &Vec<Markup>) -> (text: String)
    ensures
        text@ == visible(walk_view(walk@), 0),
{
    let mut text = String::new();
    let mut depth: usize = 0;
    let mut i: usize = 0;
    proof {
        assert(walk_view(walk@).skip(0) =~= walk_view(walk@));
    }
    while i < walk.len()
        invariant
            i <= walk@.len(),
            depth <= i,
            visible(walk_view(walk@), 0) == text@ + visible(walk_view(walk@).skip(i as int), depth as nat),
        decreases walk@.len() - i,
    {
        proof {
            let rest = walk_view(walk@).skip(i as int);
            assert(rest[0] == walk@[i as int]@);
            assert(rest.drop_first() =~= walk_view(walk@).skip(i + 1));
        }
        let ghost before = text@;
        if depth > 0 {
            match &walk[i] {
                Markup::Close => { depth = depth - 1; },
                _ => { depth = depth + 1; },
            }
        } else {
            match &walk[i] {
                Markup::Open(name) => {
                    if hides(name.as_str()) {
                        depth = 1;
                    }
                },
                Markup::Text(content) => {
                    let kept = trim(content.as_str());
                    if !kept.as_str().is_empty() {
                        text.append(kept.as_str());
                        text.push(' ');
                    }
                    proof {
                        let rest = visible(walk_view(walk@).skip(i + 1), 0);
                        assert(text@ == before + piece(content@));
                        assert(before + (piece(content@) + rest) =~= (before + piece(content@)) + rest);
                    }
                },
                _ => {},
            }
        }
        i = i + 1;
    }
    proof {
        assert(walk_view(walk@).skip(walk@.len() as int).len() == 0);
        assert(text@ + Seq::<char>::empty() =~= text@);
    }
    text
}

/// The visible text of an HTML page of at most [`PAGE_LIMIT`] bytes.
pub fn extract_text(html: &str) -> (text: String)
    requires
        html.len() <= PAGE_LIMIT,
    ensures
        text@ == visible(walk_of(html@), 0),
{
    let walk = parse_walk(html);
    visible_text(&walk)
}

} // verus!

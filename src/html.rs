//! The structure of the newsletter's HTML body: its link and, for each title heading,
//! the text of the table body that holds the title's schedule.
//!
//! A document is held as the list of its nodes in document order, each with its depth:
//! the parent of a node is the last node before it that stands one level higher, and
//! the descendants of a node are the nodes after it that stand deeper, up to the first
//! that does not. The document is parsed, and the selectors of the newsletter template
//! are matched, by scraper.

use crate::error::ParseError;
use crate::text::{chars_of, slice_equals, string_from_chars};
use vstd::prelude::*;

verus! {

/// What a node of the document is.
#[derive(Clone, Debug, PartialEq, Eq)]
pub enum DomKind {
    /// An element, with its local name and its `href` attribute, if any.
    Element(String, Option<String>),
    /// A text node.
    Text(String),
    /// The document root, a comment, a doctype or a processing instruction.
    Other,
}

/// A node of the document, with the number of its ancestors.
#[derive(Clone, Debug, PartialEq, Eq)]
pub struct DomNode {
    pub depth: usize,
    pub kind: DomKind,
}

pub enum DomKindView {
    Element(Seq<char>, Option<Seq<char>>),
    Text(Seq<char>),
    Other,
}

pub struct DomNodeView {
    pub depth: nat,
    pub kind: DomKindView,
}

impl View for DomNode {
    type V = DomNodeView;

    open spec fn view(&self) -> DomNodeView {
        DomNodeView {
            depth: self.depth as nat,
            kind: match self.kind {
                DomKind::Element(n, h) => DomKindView::Element(
                    n@,
                    match h {
                        Some(s) => Some(s@),
                        None => None,
                    },
                ),
                DomKind::Text(t) => DomKindView::Text(t@),
                DomKind::Other => DomKindView::Other,
            },
        }
    }
}

pub open spec fn nodes_view(v: Seq<DomNode>) -> Seq<DomNodeView> {
    v.map_values(|n: DomNode| n@)
}

/// The nodes, in document order, of the HTML document `html` as parsed by an HTML5
/// parser.
pub uninterp spec fn document_nodes_of(html: Seq<char>) -> Seq<DomNodeView>;

/// Relies on scraper's `Html::parse_document`, and on ego_tree's `descendants` (the
/// nodes of a tree in document order) and `ancestors`: the nodes of the parsed document.
#[verifier::external_body]
pub(crate) fn document_nodes(html: &str) -> (r: Vec<DomNode>)
    ensures
        nodes_view(r@) == document_nodes_of(html@),
{
    let doc = scraper::Html::parse_document(html);
    let mut nodes = Vec::new();
    for n in doc.tree.root().descendants() {
        let kind = match n.value() {
            scraper::Node::Element(e) => {
                DomKind::Element(e.name().to_string(), e.attr("href").map(String::from))
            },
            scraper::Node::Text(t) => DomKind::Text(t.to_string()),
            _ => DomKind::Other,
        };
        nodes.push(DomNode { depth: n.ancestors().count(), kind });
    }
    nodes
}

// ---- the selectors of the newsletter template

/// The CSS selector of the newsletter link.
pub const NEWSLETTER_LINK_SELECTOR: &'static str =
    "table > tbody > tr > td > table > tbody > tr > td > p > a";

/// The CSS selector of the title headings.
pub const TITLE_SELECTOR: &'static str =
    "div div div table tbody tr td table tbody tr td table tbody tr td table tbody tr td table tbody tr td h1";

/// For each node of the HTML document `html`, in document order, whether it is an
/// element that CSS selector `selector` matches; none where the selector does not parse.
pub uninterp spec fn selector_flags_of(html: Seq<char>, selector: Seq<char>) -> Option<Seq<bool>>;

/// Relies on scraper's `Selector::parse` and `Selector::matches`, over the document of
/// `Html::parse_document` walked in document order by ego_tree's `descendants`: which
/// nodes the selector matches.
#[verifier::external_body]
pub(crate) fn selector_flags(html: &str, selector: &str) -> (r: Option<Vec<bool>>)
    ensures
        selector_flags_of(html@, selector@) == match r {
            Some(v) => Some(v@),
            None => None::<Seq<bool>>,
        },
{
    let selector = scraper::Selector::parse(selector).ok()?;
    let doc = scraper::Html::parse_document(html);
    let mut flags = Vec::new();
    for n in doc.tree.root().descendants() {
        flags.push(
            match scraper::ElementRef::wrap(n) {
                Some(e) => selector.matches(&e),
                None => false,
            },
        );
    }
    Some(flags)
}

pub open spec fn name_tbody() -> Seq<char> {
    seq!['t', 'b', 'o', 'd', 'y']
}

pub open spec fn name_br() -> Seq<char> {
    seq!['b', 'r']
}

// ---- the tree that the depths describe

/// The last node before position `end` that stands at depth `d`, or -1.
pub open spec fn last_at_depth(nodes: Seq<DomNodeView>, end: int, d: int) -> int
    decreases end,
{
    if end <= 0 || end > nodes.len() {
        -1
    } else if nodes[end - 1].depth == d {
        end - 1
    } else {
        last_at_depth(nodes, end - 1, d)
    }
}

/// The position of the parent of node `i`, or -1 where it has none.
pub open spec fn parent_of(nodes: Seq<DomNodeView>, i: int) -> int {
    if 0 <= i < nodes.len() && nodes[i].depth > 0 {
        last_at_depth(nodes, i, nodes[i].depth - 1)
    } else {
        -1
    }
}

pub proof fn lemma_last_at_depth_before(nodes: Seq<DomNodeView>, end: int, d: int)
    ensures
        -1 <= last_at_depth(nodes, end, d),
        0 < end ==> last_at_depth(nodes, end, d) < end,
        end <= nodes.len() ==> last_at_depth(nodes, end, d) < nodes.len(),
    decreases end,
{
    if end > 0 && end <= nodes.len() && nodes[end - 1].depth != d {
        lemma_last_at_depth_before(nodes, end - 1, d);
    }
}

pub proof fn lemma_parent_before(nodes: Seq<DomNodeView>, i: int)
    ensures
        -1 <= parent_of(nodes, i),
        0 <= i ==> parent_of(nodes, i) < i,
        parent_of(nodes, i) < nodes.len(),
{
    if 0 <= i < nodes.len() && nodes[i].depth > 0 {
        lemma_last_at_depth_before(nodes, i, nodes[i].depth - 1);
    }
}

/// Whether node `i` is an element named `name`.
pub open spec fn element_named(nodes: Seq<DomNodeView>, i: int, name: Seq<char>) -> bool {
    0 <= i < nodes.len() && match nodes[i].kind {
        DomKindView::Element(n, _) => n == name,
        _ => false,
    }
}

/// Whether position `i` of `flags` is set.
pub open spec fn flagged(flags: Seq<bool>, i: int) -> bool {
    0 <= i < flags.len() && flags[i]
}

/// The first node from position `i` on that `links` marks, or -1.
pub open spec fn first_link_from(nodes: Seq<DomNodeView>, links: Seq<bool>, i: int) -> int
    decreases nodes.len() - i,
{
    if i < 0 || i >= nodes.len() {
        -1
    } else if flagged(links, i) {
        i
    } else {
        first_link_from(nodes, links, i + 1)
    }
}

/// The nodes from position `i` on that `titles` marks, in document order.
pub open spec fn titles_from(nodes: Seq<DomNodeView>, titles: Seq<bool>, i: int) -> Seq<int>
    decreases nodes.len() - i,
{
    if i < 0 || i >= nodes.len() {
        seq![]
    } else if flagged(titles, i) {
        seq![i] + titles_from(nodes, titles, i + 1)
    } else {
        titles_from(nodes, titles, i + 1)
    }
}

/// Whether node `j` comes after node `t` and stands deeper: read from `t + 1` on, such
/// nodes are the descendants of `t`, up to the first node that is not.
pub open spec fn within(nodes: Seq<DomNodeView>, t: int, j: int) -> bool {
    0 <= t < j < nodes.len() && nodes[j].depth > nodes[t].depth
}

/// The first text among the descendants of node `t` from position `j` on.
pub open spec fn first_text_from(nodes: Seq<DomNodeView>, t: int, j: int) -> Option<Seq<char>>
    decreases nodes.len() - j,
{
    if !within(nodes, t, j) {
        None
    } else {
        match nodes[j].kind {
            DomKindView::Text(s) => Some(s),
            _ => first_text_from(nodes, t, j + 1),
        }
    }
}

/// What node `j` adds to the text of a schedule box: its text, or a line break.
pub open spec fn piece_of(n: DomNodeView) -> Option<Seq<char>> {
    match n.kind {
        DomKindView::Text(s) => Some(s),
        DomKindView::Element(name, _) => if name == name_br() {
            Some(seq!['\n'])
        } else {
            None
        },
        DomKindView::Other => None,
    }
}

/// The pieces of the descendants of node `b` from position `j` on, joined by single
/// spaces; `first` tells that no piece came before.
pub open spec fn box_text_from(nodes: Seq<DomNodeView>, b: int, j: int, first: bool) -> Seq<
    char,
>
    decreases nodes.len() - j,
{
    if !within(nodes, b, j) {
        seq![]
    } else {
        match piece_of(nodes[j]) {
            Some(p) => (if first {
                p
            } else {
                seq![' '] + p
            }) + box_text_from(nodes, b, j + 1, false),
            None => box_text_from(nodes, b, j + 1, first),
        }
    }
}

/// The text of the schedule box at node `b`.
pub open spec fn box_text(nodes: Seq<DomNodeView>, b: int) -> Seq<char> {
    box_text_from(nodes, b, b + 1, true)
}

/// The schedule box of title heading `t`: its ancestor three levels up.
pub open spec fn box_of(nodes: Seq<DomNodeView>, t: int) -> int {
    parent_of(nodes, parent_of(nodes, parent_of(nodes, t)))
}

/// The title and schedule text of the title headings `titles` up to the `k`-th, or the
/// first failure among them.
pub open spec fn boxes_upto(nodes: Seq<DomNodeView>, titles: Seq<int>, k: int) -> Result<
    Seq<(Seq<char>, Seq<char>)>,
    ParseError,
>
    decreases k,
{
    if k <= 0 {
        Ok(seq![])
    } else {
        match boxes_upto(nodes, titles, k - 1) {
            Err(e) => Err(e),
            Ok(done) => {
                let t = titles[k - 1];
                match first_text_from(nodes, t, t + 1) {
                    None => Err(ParseError::MissingTitleText((k - 1) as usize)),
                    Some(title) => if element_named(nodes, box_of(nodes, t), name_tbody()) {
                        Ok(done.push((title, box_text(nodes, box_of(nodes, t)))))
                    } else {
                        Err(ParseError::MissingScheduleBox((k - 1) as usize))
                    },
                }
            },
        }
    }
}

/// The newsletter link and the title and schedule text of each title heading, in
/// document order, where `links` marks the nodes that the link selector matches and
/// `titles` those that the title selector matches.
pub open spec fn document_structure(
    nodes: Seq<DomNodeView>,
    links: Seq<bool>,
    titles: Seq<bool>,
) -> Result<(Seq<char>, Seq<(Seq<char>, Seq<char>)>), ParseError> {
    let l = first_link_from(nodes, links, 0);
    if l < 0 {
        Err(ParseError::MissingLink)
    } else {
        match nodes[l].kind {
            DomKindView::Element(_, Some(href)) => {
                let ts = titles_from(nodes, titles, 0);
                match boxes_upto(nodes, ts, ts.len() as int) {
                    Err(e) => Err(e),
                    Ok(boxes) => Ok((href, boxes)),
                }
            },
            _ => Err(ParseError::MissingHref),
        }
    }
}

// ---- walking the document

/// The nodes of a document, with the nodes that the link selector and the title
/// selector match.
pub struct DocumentNodes {
    pub nodes: Vec<DomNode>,
    pub links: Vec<bool>,
    pub titles: Vec<bool>,
}

impl View for DocumentNodes {
    type V = (Seq<DomNodeView>, Seq<bool>, Seq<bool>);

    open spec fn view(&self) -> (Seq<DomNodeView>, Seq<bool>, Seq<bool>) {
        (nodes_view(self.nodes@), self.links@, self.titles@)
    }
}

/// The nodes of HTML document `html` and the nodes that the two selectors match.
pub open spec fn document_of(html: Seq<char>) -> Result<
    (Seq<DomNodeView>, Seq<bool>, Seq<bool>),
    ParseError,
> {
    match selector_flags_of(html, NEWSLETTER_LINK_SELECTOR@) {
        None => Err(ParseError::InvalidSelector),
        Some(links) => match selector_flags_of(html, TITLE_SELECTOR@) {
            None => Err(ParseError::InvalidSelector),
            Some(titles) => Ok((document_nodes_of(html), links, titles)),
        },
    }
}

/// The nodes of HTML document `html` and the nodes that the two selectors match.
pub fn read_document(html: &str) -> (r: Result<DocumentNodes, ParseError>)
    ensures
        match document_of(html@) {
            Ok(v) => r matches Ok(d) && d@ == v,
            Err(e) => r == Err::<DocumentNodes, ParseError>(e),
        },
{
    let links = match selector_flags(html, NEWSLETTER_LINK_SELECTOR) {
        Some(l) => l,
        None => return Err(ParseError::InvalidSelector),
    };
    let titles = match selector_flags(html, TITLE_SELECTOR) {
        Some(t) => t,
        None => return Err(ParseError::InvalidSelector),
    };
    Ok(DocumentNodes { nodes: document_nodes(html), links, titles })
}

/// The title of a schedule box and its text.
#[derive(Clone, Debug, PartialEq, Eq)]
pub struct ScheduleBox {
    pub title: String,
    pub text: String,
}

/// The newsletter link and the schedule boxes of a document, in document order.
#[derive(Clone, Debug, PartialEq, Eq)]
pub struct ScheduleDocument {
    pub newsletter_link: String,
    pub boxes: Vec<ScheduleBox>,
}

impl View for ScheduleDocument {
    type V = (Seq<char>, Seq<(Seq<char>, Seq<char>)>);

    open spec fn view(&self) -> (Seq<char>, Seq<(Seq<char>, Seq<char>)>) {
        (self.newsletter_link@, boxes_view(self.boxes@))
    }
}

pub open spec fn boxes_view(v: Seq<ScheduleBox>) -> Seq<(Seq<char>, Seq<char>)> {
    v.map_values(|b: ScheduleBox| (b.title@, b.text@))
}

/// Whether string `s` holds the characters of `w`.
fn string_equals(s: &String, w: &Vec<char>) -> (r: bool)
    ensures
        r == (s@ == w@),
{
    let c = chars_of(s.as_str());
    assert(c@.subrange(0, c@.len() as int) =~= c@);
    slice_equals(&c, 0, c.len(), w)
}

/// The position of the parent of node `i`, where it has one.
pub fn parent_exec(nodes: &Vec<DomNode>, i: usize) -> (r: Option<usize>)
    ensures
        match r {
            Some(p) => p as int == parent_of(nodes_view(nodes@), i as int),
            None => parent_of(nodes_view(nodes@), i as int) == -1,
        },
{
    let ghost nv = nodes_view(nodes@);
    if i >= nodes.len() || nodes[i].depth == 0 {
        return None;
    }
    let d = nodes[i].depth - 1;
    let mut end: usize = i;
    while end > 0
        invariant
            end <= i < nodes.len(),
            nv == nodes_view(nodes@),
            d == nv[i as int].depth - 1,
            parent_of(nv, i as int) == last_at_depth(nv, end as int, d as int),
        decreases end,
    {
        if nodes[end - 1].depth == d {
            return Some(end - 1);
        }
        end = end - 1;
    }
    None
}

/// Whether node `i` is an element named `name`.
fn element_named_exec(nodes: &Vec<DomNode>, i: usize, name: &Vec<char>) -> (r: bool)
    ensures
        r == element_named(nodes_view(nodes@), i as int, name@),
{
    if i >= nodes.len() {
        return false;
    }
    match &nodes[i].kind {
        DomKind::Element(n, _) => string_equals(n, name),
        _ => false,
    }
}

/// Whether position `i` of `flags` is set.
fn flagged_exec(flags: &Vec<bool>, i: usize) -> (r: bool)
    ensures
        r == flagged(flags@, i as int),
{
    i < flags.len() && flags[i]
}

/// The first node that `links` marks.
fn first_link_exec(nodes: &Vec<DomNode>, links: &Vec<bool>) -> (r: Option<usize>)
    ensures
        match r {
            Some(i) => i as int == first_link_from(nodes_view(nodes@), links@, 0) && i
                < nodes.len(),
            None => first_link_from(nodes_view(nodes@), links@, 0) == -1,
        },
{
    let ghost nv = nodes_view(nodes@);
    let mut i: usize = 0;
    while i < nodes.len()
        invariant
            i <= nodes.len(),
            nv == nodes_view(nodes@),
            first_link_from(nv, links@, 0) == first_link_from(nv, links@, i as int),
        decreases nodes.len() - i,
    {
        if flagged_exec(links, i) {
            return Some(i);
        }
        i = i + 1;
    }
    None
}

/// The nodes that `titles` marks, in document order.
fn titles_exec(nodes: &Vec<DomNode>, titles: &Vec<bool>) -> (r: Vec<usize>)
    ensures
        r@.map_values(|i: usize| i as int) == titles_from(nodes_view(nodes@), titles@, 0),
        forall|k: int| 0 <= k < r.len() ==> #[trigger] r@[k] < nodes.len(),
{
    let ghost nv = nodes_view(nodes@);
    let mut out: Vec<usize> = Vec::new();
    let mut i: usize = 0;
    while i < nodes.len()
        invariant
            i <= nodes.len(),
            nv == nodes_view(nodes@),
            out@.map_values(|i: usize| i as int) + titles_from(nv, titles@, i as int)
                == titles_from(nv, titles@, 0),
            forall|k: int| 0 <= k < out.len() ==> #[trigger] out@[k] < nodes.len(),
        decreases nodes.len() - i,
    {
        if flagged_exec(titles, i) {
            proof {
                assert(out@.push(i).map_values(|i: usize| i as int) =~= out@.map_values(
                    |i: usize| i as int,
                ).push(i as int));
                assert(out@.map_values(|i: usize| i as int).push(i as int) + titles_from(
                    nv,
                    titles@,
                    i + 1,
                ) =~= out@.map_values(|i: usize| i as int) + titles_from(nv, titles@, i as int));
            }
            out.push(i);
        }
        i = i + 1;
    }
    proof {
        assert(out@.map_values(|i: usize| i as int) + titles_from(nv, titles@, i as int)
            =~= out@.map_values(|i: usize| i as int));
    }
    out
}

/// The first text among the descendants of node `t`.
fn first_text_exec(nodes: &Vec<DomNode>, t: usize) -> (r: Option<String>)
    requires
        t < nodes.len(),
    ensures
        match r {
            Some(s) => first_text_from(nodes_view(nodes@), t as int, t + 1) == Some(s@),
            None => first_text_from(nodes_view(nodes@), t as int, t + 1) is None,
        },
{
    let ghost nv = nodes_view(nodes@);
    let mut j: usize = t + 1;
    while j < nodes.len() && nodes[j].depth > nodes[t].depth
        invariant
            t < j <= nodes.len(),
            nv == nodes_view(nodes@),
            first_text_from(nv, t as int, t + 1) == first_text_from(nv, t as int, j as int),
        decreases nodes.len() - j,
    {
        match &nodes[j].kind {
            DomKind::Text(s) => {
                return Some(s.clone());
            },
            _ => {},
        }
        j = j + 1;
    }
    None
}

/// The text of the schedule box at node `b`: the texts of its descendants, with a line
/// break for each `br` element, joined by single spaces.
pub fn box_text_exec(nodes: &Vec<DomNode>, b: usize) -> (r: String)
    requires
        b < nodes.len(),
    ensures
        r@ == box_text(nodes_view(nodes@), b as int),
{
    let ghost nv = nodes_view(nodes@);
    let br = vec!['b', 'r'];
    let mut out: Vec<char> = Vec::new();
    let mut first = true;
    let mut j: usize = b + 1;
    while j < nodes.len() && nodes[j].depth > nodes[b].depth
        invariant
            b < j <= nodes.len(),
            nv == nodes_view(nodes@),
            br@ == name_br(),
            out@ + box_text_from(nv, b as int, j as int, first) == box_text(nv, b as int),
        decreases nodes.len() - j,
    {
        let ghost before = out@;
        let piece: Option<Vec<char>> = match &nodes[j].kind {
            DomKind::Text(s) => Some(chars_of(s.as_str())),
            DomKind::Element(n, _) => if string_equals(n, &br) {
                Some(vec!['\n'])
            } else {
                None
            },
            DomKind::Other => None,
        };
        match piece {
            Some(p) => {
                if !first {
                    out.push(' ');
                }
                let mut k: usize = 0;
                let ghost mid = out@;
                while k < p.len()
                    invariant
                        k <= p.len(),
                        out@ == mid + p@.take(k as int),
                    decreases p.len() - k,
                {
                    out.push(p[k]);
                    k = k + 1;
                    assert(out@ =~= mid + p@.take(k as int));
                }
                proof {
                    assert(p@.take(k as int) =~= p@);
                    assert(piece_of(nv[j as int]) == Some(p@));
                    if first {
                        assert(mid == before);
                    } else {
                        assert(mid =~= before + seq![' ']);
                    }
                    assert(out@ + box_text_from(nv, b as int, j + 1, false) =~= before
                        + box_text_from(nv, b as int, j as int, first));
                }
                first = false;
            },
            None => {},
        }
        j = j + 1;
    }
    proof {
        assert(out@ + box_text_from(nv, b as int, j as int, first) =~= out@);
    }
    string_from_chars(&out)
}

/// The newsletter link of the document and, for each title heading in document order,
/// its title and the text of its schedule box; `links` marks the nodes that the link
/// selector matches and `titles` those that the title selector matches.
pub fn walk_document(nodes: &Vec<DomNode>, links: &Vec<bool>, titles: &Vec<bool>) -> (r: Result<
    ScheduleDocument,
    ParseError,
>)
    ensures
        match document_structure(nodes_view(nodes@), links@, titles@) {
            Ok(v) => r matches Ok(d) && d@ == v,
            Err(e) => r == Err::<ScheduleDocument, ParseError>(e),
        },
{
    let ghost nv = nodes_view(nodes@);
    let l = match first_link_exec(nodes, links) {
        Some(l) => l,
        None => return Err(ParseError::MissingLink),
    };
    let link = match &nodes[l].kind {
        DomKind::Element(_, Some(href)) => href.clone(),
        _ => return Err(ParseError::MissingHref),
    };
    let heads = titles_exec(nodes, titles);
    let ghost ts = titles_from(nv, titles@, 0);
    let tbody = vec!['t', 'b', 'o', 'd', 'y'];
    let mut boxes: Vec<ScheduleBox> = Vec::new();
    let mut k: usize = 0;
    assert(boxes_view(boxes@) =~= seq![]);
    assert(document_structure(nv, links@, titles@) == match boxes_upto(nv, ts, ts.len() as int) {
        Err(e) => Err(e),
        Ok(bx) => Ok((link@, bx)),
    });
    while k < heads.len()
        invariant
            k <= heads.len(),
            nv == nodes_view(nodes@),
            ts == heads@.map_values(|i: usize| i as int),
            tbody@ == name_tbody(),
            document_structure(nv, links@, titles@) == match boxes_upto(nv, ts, ts.len() as int) {
                Err(e) => Err(e),
                Ok(bx) => Ok((link@, bx)),
            },
            forall|m: int| 0 <= m < heads.len() ==> #[trigger] heads@[m] < nodes.len(),
            boxes_upto(nv, ts, k as int) == Ok::<_, ParseError>(boxes_view(boxes@)),
        decreases heads.len() - k,
    {
        let t = heads[k];
        assert(ts[k as int] == t as int);
        let title = match first_text_exec(nodes, t) {
            Some(s) => s,
            None => {
                proof {
                    lemma_boxes_error_stays(nv, ts, (k + 1) as int, ts.len() as int);
                }
                return Err(ParseError::MissingTitleText(k));
            },
        };
        let parent = parent_exec(nodes, t);
        let grandparent = match parent {
            Some(p) => parent_exec(nodes, p),
            None => None,
        };
        let box_node = match grandparent {
            Some(p) => parent_exec(nodes, p),
            None => None,
        };
        proof {
            assert(parent_of(nv, -1) == -1);
        }
        let b = match box_node {
            Some(b) => b,
            None => {
                proof {
                    assert(!element_named(nv, box_of(nv, t as int), name_tbody()));
                    lemma_boxes_error_stays(nv, ts, (k + 1) as int, ts.len() as int);
                }
                return Err(ParseError::MissingScheduleBox(k));
            },
        };
        if !element_named_exec(nodes, b, &tbody) {
            proof {
                lemma_boxes_error_stays(nv, ts, (k + 1) as int, ts.len() as int);
            }
            return Err(ParseError::MissingScheduleBox(k));
        }
        let text = box_text_exec(nodes, b);
        let sb = ScheduleBox { title, text };
        proof {
            assert(boxes_view(boxes@.push(sb)) =~= boxes_view(boxes@).push((sb.title@, sb.text@)));
        }
        boxes.push(sb);
        k = k + 1;
    }
    assert(heads.len() == ts.len());
    Ok(ScheduleDocument { newsletter_link: link, boxes })
}

proof fn lemma_boxes_error_stays(nodes: Seq<DomNodeView>, titles: Seq<int>, k: int, n: int)
    requires
        1 <= k <= n,
        boxes_upto(nodes, titles, k) is Err,
    ensures
        boxes_upto(nodes, titles, n) == boxes_upto(nodes, titles, k),
    decreases n - k,
{
    if k < n {
        lemma_boxes_error_stays(nodes, titles, k + 1, n);
    }
}

} // verus!

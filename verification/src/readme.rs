//! The outline of the awesome-list readme: which links it lists, under which
//! titles, and with which sub-links.
//!
//! The markdown is parsed by `comrak`; what the logic reads of the syntax tree
//! is handed over as the sequence of node starts and ends of a depth-first
//! traversal (`MdEvent`), each start carrying the node's kind. Everything
//! else is computed and proved here, over that sequence.

use vstd::prelude::*;
use comrak::arena_tree::NodeEdge;
use comrak::nodes::NodeValue;
use comrak::{parse_document, Arena, ComrakOptions};
use crate::text::{joined, push_str};

verus! {

/// Where the links of the list that point into the readme itself (`#...`) lead.
pub const BASE_URL: &'static str = "https://github.com/sindresorhus/awesome";

/// The kind of a markdown node, as far as the outline reads it.
pub enum MdKind {
    /// A link, with its destination.
    Link(String),
    /// A text node, with its text.
    Text(String),
    /// A list (bulleted or ordered).
    List,
    /// Any other node.
    Other,
}

/// One step of a depth-first traversal: a node starts, or the node most
/// recently started and not yet ended ends.
pub enum MdEvent {
    Open(MdKind),
    Close,
}

/// What `comrak::parse_document` (default options) followed by a traversal
/// of the resulting tree gives for a document.
pub uninterp spec fn markdown_events(content: Seq<char>) -> Seq<MdEvent>;

/// Parses `content` with `comrak::parse_document` (default options) and
/// returns `Node::traverse` of the root, each edge converted one for one:
/// `NodeEdge::Start` to `Open` with the node's kind, `NodeEdge::End` to
/// `Close`. Claimed: the result is a function of the content alone. The
/// shape of the sequence (that it is well bracketed) is not stated; nothing
/// here relies on it.
#[verifier::external_body]
pub(crate) fn markdown_outline(content: &str) -> (events: Vec<MdEvent>)
    ensures
        events@ == markdown_events(content@),
{
    let arena = Arena::new();
    let root = parse_document(&arena, content, &ComrakOptions::default());
    let mut events = Vec::new();
    for edge in root.traverse() {
        events.push(match edge {
            NodeEdge::Start(node) => MdEvent::Open(match &node.data.borrow().value {
                NodeValue::Link(link) => MdKind::Link(link.url.clone()),
                NodeValue::Text(text) => MdKind::Text(text.clone()),
                NodeValue::List(_) => MdKind::List,
                _ => MdKind::Other,
            }),
            NodeEdge::End(_) => MdEvent::Close,
        });
    }
    events
}

/// A sub-link of a listed link: its text and its (resolved) destination.
pub struct SubLink {
    pub title: String,
    pub url: String,
}

/// A link listed in the readme: its text, its (resolved) destination, and its
/// sub-links.
pub struct ReadmeItem {
    pub title: String,
    pub url: String,
    pub sub_links: Vec<SubLink>,
}

impl View for SubLink {
    type V = (Seq<char>, Seq<char>);

    open spec fn view(&self) -> (Seq<char>, Seq<char>) {
        (self.title@, self.url@)
    }
}

impl View for ReadmeItem {
    type V = (Seq<char>, Seq<char>, Seq<(Seq<char>, Seq<char>)>);

    open spec fn view(&self) -> (Seq<char>, Seq<char>, Seq<(Seq<char>, Seq<char>)>) {
        (self.title@, self.url@, self.sub_links@.map_values(|s: SubLink| s@))
    }
}

/// The views of a sequence of items.
pub open spec fn item_views(items: Seq<ReadmeItem>) -> Seq<(Seq<char>, Seq<char>, Seq<(Seq<char>, Seq<char>)>)> {
    items.map_values(|it: ReadmeItem| it@)
}

/// The nesting depth before event `k`: starts minus ends among the first `k`
/// events.
pub open spec fn depth(ev: Seq<MdEvent>, k: int) -> int
    decreases k,
{
    if k <= 0 {
        0
    } else {
        depth(ev, k - 1) + if ev[k - 1] is Open { 1int } else { -1int }
    }
}

/// The node started at `c` is a child of the node started at `p`: it starts
/// one level deeper, before `p` has ended.
pub open spec fn is_child(ev: Seq<MdEvent>, p: int, c: int) -> bool {
    &&& 0 <= p < c < ev.len()
    &&& ev[p] is Open
    &&& ev[c] is Open
    &&& depth(ev, c) == depth(ev, p) + 1
    &&& forall|k: int| p < k <= c ==> depth(ev, k) > depth(ev, p)
}

/// The children of `p` that start before position `k`, in order.
pub open spec fn children_upto(ev: Seq<MdEvent>, p: int, k: int) -> Seq<int>
    decreases k - p,
{
    if k <= p + 1 {
        seq![]
    } else {
        children_upto(ev, p, k - 1) + if is_child(ev, p, k - 1) { seq![k - 1] } else { seq![] }
    }
}

/// The children of the node started at `p`, in order.
pub open spec fn children(ev: Seq<MdEvent>, p: int) -> Seq<int> {
    children_upto(ev, p, ev.len() as int)
}

/// The text of the last text node among `kids`, or the empty text.
pub open spec fn last_text(ev: Seq<MdEvent>, kids: Seq<int>) -> Seq<char>
    decreases kids.len(),
{
    if kids.len() == 0 {
        seq![]
    } else {
        match ev[kids.last()] {
            MdEvent::Open(MdKind::Text(t)) => t@,
            _ => last_text(ev, kids.drop_last()),
        }
    }
}

/// The last list node among `kids`.
pub open spec fn last_list(ev: Seq<MdEvent>, kids: Seq<int>) -> Option<int>
    decreases kids.len(),
{
    if kids.len() == 0 {
        None
    } else {
        match ev[kids.last()] {
            MdEvent::Open(MdKind::List) => Some(kids.last()),
            _ => last_list(ev, kids.drop_last()),
        }
    }
}

/// The text of a link node: that of its last text child.
pub open spec fn link_text(ev: Seq<MdEvent>, p: int) -> Seq<char> {
    last_text(ev, children(ev, p))
}

/// A destination as listed: one that starts with `#` points into the readme.
pub open spec fn resolve_url(url: Seq<char>) -> Seq<char> {
    if url.len() > 0 && url[0] == '#' {
        BASE_URL@ + "/"@ + url
    } else {
        url
    }
}

/// The sub-links among `kids`: each link node with a non-empty text.
pub open spec fn link_entries(ev: Seq<MdEvent>, kids: Seq<int>) -> Seq<(Seq<char>, Seq<char>)>
    decreases kids.len(),
{
    if kids.len() == 0 {
        seq![]
    } else {
        link_entries(ev, kids.drop_last()) + match ev[kids.last()] {
            MdEvent::Open(MdKind::Link(url)) => if link_text(ev, kids.last()).len() > 0 {
                seq![(link_text(ev, kids.last()), resolve_url(url@))]
            } else {
                seq![]
            },
            _ => seq![],
        }
    }
}

/// The sub-links of the link started at `p`: the links directly under its
/// last list child.
pub open spec fn sub_links(ev: Seq<MdEvent>, p: int) -> Seq<(Seq<char>, Seq<char>)> {
    match last_list(ev, children(ev, p)) {
        Some(l) => link_entries(ev, children(ev, l)),
        None => seq![],
    }
}

/// The items of the first `k` events: each link node with a non-empty text,
/// in document order.
pub open spec fn outline_upto(ev: Seq<MdEvent>, k: int) -> Seq<(Seq<char>, Seq<char>, Seq<(Seq<char>, Seq<char>)>)>
    decreases k,
{
    if k <= 0 {
        seq![]
    } else {
        outline_upto(ev, k - 1) + match ev[k - 1] {
            MdEvent::Open(MdKind::Link(url)) => if link_text(ev, k - 1).len() > 0 {
                seq![(link_text(ev, k - 1), resolve_url(url@), sub_links(ev, k - 1))]
            } else {
                seq![]
            },
            _ => seq![],
        }
    }
}

/// The items listed by a traversal.
pub open spec fn outline(ev: Seq<MdEvent>) -> Seq<(Seq<char>, Seq<char>, Seq<(Seq<char>, Seq<char>)>)> {
    outline_upto(ev, ev.len() as int)
}

pub open spec fn as_ints(s: Seq<usize>) -> Seq<int> {
    s.map_values(|i: usize| i as int)
}

proof fn lemma_no_children_after(ev: Seq<MdEvent>, p: int, k: int, m: int)
    requires
        0 <= p < k,
        k + 1 <= m,
        depth(ev, k + 1) <= depth(ev, p),
    ensures
        children_upto(ev, p, m) == children_upto(ev, p, k + 1),
    decreases m - k,
{
    if m > k + 1 {
        lemma_no_children_after(ev, p, k, m - 1);
        assert(!is_child(ev, p, m - 1));
        assert(children_upto(ev, p, m) =~= children_upto(ev, p, m - 1));
    }
}

/// The positions of the children of the node started at `p`.
pub fn child_positions(ev: &Vec<MdEvent>, p: usize) -> (r: Vec<usize>)
    requires
        p < ev@.len(),
        ev@[p as int] is Open,
    ensures
        as_ints(r@) == children(ev@, p as int),
        forall|i: int| 0 <= i < r@.len() ==> is_child(ev@, p as int, r@[i] as int),
{
    let mut r: Vec<usize> = Vec::new();
    let n = ev.len();
    let mut k: usize = p + 1;
    let mut d: usize = 1;
    while k < ev.len()
        invariant
            p < k <= ev@.len(),
            ev@[p as int] is Open,
            1 <= d <= k - p,
            d == depth(ev@, k as int) - depth(ev@, p as int),
            forall|j: int| p < j <= k ==> depth(ev@, j) > depth(ev@, p as int),
            as_ints(r@) == children_upto(ev@, p as int, k as int),
            forall|i: int| 0 <= i < r@.len() ==> is_child(ev@, p as int, r@[i] as int),
        decreases ev@.len() - k,
    {
        let ghost old_r = r@;
        match &ev[k] {
            MdEvent::Open(_) => {
                if d == 1 {
                    r.push(k);
                    proof {
                        assert(is_child(ev@, p as int, k as int));
                        assert(as_ints(r@) =~= as_ints(old_r).push(k as int));
                    }
                } else {
                    proof {
                        assert(!is_child(ev@, p as int, k as int));
                    }
                }
                d = d + 1;
            }
            MdEvent::Close => {
                proof {
                    assert(!is_child(ev@, p as int, k as int));
                    assert(children_upto(ev@, p as int, k + 1) =~= children_upto(ev@, p as int, k as int));
                }
                if d == 1 {
                    proof {
                        lemma_no_children_after(ev@, p as int, k as int, ev@.len() as int);
                    }
                    return r;
                }
                d = d - 1;
            }
        }
        proof {
            assert(children_upto(ev@, p as int, k + 1) =~= as_ints(r@));
        }
        k = k + 1;
    }
    r
}

/// The text of the last text node among `kids`.
fn text_among(ev: &Vec<MdEvent>, kids: &Vec<usize>) -> (t: String)
    requires
        forall|i: int| 0 <= i < kids@.len() ==> kids@[i] < ev@.len(),
    ensures
        t@ == last_text(ev@, as_ints(kids@)),
{
    let mut t = String::new();
    let mut i: usize = 0;
    while i < kids.len()
        invariant
            i <= kids@.len(),
            forall|j: int| 0 <= j < kids@.len() ==> kids@[j] < ev@.len(),
            t@ == last_text(ev@, as_ints(kids@.take(i as int))),
        decreases kids@.len() - i,
    {
        let ghost before = as_ints(kids@.take(i as int));
        let ghost after = as_ints(kids@.take(i + 1));
        proof {
            assert(after.drop_last() =~= before);
            assert(after.last() == kids@[i as int] as int);
        }
        match &ev[kids[i]] {
            MdEvent::Open(MdKind::Text(s)) => {
                t = s.clone();
            },
            _ => {},
        }
        i = i + 1;
    }
    proof {
        assert(kids@.take(kids@.len() as int) =~= kids@);
    }
    t
}

/// The position of the last list node among `kids`.
fn list_among(ev: &Vec<MdEvent>, kids: &Vec<usize>) -> (l: Option<usize>)
    requires
        forall|i: int| 0 <= i < kids@.len() ==> kids@[i] < ev@.len(),
    ensures
        match l {
            Some(x) => last_list(ev@, as_ints(kids@)) == Some(x as int) && x < ev@.len(),
            None => last_list(ev@, as_ints(kids@)) is None,
        },
{
    let mut l: Option<usize> = None;
    let mut i: usize = 0;
    while i < kids.len()
        invariant
            i <= kids@.len(),
            forall|j: int| 0 <= j < kids@.len() ==> kids@[j] < ev@.len(),
            match l {
                Some(x) => last_list(ev@, as_ints(kids@.take(i as int))) == Some(x as int) && x < ev@.len(),
                None => last_list(ev@, as_ints(kids@.take(i as int))) is None,
            },
        decreases kids@.len() - i,
    {
        let ghost before = as_ints(kids@.take(i as int));
        let ghost after = as_ints(kids@.take(i + 1));
        proof {
            assert(after.drop_last() =~= before);
            assert(after.last() == kids@[i as int] as int);
        }
        match &ev[kids[i]] {
            MdEvent::Open(MdKind::List) => {
                l = Some(kids[i]);
            },
            _ => {},
        }
        i = i + 1;
    }
    proof {
        assert(kids@.take(kids@.len() as int) =~= kids@);
    }
    l
}

/// The text of the link node started at `p`.
fn link_text_at(ev: &Vec<MdEvent>, p: usize) -> (t: String)
    requires
        p < ev@.len(),
        ev@[p as int] is Open,
    ensures
        t@ == link_text(ev@, p as int),
{
    let kids = child_positions(ev, p);
    text_among(ev, &kids)
}

/// A destination as listed (`resolve_url`).
pub fn resolve(url: &String) -> (r: String)
    ensures
        r@ == resolve_url(url@),
{
    let s = url.as_str();
    if s.unicode_len() > 0 && s.get_char(0) == '#' {
        let base = joined(BASE_URL, "/");
        let mut r = base;
        push_str(&mut r, s);
        r
    } else {
        url.clone()
    }
}

proof fn lemma_views_push<T: View>(v: Seq<T>, x: T)
    ensures
        v.push(x).map_values(|e: T| e@) == v.map_values(|e: T| e@).push(x@),
{
    assert(v.push(x).map_values(|e: T| e@) =~= v.map_values(|e: T| e@).push(x@));
}

/// The sub-links among `kids`.
fn entries_among(ev: &Vec<MdEvent>, kids: &Vec<usize>) -> (r: Vec<SubLink>)
    requires
        forall|i: int| 0 <= i < kids@.len() ==> kids@[i] < ev@.len(),
    ensures
        r@.map_values(|s: SubLink| s@) == link_entries(ev@, as_ints(kids@)),
{
    let mut r: Vec<SubLink> = Vec::new();
    let mut i: usize = 0;
    while i < kids.len()
        invariant
            i <= kids@.len(),
            forall|j: int| 0 <= j < kids@.len() ==> kids@[j] < ev@.len(),
            r@.map_values(|s: SubLink| s@) == link_entries(ev@, as_ints(kids@.take(i as int))),
        decreases kids@.len() - i,
    {
        let ghost before = as_ints(kids@.take(i as int));
        let ghost after = as_ints(kids@.take(i + 1));
        proof {
            assert(after.drop_last() =~= before);
            assert(after.last() == kids@[i as int] as int);
        }
        let k = kids[i];
        match &ev[k] {
            MdEvent::Open(MdKind::Link(url)) => {
                let title = link_text_at(ev, k);
                if !title.as_str().is_empty() {
                    let entry = SubLink { title, url: resolve(url) };
                    proof {
                        lemma_views_push(r@, entry);
                    }
                    r.push(entry);
                } else {
                    proof {
                        assert(link_entries(ev@, after) =~= link_entries(ev@, before));
                    }
                }
            },
            _ => {
                proof {
                    assert(link_entries(ev@, after) =~= link_entries(ev@, before));
                }
            },
        }
        i = i + 1;
    }
    proof {
        assert(kids@.take(kids@.len() as int) =~= kids@);
    }
    r
}

/// The sub-links of the link node started at `p`.
fn sub_links_at(ev: &Vec<MdEvent>, p: usize) -> (r: Vec<SubLink>)
    requires
        p < ev@.len(),
        ev@[p as int] is Open,
    ensures
        r@.map_values(|s: SubLink| s@) == sub_links(ev@, p as int),
{
    let kids = child_positions(ev, p);
    match list_among(ev, &kids) {
        Some(l) => {
            proof {
                let ks = as_ints(kids@);
                assert(last_list(ev@, ks) == Some(l as int));
                lemma_last_list_is_list(ev@, ks);
            }
            let grand = child_positions(ev, l);
            entries_among(ev, &grand)
        },
        None => {
            let r: Vec<SubLink> = Vec::new();
            proof {
                assert(r@.map_values(|s: SubLink| s@) =~= Seq::<(Seq<char>, Seq<char>)>::empty());
            }
            r
        },
    }
}

proof fn lemma_last_list_is_list(ev: Seq<MdEvent>, kids: Seq<int>)
    requires
        last_list(ev, kids) is Some,
    ensures
        ev[last_list(ev, kids)->0] matches MdEvent::Open(MdKind::List),
    decreases kids.len(),
{
    if kids.len() > 0 {
        match ev[kids.last()] {
            MdEvent::Open(MdKind::List) => {},
            _ => lemma_last_list_is_list(ev, kids.drop_last()),
        }
    }
}

/// The outline of a traversal: every link node with a non-empty text, in
/// document order, with its resolved destination and its sub-links.
pub fn collect_outline(ev: &Vec<MdEvent>) -> (items: Vec<ReadmeItem>)
    ensures
        item_views(items@) == outline(ev@),
{
    let mut items: Vec<ReadmeItem> = Vec::new();
    let mut k: usize = 0;
    while k < ev.len()
        invariant
            k <= ev@.len(),
            item_views(items@) == outline_upto(ev@, k as int),
        decreases ev@.len() - k,
    {
        match &ev[k] {
            MdEvent::Open(MdKind::Link(url)) => {
                let title = link_text_at(ev, k);
                if !title.as_str().is_empty() {
                    let subs = sub_links_at(ev, k);
                    let item = ReadmeItem { title, url: resolve(url), sub_links: subs };
                    proof {
                        lemma_views_push(items@, item);
                    }
                    items.push(item);
                } else {
                    proof {
                        assert(outline_upto(ev@, k + 1) =~= outline_upto(ev@, k as int));
                    }
                }
            },
            _ => {
                proof {
                    assert(outline_upto(ev@, k + 1) =~= outline_upto(ev@, k as int));
                }
            },
        }
        k = k + 1;
    }
    items
}

/// The outline of a markdown document.
pub fn parse_outline(content: &str) -> (items: Vec<ReadmeItem>)
    ensures
        item_views(items@) == outline(markdown_events(content@)),
{
    let ev = markdown_outline(content);
    collect_outline(&ev)
}

proof fn lemma_entries_titled(ev: Seq<MdEvent>, kids: Seq<int>)
    ensures
        forall|k: int| 0 <= k < link_entries(ev, kids).len() ==> (#[trigger] link_entries(ev, kids)[k]).0.len() > 0,
    decreases kids.len(),
{
    if kids.len() > 0 {
        lemma_entries_titled(ev, kids.drop_last());
        let prev = link_entries(ev, kids.drop_last());
        assert forall|k: int| 0 <= k < link_entries(ev, kids).len() implies (#[trigger] link_entries(ev, kids)[k]).0.len() > 0 by {
            if k < prev.len() {
                assert(link_entries(ev, kids)[k] == prev[k]);
            }
        }
    }
}

/// Every listed link, and every sub-link, has a non-empty title.
pub proof fn law_outline_titled(ev: Seq<MdEvent>, k: int)
    requires
        0 <= k <= ev.len(),
    ensures
        forall|i: int| 0 <= i < outline_upto(ev, k).len() ==> (#[trigger] outline_upto(ev, k)[i]).0.len() > 0,
        forall|i: int, j: int|
            0 <= i < outline_upto(ev, k).len() && 0 <= j < outline_upto(ev, k)[i].2.len() ==> (#[trigger] outline_upto(ev, k)[i].2[j]).0.len() > 0,
    decreases k,
{
    if k > 0 {
        law_outline_titled(ev, k - 1);
        let prev = outline_upto(ev, k - 1);
        assert forall|i: int| 0 <= i < outline_upto(ev, k).len() implies (#[trigger] outline_upto(ev, k)[i]).0.len() > 0 by {
            if i < prev.len() {
                assert(outline_upto(ev, k)[i] == prev[i]);
            }
        }
        assert forall|i: int, j: int|
            0 <= i < outline_upto(ev, k).len() && 0 <= j < outline_upto(ev, k)[i].2.len() implies (#[trigger] outline_upto(ev, k)[i].2[j]).0.len() > 0 by {
            if i < prev.len() {
                assert(outline_upto(ev, k)[i] == prev[i]);
            } else {
                match last_list(ev, children(ev, k - 1)) {
                    Some(l) => lemma_entries_titled(ev, children(ev, l)),
                    None => {},
                }
            }
        }
    }
}

} // verus!

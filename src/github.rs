//! The shapes in which the GitHub GraphQL API pages its results, and a
//! walker that decides, page by page, whether to fetch another.
//!
//! The walker does no I/O. Its owner fetches the page that
//! [`Pager::cursor`] names, hands it to [`Pager::accept`], and goes on while
//! [`Pager::is_done`] is false; a failed fetch is reported to
//! [`Pager::retry`], which says whether the same page may be tried again.

use vstd::prelude::*;

verus! {

/// Where a page ends, and whether another follows.
pub struct PageInfo {
    pub has_next_page: bool,
    pub end_cursor: Option<String>,
}

/// A list of connections, as GraphQL wraps them.
pub struct Edges<A> {
    pub edges: Vec<Node<A>>,
}

/// One connection.
pub struct Node<A> {
    pub node: A,
}

/// One page of a paginated connection.
pub struct Paged<A> {
    pub page_info: PageInfo,
    pub edges: Vec<Node<A>>,
}

/// The items that a list of connections carries, in order.
pub open spec fn nodes_of<A>(edges: Seq<Node<A>>) -> Seq<A> {
    edges.map_values(|n: Node<A>| n.node)
}

/// The text of an optional cursor.
pub open spec fn cursor_view(c: Option<String>) -> Option<Seq<char>> {
    match c {
        Some(s) => Some(s@),
        None => None,
    }
}

/// What the walker learns from one page: its items, whether the server
/// has more, the cursor that continues after it, and whether the owner
/// wants to stop early on seeing it.
pub struct PageModel<A> {
    pub items: Seq<A>,
    pub has_next: bool,
    pub cursor: Option<Seq<char>>,
    pub stop: bool,
}

/// The model of a fetched page.
pub open spec fn page_model<A>(page: Paged<A>, stop: bool) -> PageModel<A> {
    PageModel {
        items: nodes_of(page.edges@),
        has_next: page.page_info.has_next_page,
        cursor: cursor_view(page.page_info.end_cursor),
        stop,
    }
}

/// A page after which another may be fetched: the server has more, says
/// where it begins, and the owner has not asked to stop.
pub open spec fn continues<A>(p: PageModel<A>) -> bool {
    p.has_next && p.cursor is Some && !p.stop
}

/// The state of a walk over a paginated collection.
pub struct WalkView<A> {
    /// Items of the pages accepted so far, page after page.
    pub items: Seq<A>,
    /// Pages accepted so far.
    pub pages: nat,
    /// The page budget: no page is fetched once this many were accepted.
    pub max_pages: nat,
    /// Failed fetches of the page now wanted.
    pub failures: nat,
    /// How many times one page may be tried in all.
    pub max_attempts: nat,
    /// Where the next page begins; `None` before the first.
    pub cursor: Option<Seq<char>>,
    /// No further page is to be fetched.
    pub done: bool,
}

/// A walk that has fetched nothing yet.
pub open spec fn fresh_walk<A>(max_pages: nat, max_attempts: nat) -> WalkView<A> {
    WalkView {
        items: Seq::empty(),
        pages: 0,
        max_pages,
        failures: 0,
        max_attempts,
        cursor: None,
        done: false,
    }
}

/// The walk after one more page: its items are appended, and the walk is
/// done when the page does not continue or the budget is spent.
pub open spec fn accept_page<A>(w: WalkView<A>, p: PageModel<A>) -> WalkView<A> {
    WalkView {
        items: w.items + p.items,
        pages: w.pages + 1,
        max_pages: w.max_pages,
        failures: 0,
        max_attempts: w.max_attempts,
        cursor: p.cursor,
        done: !continues(p) || w.pages + 1 >= w.max_pages,
    }
}

/// The walk after being offered `ps` in order; once done, it takes no more.
pub open spec fn walk<A>(w: WalkView<A>, ps: Seq<PageModel<A>>) -> WalkView<A>
    decreases ps.len(),
{
    if ps.len() == 0 || w.done {
        w
    } else {
        walk(accept_page(w, ps[0]), ps.drop_first())
    }
}

/// The items of all of `ps`, page after page.
pub open spec fn concat_items<A>(ps: Seq<PageModel<A>>) -> Seq<A>
    decreases ps.len(),
{
    if ps.len() == 0 {
        Seq::empty()
    } else {
        ps[0].items + concat_items(ps.drop_first())
    }
}

proof fn lemma_walk_through<A>(w: WalkView<A>, ps: Seq<PageModel<A>>)
    requires
        !w.done,
        0 < ps.len(),
        w.pages + ps.len() <= w.max_pages,
        forall|i: int| 0 <= i < ps.len() - 1 ==> continues(#[trigger] ps[i]),
        !ps.last().has_next,
    ensures
        walk(w, ps).items == w.items + concat_items(ps),
        walk(w, ps).done,
        walk(w, ps).pages == w.pages + ps.len(),
    decreases ps.len(),
{
    let next = accept_page(w, ps[0]);
    if ps.len() == 1 {
        assert(concat_items(ps.drop_first()) == Seq::<A>::empty());
        assert(concat_items(ps) =~= ps[0].items);
        assert(next.items =~= w.items + concat_items(ps));
    } else {
        assert(continues(ps[0]));
        let rest = ps.drop_first();
        assert forall|i: int| 0 <= i < rest.len() - 1 implies continues(#[trigger] rest[i]) by {
            assert(rest[i] == ps[i + 1]);
        }
        lemma_walk_through(next, rest);
        assert(w.items + ps[0].items + concat_items(rest) =~= w.items + concat_items(ps));
    }
}

/// Pagination is complete: offered every page of a source, in order, a
/// fresh walk gathers all their items in the order given and then ends,
/// however the items are split into pages, as long as every page but the
/// last continues, the last says no more follow, and the page budget
/// allows that many pages.
pub proof fn lemma_walk_complete<A>(max_pages: nat, max_attempts: nat, ps: Seq<PageModel<A>>)
    requires
        0 < ps.len() <= max_pages,
        forall|i: int| 0 <= i < ps.len() - 1 ==> continues(#[trigger] ps[i]),
        !ps.last().has_next,
    ensures
        walk(fresh_walk::<A>(max_pages, max_attempts), ps).items == concat_items(ps),
        walk(fresh_walk::<A>(max_pages, max_attempts), ps).done,
        walk(fresh_walk::<A>(max_pages, max_attempts), ps).pages == ps.len(),
{
    let w = fresh_walk::<A>(max_pages, max_attempts);
    lemma_walk_through(w, ps);
    assert(w.items + concat_items(ps) =~= concat_items(ps));
}

proof fn lemma_walk_until<A>(w: WalkView<A>, ps: Seq<PageModel<A>>, k: int)
    requires
        !w.done,
        0 <= k < ps.len(),
        w.pages + k < w.max_pages,
        ps[k].stop,
        forall|i: int| 0 <= i < k ==> continues(#[trigger] ps[i]),
    ensures
        walk(w, ps) == walk(w, ps.take(k + 1)),
        walk(w, ps).items == w.items + concat_items(ps.take(k + 1)),
        walk(w, ps).done,
        walk(w, ps).pages == w.pages + k + 1,
    decreases k,
{
    let next = accept_page(w, ps[0]);
    let head = ps.take(k + 1);
    assert(head[0] == ps[0]);
    assert(head.drop_first() =~= ps.drop_first().take(k));
    if k == 0 {
        assert(next.done);
        assert(concat_items(head.drop_first()) == Seq::<A>::empty());
        assert(concat_items(head) =~= ps[0].items);
        assert(next.items =~= w.items + concat_items(head));
    } else {
        assert(continues(ps[0]));
        let rest = ps.drop_first();
        assert forall|i: int| 0 <= i < k - 1 implies continues(#[trigger] rest[i]) by {
            assert(rest[i] == ps[i + 1]);
        }
        assert(rest[k - 1] == ps[k]);
        lemma_walk_until(next, rest, k - 1);
        assert(w.items + ps[0].items + concat_items(rest.take(k)) =~= w.items + concat_items(head));
    }
}

/// Early stop: when the owner asks to stop on page `k`, and every earlier
/// page continued, the walk ends right after page `k`. It holds the items
/// of pages `0..=k` and nothing of the pages after, which it never takes:
/// offering them changes nothing.
pub proof fn lemma_walk_stops_early<A>(
    max_pages: nat,
    max_attempts: nat,
    ps: Seq<PageModel<A>>,
    k: int,
)
    requires
        0 <= k < ps.len(),
        k < max_pages,
        ps[k].stop,
        forall|i: int| 0 <= i < k ==> continues(#[trigger] ps[i]),
    ensures
        walk(fresh_walk::<A>(max_pages, max_attempts), ps) == walk(
            fresh_walk::<A>(max_pages, max_attempts),
            ps.take(k + 1),
        ),
        walk(fresh_walk::<A>(max_pages, max_attempts), ps).items == concat_items(ps.take(k + 1)),
        walk(fresh_walk::<A>(max_pages, max_attempts), ps).done,
        walk(fresh_walk::<A>(max_pages, max_attempts), ps).pages == k + 1,
{
    let w = fresh_walk::<A>(max_pages, max_attempts);
    lemma_walk_until(w, ps, k);
    assert(w.items + concat_items(ps.take(k + 1)) =~= concat_items(ps.take(k + 1)));
}

/// Walks a paginated collection one page at a time.
pub struct Pager<A> {
    items: Vec<A>,
    pages: u32,
    max_pages: u32,
    failures: u32,
    max_attempts: u32,
    cursor: Option<String>,
    done: bool,
}

impl<A> View for Pager<A> {
    type V = WalkView<A>;

    closed spec fn view(&self) -> WalkView<A> {
        WalkView {
            items: self.items@,
            pages: self.pages as nat,
            max_pages: self.max_pages as nat,
            failures: self.failures as nat,
            max_attempts: self.max_attempts as nat,
            cursor: cursor_view(self.cursor),
            done: self.done,
        }
    }
}

/// Moves the items out of a list of connections, keeping their order.
pub fn into_nodes<A>(edges: Vec<Node<A>>) -> (r: Vec<A>)
    ensures
        r@ == nodes_of(edges@),
{
    let ghost all = nodes_of(edges@);
    let mut rest = edges;
    let mut r: Vec<A> = Vec::new();
    while rest.len() > 0
        invariant
            r@ + nodes_of(rest@) == all,
        decreases rest@.len(),
    {
        let ghost before = rest@;
        let n = rest.remove(0);
        proof {
            assert(nodes_of(before) =~= seq![n.node] + nodes_of(rest@));
            assert(r@.push(n.node) + nodes_of(rest@) =~= r@ + nodes_of(before));
        }
        r.push(n.node);
    }
    proof {
        assert(nodes_of(rest@) =~= Seq::<A>::empty());
        assert(r@ =~= all);
    }
    r
}

impl<A> Pager<A> {
    #[verifier::type_invariant]
    spec fn counters_fit(self) -> bool {
        &&& !self.done ==> self.pages == 0 || self.pages < self.max_pages
        &&& self.failures == 0 || self.failures < self.max_attempts
    }

    /// A walk that will accept at most `max_pages` pages (at least one is
    /// always fetched) and try each page at most `max_attempts` times.
    pub fn new(max_pages: u32, max_attempts: u32) -> (r: Pager<A>)
        ensures
            r@ == fresh_walk::<A>(max_pages as nat, max_attempts as nat),
    {
        Pager {
            items: Vec::new(),
            pages: 0,
            max_pages,
            failures: 0,
            max_attempts,
            cursor: None,
            done: false,
        }
    }

    /// Whether the walk has ended: no further page is to be fetched.
    pub fn is_done(&self) -> (r: bool)
        ensures
            r == self@.done,
    {
        self.done
    }

    /// Where the page to fetch next begins; `None` for the first page.
    pub fn cursor(&self) -> (r: Option<String>)
        ensures
            cursor_view(r) == self@.cursor,
    {
        match &self.cursor {
            Some(c) => Some(c.clone()),
            None => None,
        }
    }

    /// Takes in a fetched page. `stop` is the owner's early-stop verdict on
    /// it; the walk ends after this page when it is set, when the server has
    /// no more or gives no cursor, or when the page budget is spent.
    pub fn accept(&mut self, page: Paged<A>, stop: bool)
        requires
            !old(self)@.done,
        ensures
            final(self)@ == accept_page(old(self)@, page_model(page, stop)),
    {
        proof {
            use_type_invariant(&*self);
        }
        let ghost model = page_model(page, stop);
        let more = page.page_info.has_next_page && page.page_info.end_cursor.is_some() && !stop;
        let mut fresh = into_nodes(page.edges);
        let mut items: Vec<A> = Vec::new();
        core::mem::swap(&mut self.items, &mut items);
        items.append(&mut fresh);
        let pages = self.pages + 1;
        let done = !more || pages >= self.max_pages;
        *self = Pager {
            items,
            pages,
            max_pages: self.max_pages,
            failures: 0,
            max_attempts: self.max_attempts,
            cursor: page.page_info.end_cursor,
            done,
        };
        proof {
            assert(self@.items =~= old(self)@.items + model.items);
        }
    }

    /// Records a failed fetch of the page now wanted, and says whether it
    /// may be tried again: each page is tried at most `max_attempts` times.
    /// The walk is left as it was when no try is left.
    pub fn retry(&mut self) -> (r: bool)
        ensures
            r == (old(self)@.failures + 1 < old(self)@.max_attempts),
            r ==> final(self)@ == (WalkView { failures: old(self)@.failures + 1, ..old(self)@ }),
            !r ==> final(self)@ == old(self)@,
    {
        proof {
            use_type_invariant(&*self);
        }
        if self.max_attempts > 0 && self.failures < self.max_attempts - 1 {
            self.failures = self.failures + 1;
            true
        } else {
            false
        }
    }

    /// The items of every page accepted, page after page.
    pub fn into_items(self) -> (r: Vec<A>)
        ensures
            r@ == self@.items,
    {
        self.items
    }
}

} // verus!

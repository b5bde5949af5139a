//! A bounded search through a tree of accessible objects.
//!
//! The tree lies with other programs: each object has to be asked for its state
//! and its children, and any of them may be deep, wide or slow. [`Walk`] says
//! which object to ask next, depth first and in order, and stops at a depth and a
//! number of objects.

use vstd::prelude::*;

verus! {

/// The depth below which no object is asked; the roots have depth 0.
pub const MAX_DEPTH: usize = 12;

/// The most objects that one search asks.
pub const MAX_NODES: usize = 400;

/// A tree of objects: the object `id`, whether it is one that is looked for, and
/// the trees of its children.
pub struct Tree {
    pub id: u64,
    pub matches: bool,
    pub children: Seq<Tree>,
}

/// The search below one object: what it finds, and how many objects may still be
/// asked afterwards.
pub open spec fn descend(t: Tree, depth: nat, budget: nat) -> (Option<u64>, nat)
    decreases t, 0nat,
{
    if depth > MAX_DEPTH || budget == 0 {
        (None, budget)
    } else if t.matches {
        (Some(t.id), (budget - 1) as nat)
    } else {
        descend_each(t.children, depth + 1, (budget - 1) as nat)
    }
}

/// The search below each of several objects, one after the other, until it finds
/// something or no more objects may be asked.
pub open spec fn descend_each(ts: Seq<Tree>, depth: nat, budget: nat) -> (Option<u64>, nat)
    decreases ts, 1nat,
{
    if ts.len() == 0 || budget == 0 {
        (None, budget)
    } else {
        let (found, left) = descend(ts[0], depth, budget);
        if found is Some {
            (found, left)
        } else {
            descend_each(ts.drop_first(), depth, left)
        }
    }
}

/// An object that waits to be asked.
#[verifier::ext_equal]
pub struct Waiting {
    pub id: u64,
    pub depth: nat,
}

/// A [`Walk`] as a mathematical value.
#[verifier::ext_equal]
pub struct WalkView {
    /// The objects that wait to be asked; the next one is the last.
    pub waiting: Seq<Waiting>,
    /// How many objects may still be asked.
    pub budget: nat,
    /// The object that is being asked.
    pub asked: Option<Waiting>,
}

/// `ids` at `depth`, so that the first of them comes last.
pub open spec fn queued(ids: Seq<u64>, depth: nat) -> Seq<Waiting> {
    Seq::new(ids.len(), |i: int| Waiting { id: ids[ids.len() - 1 - i], depth })
}

/// `waiting` without the objects at its end that lie too deep.
pub open spec fn reachable(waiting: Seq<Waiting>) -> Seq<Waiting>
    decreases waiting.len(),
{
    if waiting.len() > 0 && waiting.last().depth > MAX_DEPTH {
        reachable(waiting.drop_last())
    } else {
        waiting
    }
}

impl WalkView {
    /// The search begins at `roots`.
    pub open spec fn start(roots: Seq<u64>) -> WalkView {
        WalkView { waiting: queued(roots, 0), budget: MAX_NODES as nat, asked: None }
    }

    /// The next object is asked; none, where the search is over.
    pub open spec fn next(self) -> WalkView {
        let w = reachable(self.waiting);
        if self.budget == 0 {
            WalkView { asked: None, ..self }
        } else if w.len() == 0 {
            WalkView { waiting: w, asked: None, ..self }
        } else {
            WalkView {
                waiting: w.drop_last(),
                budget: (self.budget - 1) as nat,
                asked: Some(w.last()),
            }
        }
    }

    /// The object that was asked is not looked for and has the children
    /// `children`.
    pub open spec fn answered(self, children: Seq<u64>) -> WalkView {
        WalkView {
            waiting: self.waiting + queued(children, self.asked->Some_0.depth + 1),
            asked: None,
            ..self
        }
    }
}

/// A search through a tree of objects, known by their ids.
pub struct Walk {
    waiting: Vec<(u64, usize)>,
    budget: usize,
    asked: Option<(u64, usize)>,
}

/// Waiting objects.
pub open spec fn waiting_view(w: Seq<(u64, usize)>) -> Seq<Waiting> {
    w.map_values(|x: (u64, usize)| Waiting { id: x.0, depth: x.1 as nat })
}

fn queue(waiting: &mut Vec<(u64, usize)>, ids: &Vec<u64>, depth: usize)
    ensures
        waiting_view(final(waiting)@) == waiting_view(old(waiting)@) + queued(ids@, depth as nat),
{
    let ghost before = waiting_view(waiting@);
    let mut i: usize = ids.len();
    while i > 0
        invariant
            i <= ids.len(),
            waiting_view(waiting@) == before + queued(ids@, depth as nat).take(ids.len() - i),
        decreases i,
    {
        i -= 1;
        let ghost sofar = waiting_view(waiting@);
        waiting.push((ids[i], depth));
        assert(waiting_view(waiting@) =~= sofar.push(Waiting { id: ids@[i as int], depth: depth as nat }));
        assert(waiting_view(waiting@) =~= before + queued(ids@, depth as nat).take(ids.len() - i));
    }
    assert(queued(ids@, depth as nat).take(ids@.len() as int) =~= queued(ids@, depth as nat));
}

impl Walk {
    /// The search as a mathematical value.
    pub closed spec fn view(&self) -> WalkView {
        WalkView {
            waiting: waiting_view(self.waiting@),
            budget: self.budget as nat,
            asked: match self.asked {
                Some(x) => Some(Waiting { id: x.0, depth: x.1 as nat }),
                None => None,
            },
        }
    }

    /// The object that is being asked does not lie too deep.
    pub open spec fn wf(self) -> bool {
        self@.asked is Some ==> self@.asked->Some_0.depth <= MAX_DEPTH
    }

    /// Begins a search at `roots`.
    pub fn new(roots: &Vec<u64>) -> (r: Walk)
        ensures
            r.wf(),
            r@ == WalkView::start(roots@),
    {
        let mut waiting: Vec<(u64, usize)> = Vec::new();
        queue(&mut waiting, roots, 0);
        assert(waiting_view(waiting@) =~= queued(roots@, 0));
        Walk { waiting, budget: MAX_NODES, asked: None }
    }

    /// The object to ask next; none, where the search has found nothing.
    pub fn next(&mut self) -> (r: Option<u64>)
        ensures
            final(self).wf(),
            final(self)@ == old(self)@.next(),
            r == match final(self)@.asked {
                Some(w) => Some(w.id),
                None => None,
            },
    {
        self.asked = None;
        if self.budget == 0 {
            return None;
        }
        while self.waiting.len() > 0 && self.waiting[self.waiting.len() - 1].1 > MAX_DEPTH
            invariant
                reachable(waiting_view(self.waiting@)) == reachable(old(self)@.waiting),
                self.budget as nat == old(self)@.budget,
                self.asked is None,
            decreases self.waiting.len(),
        {
            let ghost before = waiting_view(self.waiting@);
            let _ = self.waiting.pop();
            assert(waiting_view(self.waiting@) =~= before.drop_last());
        }
        let ghost w = waiting_view(self.waiting@);
        match self.waiting.pop() {
            None => None,
            Some(x) => {
                assert(waiting_view(self.waiting@) =~= w.drop_last());
                assert(w.last() == (Waiting { id: x.0, depth: x.1 as nat }));
                self.budget -= 1;
                self.asked = Some(x);
                Some(x.0)
            },
        }
    }

    /// Takes in the answer of the object that was asked: whether it is one that is
    /// looked for, which ends the search, and its children. An object that cannot
    /// be reached, or will not name its children, has none.
    pub fn answer(&mut self, matches: bool, children: &Vec<u64>) -> (found: Option<u64>)
        requires
            old(self).wf(),
            old(self)@.asked is Some,
        ensures
            final(self).wf(),
            matches ==> found == Some(old(self)@.asked->Some_0.id) && final(self)@ == old(self)@,
            !matches ==> found is None && final(self)@ == old(self)@.answered(children@),
    {
        match self.asked {
            Some(x) => {
                if matches {
                    Some(x.0)
                } else {
                    queue(&mut self.waiting, children, x.1 + 1);
                    self.asked = None;
                    None
                }
            },
            None => None,
        }
    }
}

// ---------------------------------------------------------------------------
// Laws
// ---------------------------------------------------------------------------

/// A tree at a depth.
pub struct Rooted {
    pub tree: Tree,
    pub depth: nat,
}

/// The trees `ts` at `depth`.
pub open spec fn rooted(ts: Seq<Tree>, depth: nat) -> Seq<Rooted> {
    ts.map_values(|t: Tree| Rooted { tree: t, depth })
}

/// The search below each of several objects at depths of their own.
pub open spec fn search(rs: Seq<Rooted>, budget: nat) -> (Option<u64>, nat)
    decreases rs.len(),
{
    if rs.len() == 0 || budget == 0 {
        (None, budget)
    } else {
        let (found, left) = descend(rs[0].tree, rs[0].depth, budget);
        if found is Some {
            (found, left)
        } else {
            search(rs.drop_first(), left)
        }
    }
}

/// The ids of `ts`.
pub open spec fn ids_of(ts: Seq<Tree>) -> Seq<u64> {
    ts.map_values(|t: Tree| t.id)
}

/// The objects that wait are the roots of `rs`; the first of them is the next.
pub open spec fn stands_for(w: Seq<Waiting>, rs: Seq<Rooted>) -> bool {
    &&& w.len() == rs.len()
    &&& forall|i: int|
        0 <= i < rs.len() ==> #[trigger] w[w.len() - 1 - i] == (Waiting {
            id: rs[i].tree.id,
            depth: rs[i].depth,
        })
}

proof fn lemma_search_concat(a: Seq<Rooted>, b: Seq<Rooted>, budget: nat)
    ensures
        search(a + b, budget) == {
            let (found, left) = search(a, budget);
            if found is Some {
                (found, left)
            } else {
                search(b, left)
            }
        },
    decreases a.len(),
{
    if a.len() == 0 {
        assert(a + b =~= b);
    } else if budget > 0 {
        assert((a + b).drop_first() =~= a.drop_first() + b);
        let (found, left) = descend(a[0].tree, a[0].depth, budget);
        if found is None {
            lemma_search_concat(a.drop_first(), b, left);
        }
    }
}

proof fn lemma_search_is_descend_each(ts: Seq<Tree>, depth: nat, budget: nat)
    ensures
        search(rooted(ts, depth), budget) == descend_each(ts, depth, budget),
    decreases ts.len(),
{
    if ts.len() > 0 && budget > 0 {
        assert(rooted(ts, depth).drop_first() =~= rooted(ts.drop_first(), depth));
        let (found, left) = descend(ts[0], depth, budget);
        if found is None {
            lemma_search_is_descend_each(ts.drop_first(), depth, left);
        }
    }
}

/// A search begins at the roots of the trees that it searches.
pub proof fn law_walk_starts_at_roots(ts: Seq<Tree>)
    ensures
        stands_for(WalkView::start(ids_of(ts)).waiting, rooted(ts, 0)),
        search(rooted(ts, 0), MAX_NODES as nat) == descend_each(ts, 0, MAX_NODES as nat),
{
    lemma_search_is_descend_each(ts, 0, MAX_NODES as nat);
}

/// `rs` without the trees at its start that lie too deep.
pub open spec fn not_too_deep(rs: Seq<Rooted>) -> Seq<Rooted>
    decreases rs.len(),
{
    if rs.len() > 0 && rs[0].depth > MAX_DEPTH {
        not_too_deep(rs.drop_first())
    } else {
        rs
    }
}

/// The trees that are left once the root of the first of `rs` has named its
/// children.
pub open spec fn opened(rs: Seq<Rooted>) -> Seq<Rooted> {
    rooted(rs[0].tree.children, rs[0].depth + 1) + rs.drop_first()
}

/// The next object that a search asks is the next object of the trees: either
/// nothing is left and the trees hold nothing, or it is the root of the first tree
/// that does not lie too deep.
pub proof fn law_walk_asks_in_order(v: WalkView, rs: Seq<Rooted>)
    requires
        stands_for(v.waiting, rs),
    ensures
        v.next().asked is None ==> search(rs, v.budget).0 is None,
        v.next().asked is Some ==> {
            let left = not_too_deep(rs);
            &&& left.len() > 0
            &&& left[0].depth <= MAX_DEPTH
            &&& v.next().asked == Some(Waiting { id: left[0].tree.id, depth: left[0].depth })
            &&& v.next().budget + 1 == v.budget
            &&& stands_for(v.next().waiting, left.drop_first())
            &&& search(rs, v.budget) == search(left, v.budget)
        },
    decreases rs.len(),
{
    if v.budget > 0 && rs.len() > 0 {
        assert(v.waiting[v.waiting.len() - 1 - 0] == v.waiting.last());
        let w = v.waiting.drop_last();
        let tail = rs.drop_first();
        assert forall|i: int| 0 <= i < tail.len() implies #[trigger] w[w.len() - 1 - i] == (
        Waiting { id: tail[i].tree.id, depth: tail[i].depth }) by {
            assert(v.waiting[v.waiting.len() - 1 - (i + 1)] == (Waiting {
                id: rs[i + 1].tree.id,
                depth: rs[i + 1].depth,
            }));
        }
        if rs[0].depth > MAX_DEPTH {
            law_walk_asks_in_order(WalkView { waiting: w, ..v }, tail);
        }
    }
}

/// The answer of an object leads the search on as the trees say: a match is what
/// the trees hold, and otherwise the object's children come before all others.
pub proof fn law_walk_follows_answers(v: WalkView, left: Seq<Rooted>)
    requires
        left.len() > 0,
        left[0].depth <= MAX_DEPTH,
        v.asked == Some(Waiting { id: left[0].tree.id, depth: left[0].depth }),
        stands_for(v.waiting, left.drop_first()),
    ensures
        left[0].tree.matches ==> search(left, v.budget + 1).0 == Some(left[0].tree.id),
        !left[0].tree.matches ==> {
            &&& stands_for(v.answered(ids_of(left[0].tree.children)).waiting, opened(left))
            &&& search(left, v.budget + 1) == search(opened(left), v.budget)
        },
{
    let t = left[0].tree;
    let depth = left[0].depth;
    let below = rooted(t.children, depth + 1);
    let tail = left.drop_first();
    let rs = opened(left);
    if !t.matches {
        lemma_search_concat(below, tail, v.budget);
        lemma_search_is_descend_each(t.children, depth + 1, v.budget);
        let w = v.answered(ids_of(t.children)).waiting;
        assert forall|i: int| 0 <= i < rs.len() implies #[trigger] w[w.len() - 1 - i] == (Waiting {
            id: rs[i].tree.id,
            depth: rs[i].depth,
        }) by {
            if i >= below.len() {
                let j = i - below.len();
                assert(v.waiting[v.waiting.len() - 1 - j] == (Waiting {
                    id: tail[j].tree.id,
                    depth: tail[j].depth,
                }));
            }
        }
    }
}

/// A whole search: each object that is asked answers as the trees `rs` say.
pub open spec fn run(v: WalkView, rs: Seq<Rooted>) -> Option<u64>
    decreases v.budget,
{
    let n = v.next();
    let left = not_too_deep(rs);
    if n.asked is None || n.budget >= v.budget {
        None
    } else if left[0].tree.matches {
        Some(n.asked->Some_0.id)
    } else {
        run(n.answered(ids_of(left[0].tree.children)), opened(left))
    }
}

proof fn lemma_run(v: WalkView, rs: Seq<Rooted>)
    requires
        stands_for(v.waiting, rs),
    ensures
        run(v, rs) == search(rs, v.budget).0,
    decreases v.budget,
{
    let n = v.next();
    let left = not_too_deep(rs);
    law_walk_asks_in_order(v, rs);
    if n.asked is Some {
        law_walk_follows_answers(n, left);
        if !left[0].tree.matches {
            lemma_run(n.answered(ids_of(left[0].tree.children)), opened(left));
        }
    }
}

/// A whole search finds what the depth-first search through the trees finds, in
/// their order, down to [`MAX_DEPTH`] and among the first [`MAX_NODES`] objects.
pub proof fn law_walk_finds_what_the_trees_hold(ts: Seq<Tree>)
    ensures
        run(WalkView::start(ids_of(ts)), rooted(ts, 0)) == descend_each(
            ts,
            0,
            MAX_NODES as nat,
        ).0,
{
    law_walk_starts_at_roots(ts);
    lemma_run(WalkView::start(ids_of(ts)), rooted(ts, 0));
}

/// A search asks one object fewer each time, and none once it has asked as many as
/// it may.
pub proof fn law_walk_is_bounded(v: WalkView)
    ensures
        v.next().asked is Some ==> v.next().budget + 1 == v.budget,
        v.next().asked is None ==> v.next().budget == v.budget,
        v.budget == 0 ==> v.next().asked is None,
        forall|children: Seq<u64>| #[trigger] v.answered(children).budget == v.budget,
{
}

// ---------------------------------------------------------------------------
// Single steps, and what is found
// ---------------------------------------------------------------------------

/// A search begins with its roots, all at depth 0, the first of them next, and may ask 400
/// objects.
pub proof fn law_walk_begins(roots: Seq<u64>, i: int)
    ensures
        WalkView::start(roots).waiting.len() == roots.len(),
        0 <= i < roots.len() ==> WalkView::start(roots).waiting[roots.len() - 1 - i] == (Waiting { id: roots[i], depth: 0 }),
        WalkView::start(roots).budget == 400,
        WalkView::start(roots).asked is None,
{
}

/// The object that waits last is asked next, down to depth 12; one that lies deeper is
/// passed over. Nothing is asked where nothing waits or no object may be asked any more.
pub proof fn law_walk_asks_the_last(v: WalkView)
    ensures
        v.budget > 0 && v.waiting.len() > 0 && v.waiting.last().depth <= 12 ==> v.next().asked
            == Some(v.waiting.last()) && v.next().waiting == v.waiting.drop_last() && v.next().budget
            == v.budget - 1,
        v.budget > 0 && v.waiting.len() > 0 && v.waiting.last().depth > 12 ==> v.next()
            == (WalkView { waiting: v.waiting.drop_last(), ..v }).next(),
        v.budget == 0 || v.waiting.len() == 0 ==> v.next().asked is None,
{
    reveal_with_fuel(reachable, 2);
}

/// The children of an object that was asked come before all others, one level deeper, the
/// first of them next; what waits already goes on waiting.
pub proof fn law_children_come_next(v: WalkView, children: Seq<u64>, i: int)
    requires
        v.asked is Some,
        0 <= i < children.len(),
    ensures
        v.answered(children).waiting.len() == v.waiting.len() + children.len(),
        v.answered(children).waiting.take(v.waiting.len() as int) == v.waiting,
        v.answered(children).waiting[v.waiting.len() + children.len() - 1 - i] == (Waiting {
            id: children[i],
            depth: v.asked->Some_0.depth + 1,
        }),
        v.answered(children).budget == v.budget,
{
    assert(v.answered(children).waiting.take(v.waiting.len() as int) =~= v.waiting);
}

/// An object without children leads back to those that wait.
pub proof fn law_leaf_leads_back(v: WalkView)
    requires
        v.asked is Some,
    ensures
        v.answered(Seq::empty()).waiting == v.waiting,
        v.answered(Seq::empty()).budget == v.budget,
{
    assert(v.answered(Seq::empty()).waiting =~= v.waiting);
}

/// The objects of a tree in the order of a search: an object before its children, and no
/// object below depth 12.
pub open spec fn in_order(t: Tree, depth: nat) -> Seq<Tree>
    decreases t, 0nat,
{
    if depth > 12 {
        Seq::empty()
    } else {
        seq![t] + in_order_each(t.children, depth + 1)
    }
}

/// The objects of several trees, one tree after the other.
pub open spec fn in_order_each(ts: Seq<Tree>, depth: nat) -> Seq<Tree>
    decreases ts, 1nat,
{
    if ts.len() == 0 {
        Seq::empty()
    } else {
        in_order(ts[0], depth) + in_order_each(ts.drop_first(), depth)
    }
}

/// The first match among the first `budget` objects, and how many may still be asked.
spec fn first_match(s: Seq<Tree>, budget: nat) -> (Option<u64>, nat)
    decreases s.len(),
{
    if s.len() == 0 || budget == 0 {
        (None, budget)
    } else if s[0].matches {
        (Some(s[0].id), (budget - 1) as nat)
    } else {
        first_match(s.drop_first(), (budget - 1) as nat)
    }
}

proof fn lemma_first_match_concat(a: Seq<Tree>, b: Seq<Tree>, budget: nat)
    ensures
        first_match(a + b, budget) == {
            let (found, left) = first_match(a, budget);
            if found is Some {
                (found, left)
            } else {
                first_match(b, left)
            }
        },
    decreases a.len(),
{
    if a.len() == 0 {
        assert(a + b =~= b);
    } else if budget > 0 && !a[0].matches {
        assert((a + b).drop_first() =~= a.drop_first() + b);
        lemma_first_match_concat(a.drop_first(), b, (budget - 1) as nat);
    }
}

proof fn lemma_descend_in_order(t: Tree, depth: nat, budget: nat)
    ensures
        descend(t, depth, budget) == first_match(in_order(t, depth), budget),
    decreases t, 0nat,
{
    if depth <= 12 && budget > 0 {
        let below = in_order_each(t.children, depth + 1);
        assert((seq![t] + below).drop_first() =~= below);
        if !t.matches {
            lemma_descend_each_in_order(t.children, depth + 1, (budget - 1) as nat);
        }
    }
}

proof fn lemma_descend_each_in_order(ts: Seq<Tree>, depth: nat, budget: nat)
    ensures
        descend_each(ts, depth, budget) == first_match(in_order_each(ts, depth), budget),
    decreases ts, 1nat,
{
    if ts.len() > 0 && budget > 0 {
        lemma_descend_in_order(ts[0], depth, budget);
        lemma_first_match_concat(in_order(ts[0], depth), in_order_each(ts.drop_first(), depth), budget);
        let (found, left) = descend(ts[0], depth, budget);
        if found is None {
            lemma_descend_each_in_order(ts.drop_first(), depth, left);
        }
    }
}

proof fn lemma_first_match(s: Seq<Tree>, budget: nat)
    ensures
        match first_match(s, budget).0 {
            Some(id) => exists|i: int|
                0 <= i < s.len() && i < budget && (#[trigger] s[i]).matches && s[i].id == id && forall|
                    j: int,
                |
                    0 <= j < i ==> !(#[trigger] s[j]).matches,
            None => forall|i: int| 0 <= i < s.len() && i < budget ==> !(#[trigger] s[i]).matches,
        },
    decreases s.len(),
{
    if s.len() > 0 && budget > 0 && !s[0].matches {
        let rest = s.drop_first();
        lemma_first_match(rest, (budget - 1) as nat);
        match first_match(s, budget).0 {
            Some(id) => {
                let i = choose|i: int|
                    0 <= i < rest.len() && i < budget - 1 && (#[trigger] rest[i]).matches && rest[i].id
                        == id && forall|j: int| 0 <= j < i ==> !(#[trigger] rest[j]).matches;
                assert(s[i + 1] == rest[i]);
                assert forall|j: int| 0 <= j < i + 1 implies !(#[trigger] s[j]).matches by {
                    if j > 0 {
                        assert(!rest[j - 1].matches);
                    }
                }
            },
            None => {
                assert forall|i: int| 0 <= i < s.len() && i < budget implies !(
                #[trigger] s[i]).matches by {
                    if i > 0 {
                        assert(!rest[i - 1].matches);
                    }
                }
            },
        }
    } else if s.len() > 0 && budget > 0 {
        assert(s[0].matches && s[0].id == first_match(s, budget).0->Some_0);
    }
}

/// A whole search finds the first object that is looked for, depth first and in order,
/// among the first 400 objects down to depth 12, and nothing only where none of those is.
pub proof fn law_walk_finds_the_first_match(ts: Seq<Tree>)
    ensures
        match run(WalkView::start(ids_of(ts)), rooted(ts, 0)) {
            Some(id) => exists|i: int|
                0 <= i < in_order_each(ts, 0).len() && i < 400 && (#[trigger] in_order_each(
                    ts,
                    0,
                )[i]).matches && in_order_each(ts, 0)[i].id == id && forall|j: int|
                    0 <= j < i ==> !(#[trigger] in_order_each(ts, 0)[j]).matches,
            None => forall|i: int|
                0 <= i < in_order_each(ts, 0).len() && i < 400 ==> !(#[trigger] in_order_each(
                    ts,
                    0,
                )[i]).matches,
        },
{
    law_walk_finds_what_the_trees_hold(ts);
    lemma_descend_each_in_order(ts, 0, MAX_NODES as nat);
    lemma_first_match(in_order_each(ts, 0), MAX_NODES as nat);
}

/// The search through trees finds the first match among as many objects as it may ask.
pub proof fn law_trees_give_their_first_match(ts: Seq<Tree>, budget: nat)
    ensures
        match descend_each(ts, 0, budget).0 {
            Some(id) => exists|i: int|
                0 <= i < in_order_each(ts, 0).len() && i < budget && (#[trigger] in_order_each(
                    ts,
                    0,
                )[i]).matches && in_order_each(ts, 0)[i].id == id && forall|j: int|
                    0 <= j < i ==> !(#[trigger] in_order_each(ts, 0)[j]).matches,
            None => forall|i: int|
                0 <= i < in_order_each(ts, 0).len() && i < budget ==> !(#[trigger] in_order_each(
                    ts,
                    0,
                )[i]).matches,
        },
{
    lemma_descend_each_in_order(ts, 0, budget);
    lemma_first_match(in_order_each(ts, 0), budget);
}

} // verus!

//! Who waits for whom, as mathematics: dependency lists, the walks along them,
//! the cycles those walks close and the descendants they reach.

use crate::text::{law_order_is_irreflexive, law_order_is_total, law_order_is_transitive,
    sorts_before};
use vstd::prelude::*;

verus! {

/// A graph of tasks: the ids, and beside each the ids it needs and the ids
/// that need it.
pub struct DagView {
    pub ids: Seq<Seq<char>>,
    pub needs: Seq<Seq<Seq<char>>>,
    pub dependents: Seq<Seq<Seq<char>>>,
}

/// The list that stands beside `id`; nothing for an id that is not there.
pub open spec fn beside(ids: Seq<Seq<char>>, lists: Seq<Seq<Seq<char>>>, id: Seq<char>) -> Seq<
    Seq<char>,
> {
    if ids.contains(id) {
        lists[ids.index_of(id)]
    } else {
        Seq::empty()
    }
}

/// The ids among `ids` whose own list in `needs` holds `id`, in order.
pub open spec fn who_needs(
    ids: Seq<Seq<char>>,
    needs: Seq<Seq<Seq<char>>>,
    id: Seq<char>,
) -> Seq<Seq<char>> {
    ids.filter(|other: Seq<char>| beside(ids, needs, other).contains(id))
}

impl DagView {
    pub open spec fn needs_of(self, id: Seq<char>) -> Seq<Seq<char>> {
        beside(self.ids, self.needs, id)
    }

    pub open spec fn dependents_of(self, id: Seq<char>) -> Seq<Seq<char>> {
        beside(self.ids, self.dependents, id)
    }

    /// No id stands twice, needs name other ids that are there, and the
    /// dependents of an id are those that need it.
    pub open spec fn is_consistent(self) -> bool {
        &&& self.ids.no_duplicates()
        &&& self.needs.len() == self.ids.len()
        &&& self.dependents.len() == self.ids.len()
        &&& forall|i: int, d: Seq<char>|
            0 <= i < self.ids.len() && #[trigger] self.needs[i].contains(d) ==> self.ids.contains(d)
                && d != self.ids[i]
        &&& forall|i: int|
            0 <= i < self.ids.len() ==> #[trigger] self.dependents[i] == who_needs(
                self.ids,
                self.needs,
                self.ids[i],
            )
    }

    /// Whether each id of the path needs the next.
    pub open spec fn is_need_walk(self, path: Seq<Seq<char>>) -> bool {
        forall|i: int|
            0 <= i < path.len() - 1 ==> self.needs_of(#[trigger] path[i]).contains(path[i + 1])
    }

    /// Whether following needs along the path leads back to where it began.
    pub open spec fn is_cycle(self, path: Seq<Seq<char>>) -> bool {
        path.len() >= 2 && path[0] == path.last() && self.is_need_walk(path)
    }

    /// Whether each id of the path is needed by the next.
    pub open spec fn is_descent(self, path: Seq<Seq<char>>) -> bool {
        forall|i: int|
            0 <= i < path.len() - 1 ==> self.dependents_of(#[trigger] path[i]).contains(path[i + 1])
    }

    /// Whether `below` waits for `above`, directly or through others.
    pub open spec fn descends(self, above: Seq<char>, below: Seq<char>) -> bool {
        exists|path: Seq<Seq<char>>|
            path.len() >= 2 && path[0] == above && path.last() == below && #[trigger] self.is_descent(
                path,
            )
    }

    /// Whether every member of `set` is an id that needs a member of `set`.
    #[verifier::opaque]
    pub open spec fn keeps_waiting(self, set: Set<Seq<char>>) -> bool {
        forall|x: Seq<char>| #[trigger]
            set.contains(x) ==> self.ids.contains(x) && self.needs_one_of(x, set)
    }

    /// Whether `x` needs a member of `set`.
    pub open spec fn needs_one_of(self, x: Seq<char>, set: Set<Seq<char>>) -> bool {
        exists|d: Seq<char>| self.needs_of(x).contains(d) && #[trigger] set.contains(d)
    }

    /// The ids that can never start: those on or downstream of a cycle.
    pub open spec fn stuck(self) -> Set<Seq<char>> {
        Set::new(
            |x: Seq<char>|
                exists|set: Set<Seq<char>>| #[trigger] self.keeps_waiting(set) && set.contains(x),
        )
    }

    /// Where following, from `start`, the first need inside `pool` leads in
    /// `steps` steps.
    pub open spec fn walked(self, pool: Set<Seq<char>>, start: Seq<char>, steps: nat) -> Seq<char>
        decreases steps,
    {
        if steps == 0 {
            start
        } else {
            let here = self.walked(pool, start, (steps - 1) as nat);
            match first_within(self.needs_of(here), pool) {
                Some(next) => next,
                None => here,
            }
        }
    }

    /// Whether the walk from `start` is back at `steps` steps where it has
    /// been, for the first time.
    pub open spec fn first_returns(
        self,
        pool: Set<Seq<char>>,
        start: Seq<char>,
        steps: nat,
    ) -> bool {
        &&& self.walk_is_new(pool, start, steps)
        &&& exists|i: nat|
            i < steps && #[trigger] self.walked(pool, start, i) == self.walked(pool, start, steps)
    }

    /// Whether the walk from `start` visits nothing twice in fewer than
    /// `steps` steps.
    pub open spec fn walk_is_new(self, pool: Set<Seq<char>>, start: Seq<char>, steps: nat) -> bool {
        forall|i: nat, j: nat|
            i < j < steps ==> #[trigger] self.walked(pool, start, i) != #[trigger] self.walked(
                pool,
                start,
                j,
            )
    }

    /// The stretch of the walk from `start` that begins and ends where it
    /// first comes back.
    pub open spec fn loop_from(self, pool: Set<Seq<char>>, start: Seq<char>) -> Seq<Seq<char>> {
        let last = choose|last: nat| self.first_returns(pool, start, last);
        let first = choose|first: nat|
            first < last && #[trigger] self.walked(pool, start, first) == self.walked(
                pool,
                start,
                last,
            );
        Seq::new((last - first + 1) as nat, |i: int| self.walked(pool, start, (first + i) as nat))
    }

    /// The cycle reported of a graph: the loop that the walk from the first
    /// stuck id, in sorting order, runs into.
    pub open spec fn cycle(self) -> Option<Seq<Seq<char>>> {
        if exists|x: Seq<char>| #[trigger] self.stuck().contains(x) {
            Some(self.loop_from(self.stuck(), least_of(self.stuck())))
        } else {
            None
        }
    }
}

/// The first of `list` that is in `pool`.
pub open spec fn first_within(list: Seq<Seq<char>>, pool: Set<Seq<char>>) -> Option<Seq<char>>
    decreases list.len(),
{
    if list.len() == 0 {
        None
    } else if pool.contains(list[0]) {
        Some(list[0])
    } else {
        first_within(list.skip(1), pool)
    }
}

/// Whether `x` sorts before everything else in `set`.
pub open spec fn is_least(set: Set<Seq<char>>, x: Seq<char>) -> bool {
    set.contains(x) && forall|y: Seq<char>| #[trigger]
        set.contains(y) ==> y == x || sorts_before(x, y)
}

/// The member of `set` that sorts first.
pub open spec fn least_of(set: Set<Seq<char>>) -> Seq<char> {
    choose|x: Seq<char>| is_least(set, x)
}

pub proof fn lemma_least_is_unique(set: Set<Seq<char>>, x: Seq<char>)
    requires
        is_least(set, x),
    ensures
        least_of(set) == x,
{
    let y = least_of(set);
    assert(is_least(set, y));
    if x != y {
        law_order_is_transitive(x, y, x);
        law_order_is_irreflexive(x);
    }
}

pub proof fn lemma_first_within(list: Seq<Seq<char>>, pool: Set<Seq<char>>)
    ensures
        match first_within(list, pool) {
            Some(x) => list.contains(x) && pool.contains(x),
            None => forall|d: Seq<char>| list.contains(d) ==> !#[trigger] pool.contains(d),
        },
    decreases list.len(),
{
    if list.len() > 0 && !pool.contains(list[0]) {
        lemma_first_within(list.skip(1), pool);
        match first_within(list, pool) {
            Some(x) => {
                let i = list.skip(1).index_of(x);
                assert(list[i + 1] == x);
            },
            None => {
                assert forall|d: Seq<char>| list.contains(d) implies !#[trigger] pool.contains(
                    d,
                ) by {
                    let i = list.index_of(d);
                    if i > 0 {
                        assert(list.skip(1)[i - 1] == d);
                    }
                }
            },
        }
    } else if list.len() > 0 {
        assert(list[0] == first_within(list, pool)->0);
    }
}

/// Of the members of `set` on `list` one sorts before all the others.
proof fn lemma_least_on_list(list: Seq<Seq<char>>, set: Set<Seq<char>>) -> (x: Seq<char>)
    requires
        exists|y: Seq<char>| list.contains(y) && #[trigger] set.contains(y),
    ensures
        list.contains(x),
        set.contains(x),
        forall|y: Seq<char>|
            list.contains(y) && #[trigger] set.contains(y) ==> y == x || sorts_before(x, y),
    decreases list.len(),
{
    let rest = list.drop_last();
    let last = list.last();
    assert forall|y: Seq<char>| list.contains(y) implies rest.contains(y) || y == last by {
        let i = list.index_of(y);
        if i < rest.len() {
            assert(rest[i] == y);
        }
    }
    assert forall|y: Seq<char>| rest.contains(y) implies list.contains(y) by {
        let i = rest.index_of(y);
        assert(list[i] == y);
    }
    assert(list[list.len() - 1] == last);
    if exists|y: Seq<char>| rest.contains(y) && #[trigger] set.contains(y) {
        let x = lemma_least_on_list(rest, set);
        if set.contains(last) && sorts_before(last, x) {
            assert forall|y: Seq<char>| list.contains(y) && #[trigger] set.contains(y) implies y
                == last || sorts_before(last, y) by {
                if y != last && y != x {
                    law_order_is_transitive(last, x, y);
                }
            }
            last
        } else {
            law_order_is_total(x, last);
            x
        }
    } else {
        last
    }
}

impl DagView {
    proof fn lemma_stuck_is_listed(self, x: Seq<char>)
        requires
            self.stuck().contains(x),
        ensures
            self.ids.contains(x),
    {
        reveal(DagView::keeps_waiting);
        let set = choose|set: Set<Seq<char>>| #[trigger]
            self.keeps_waiting(set) && set.contains(x);
        assert(set.contains(x));
    }

    /// The stuck ids themselves wait for each other.
    pub proof fn lemma_stuck_keeps_waiting(self)
        ensures
            self.keeps_waiting(self.stuck()),
    {
        reveal(DagView::keeps_waiting);
        assert forall|x: Seq<char>| #[trigger] self.stuck().contains(x) implies self.ids.contains(x)
            && self.needs_one_of(x, self.stuck()) by {
            let set = choose|set: Set<Seq<char>>| #[trigger]
                self.keeps_waiting(set) && set.contains(x);
            assert(set.contains(x));
            assert(self.needs_one_of(x, set));
            let d = choose|d: Seq<char>|
                self.needs_of(x).contains(d) && #[trigger] set.contains(d);
            assert(self.keeps_waiting(set) && set.contains(d));
            assert(self.stuck().contains(d));
        }
    }

    /// The largest set of ids that keeps waiting is the set of stuck ids.
    pub proof fn lemma_largest_waiting_set(self, pool: Set<Seq<char>>)
        requires
            self.keeps_waiting(pool),
            forall|set: Set<Seq<char>>, x: Seq<char>|
                #![trigger self.keeps_waiting(set), set.contains(x)]
                self.keeps_waiting(set) && set.contains(x) ==> pool.contains(x),
        ensures
            pool == self.stuck(),
    {
        assert(pool =~= self.stuck());
    }

    /// A walk inside a set that keeps waiting stays in it, from need to need.
    pub proof fn lemma_walk_stays(self, pool: Set<Seq<char>>, start: Seq<char>, steps: nat)
        requires
            self.keeps_waiting(pool),
            pool.contains(start),
        ensures
            pool.contains(self.walked(pool, start, steps)),
            self.needs_of(self.walked(pool, start, steps)).contains(
                self.walked(pool, start, steps + 1),
            ),
            self.ids.contains(self.walked(pool, start, steps)),
            first_within(self.needs_of(self.walked(pool, start, steps)), pool) == Some(
                self.walked(pool, start, steps + 1),
            ),
        decreases steps,
    {
        reveal(DagView::keeps_waiting);
        if steps > 0 {
            self.lemma_walk_stays(pool, start, (steps - 1) as nat);
            lemma_first_within(
                self.needs_of(self.walked(pool, start, (steps - 1) as nat)),
                pool,
            );
        }
        let here = self.walked(pool, start, steps);
        assert(pool.contains(here));
        lemma_first_within(self.needs_of(here), pool);
        assert(self.needs_one_of(here, pool));
        reveal_with_fuel(DagView::walked, 2);
    }

    /// A walk that visits nothing twice is no longer than there are ids.
    pub proof fn lemma_new_walk_is_short(self, pool: Set<Seq<char>>, start: Seq<char>, steps: nat)
        requires
            self.keeps_waiting(pool),
            pool.contains(start),
            self.walk_is_new(pool, start, steps),
        ensures
            steps <= self.ids.len(),
    {
        let visited = Seq::new(steps, |i: int| self.walked(pool, start, i as nat));
        assert(visited.no_duplicates()) by {
            assert forall|i: int, j: int|
                0 <= i < visited.len() && 0 <= j < visited.len() && i != j implies visited[i]
                != visited[j] by {
                if i < j {
                    assert(self.walked(pool, start, i as nat) != self.walked(
                        pool,
                        start,
                        j as nat,
                    ));
                } else {
                    assert(self.walked(pool, start, j as nat) != self.walked(
                        pool,
                        start,
                        i as nat,
                    ));
                }
            }
        }
        visited.unique_seq_to_set();
        self.ids.lemma_cardinality_of_set();
        assert(visited.to_set().subset_of(self.ids.to_set())) by {
            assert forall|x: Seq<char>| visited.to_set().contains(x) implies self.ids.to_set().contains(
            x) by {
                let i = visited.index_of(x);
                assert(visited.contains(x));
                self.lemma_walk_stays(pool, start, i as nat);
            }
        }
        vstd::seq_lib::seq_to_set_is_finite(self.ids);
        vstd::set_lib::lemma_len_subset(visited.to_set(), self.ids.to_set());
    }

    /// A walk either visits nothing twice or has first come back by then.
    proof fn lemma_new_or_returned(self, pool: Set<Seq<char>>, start: Seq<char>, steps: nat)
        ensures
            self.walk_is_new(pool, start, steps) || exists|last: nat| #[trigger]
                self.first_returns(pool, start, last),
        decreases steps,
    {
        if steps > 0 {
            let before = (steps - 1) as nat;
            self.lemma_new_or_returned(pool, start, before);
            if self.walk_is_new(pool, start, before) {
                if exists|i: nat|
                    i < before && #[trigger] self.walked(pool, start, i) == self.walked(
                        pool,
                        start,
                        before,
                    ) {
                    assert(self.first_returns(pool, start, before));
                } else {
                    assert forall|i: nat, j: nat| i < j < steps implies #[trigger] self.walked(
                        pool,
                        start,
                        i,
                    ) != #[trigger] self.walked(pool, start, j) by {
                        if j < before {
                        } else {
                            assert(i < before);
                        }
                    }
                }
            }
        }
    }

    /// A walk inside a set that keeps waiting comes back.
    proof fn lemma_walk_returns(self, pool: Set<Seq<char>>, start: Seq<char>) -> (last: nat)
        requires
            self.keeps_waiting(pool),
            pool.contains(start),
        ensures
            self.first_returns(pool, start, last),
    {
        let steps = (self.ids.len() + 1) as nat;
        self.lemma_new_or_returned(pool, start, steps);
        if self.walk_is_new(pool, start, steps) {
            self.lemma_new_walk_is_short(pool, start, steps);
        }
        choose|last: nat| self.first_returns(pool, start, last)
    }

    /// The loop of a walk is the one its first return fixes.
    pub proof fn lemma_loop_is(
        self,
        pool: Set<Seq<char>>,
        start: Seq<char>,
        first: nat,
        last: nat,
    )
        requires
            first < last,
            self.walk_is_new(pool, start, last),
            self.walked(pool, start, first) == self.walked(pool, start, last),
        ensures
            self.loop_from(pool, start) == Seq::new(
                (last - first + 1) as nat,
                |i: int| self.walked(pool, start, (first + i) as nat),
            ),
    {
        assert(self.first_returns(pool, start, last));
        let l = choose|l: nat| self.first_returns(pool, start, l);
        assert(self.first_returns(pool, start, l));
        let i = choose|i: nat|
            i < l && #[trigger] self.walked(pool, start, i) == self.walked(pool, start, l);
        if l < last {
            assert(self.walked(pool, start, i) != self.walked(pool, start, l));
        }
        if last < l {
            assert(self.walked(pool, start, first) != self.walked(pool, start, last));
        }
        assert(l == last);
        let f = choose|f: nat|
            f < last && #[trigger] self.walked(pool, start, f) == self.walked(pool, start, last);
        if f < first {
            assert(self.walked(pool, start, f) != self.walked(pool, start, first));
        }
        if first < f {
            assert(self.walked(pool, start, first) != self.walked(pool, start, f));
        }
    }

    /// Where the reported cycle begins on the walk that finds it, and where it
    /// is back.
    proof fn lemma_reported_cycle(self) -> (found: (Seq<char>, nat, nat))
        requires
            self.cycle() is Some,
        ensures
            self.stuck().contains(found.0),
            found.1 < found.2,
            self.walk_is_new(self.stuck(), found.0, found.2),
            self.walked(self.stuck(), found.0, found.1) == self.walked(
                self.stuck(),
                found.0,
                found.2,
            ),
            self.cycle()->0 == Seq::new(
                (found.2 - found.1 + 1) as nat,
                |i: int| self.walked(self.stuck(), found.0, (found.1 + i) as nat),
            ),
    {
        let pool = self.stuck();
        self.lemma_stuck_keeps_waiting();
        let some = choose|x: Seq<char>| #[trigger] pool.contains(x);
        self.lemma_stuck_is_listed(some);
        let start = lemma_least_on_list(self.ids, pool);
        assert forall|y: Seq<char>| #[trigger] pool.contains(y) implies y == start || sorts_before(
            start,
            y,
        ) by {
            self.lemma_stuck_is_listed(y);
        }
        lemma_least_is_unique(pool, start);
        let last = self.lemma_walk_returns(pool, start);
        let first = choose|i: nat|
            i < last && #[trigger] self.walked(pool, start, i) == self.walked(pool, start, last);
        self.lemma_loop_is(pool, start, first, last);
        (start, first, last)
    }

    /// What is reported as a cycle is one: each id on it needs the next, the
    /// last is the first again, and no other stands on it twice. In a graph
    /// where nothing needs itself it holds two ids at least.
    pub proof fn law_reported_cycle_is_a_cycle(self)
        ensures
            self.cycle() matches Some(path) ==> {
                &&& self.is_cycle(path)
                &&& path.drop_last().no_duplicates()
                &&& forall|i: int|
                    0 <= i < path.len() ==> self.ids.contains(#[trigger] path[i])
                &&& self.is_consistent() ==> path.len() >= 3
            },
    {
        if self.cycle() is Some {
            let path = self.cycle()->0;
            let (start, first, last) = self.lemma_reported_cycle();
            self.lemma_stuck_keeps_waiting();
            assert forall|i: int| 0 <= i < path.len() - 1 implies self.needs_of(
                #[trigger] path[i],
            ).contains(path[i + 1]) by {
                self.lemma_walk_stays(self.stuck(), start, (first + i) as nat);
                assert(path[i] == self.walked(self.stuck(), start, (first + i) as nat));
                assert(path[i + 1] == self.walked(self.stuck(), start, (first + i + 1) as nat));
            }
            assert forall|i: int| 0 <= i < path.len() implies self.ids.contains(
                #[trigger] path[i],
            ) by {
                self.lemma_walk_stays(self.stuck(), start, (first + i) as nat);
                assert(path[i] == self.walked(self.stuck(), start, (first + i) as nat));
            }
            assert(path[0] == self.walked(self.stuck(), start, first));
            assert(path.last() == self.walked(self.stuck(), start, last));
            let once = path.drop_last();
            assert forall|i: int, j: int|
                0 <= i < once.len() && 0 <= j < once.len() && i != j implies once[i]
                != once[j] by {
                let (a, b) = if i < j {
                    (i, j)
                } else {
                    (j, i)
                };
                assert(self.walked(self.stuck(), start, (first + a) as nat) != self.walked(
                    self.stuck(),
                    start,
                    (first + b) as nat,
                ));
            }
            if self.is_consistent() && path.len() == 2 {
                assert(self.needs_of(path[0]).contains(path[1]));
                assert(self.needs[self.ids.index_of(path[0])].contains(path[0]));
            }
        }
    }

    /// A cycle is reported exactly when there is one.
    pub proof fn law_a_cycle_is_reported_exactly_when_there_is_one(self)
        ensures
            self.cycle() is Some <==> exists|path: Seq<Seq<char>>| self.is_cycle(path),
    {
        self.law_reported_cycle_is_a_cycle();
        if self.cycle() is Some {
            assert(self.is_cycle(self.cycle()->0));
        }
        if exists|path: Seq<Seq<char>>| self.is_cycle(path) {
            let path = choose|path: Seq<Seq<char>>| self.is_cycle(path);
            self.lemma_cycle_keeps_waiting(path);
            assert(path.to_set().contains(path[0])) by {
                assert(path.contains(path[0]));
            }
            assert(self.stuck().contains(path[0]));
        }
    }

    proof fn lemma_cycle_keeps_waiting(self, path: Seq<Seq<char>>)
        requires
            self.is_cycle(path),
        ensures
            self.keeps_waiting(path.to_set()),
    {
        reveal(DagView::keeps_waiting);
        let set = path.to_set();
        assert forall|x: Seq<char>| #[trigger] set.contains(x) implies self.ids.contains(x)
            && self.needs_one_of(x, set) by {
            assert(path.contains(x));
            let i = path.index_of(x);
            let at: int = if i < path.len() - 1 {
                i
            } else {
                0
            };
            assert(path[at] == x);
            assert(self.needs_of(path[at]).contains(path[at + 1]));
            assert(path.contains(path[at + 1]));
            assert(set.contains(path[at + 1]));
        }
    }
}

impl DagView {
    /// Needing and being needed are two sides of one thing.
    pub proof fn law_dependents_are_those_that_need(self, a: Seq<char>, b: Seq<char>)
        requires
            self.is_consistent(),
        ensures
            self.dependents_of(a).contains(b) <==> self.needs_of(b).contains(a),
    {
        let needs_a = |other: Seq<char>| beside(self.ids, self.needs, other).contains(a);
        if self.ids.contains(a) {
            let i = self.ids.index_of(a);
            assert(self.dependents[i] == who_needs(self.ids, self.needs, self.ids[i]));
            let found = self.ids.filter(needs_a);
            if found.contains(b) {
                let k = found.index_of(b);
                self.ids.lemma_filter_pred(needs_a, k);
                assert(needs_a(found[k]));
            }
            if self.needs_of(b).contains(a) {
                assert(self.ids.contains(b));
                let k = self.ids.index_of(b);
                assert(needs_a(self.ids[k]));
                self.ids.lemma_filter_contains(needs_a, k);
                assert(found.contains(self.ids[k]));
            }
        } else if self.needs_of(b).contains(a) {
            let k = self.ids.index_of(b);
            assert(self.needs[k].contains(a));
        }
    }

    /// In a graph with no cycle no task waits for itself.
    pub proof fn law_without_a_cycle_nothing_waits_for_itself(self, id: Seq<char>)
        requires
            self.is_consistent(),
            self.cycle() is None,
        ensures
            !self.descends(id, id),
    {
        if self.descends(id, id) {
            let path = choose|path: Seq<Seq<char>>|
                path.len() >= 2 && path[0] == id && path.last() == id && #[trigger] self.is_descent(
                    path,
                );
            let back = path.reverse();
            assert forall|i: int| 0 <= i < back.len() - 1 implies self.needs_of(
                #[trigger] back[i],
            ).contains(back[i + 1]) by {
                let k = path.len() - 2 - i;
                assert(self.dependents_of(path[k]).contains(path[k + 1]));
                self.law_dependents_are_those_that_need(path[k], path[k + 1]);
                assert(back[i] == path[k + 1]);
                assert(back[i + 1] == path[k]);
            }
            assert(self.is_cycle(back));
            self.law_a_cycle_is_reported_exactly_when_there_is_one();
        }
    }

    /// What waits for something that waits for a task waits for the task.
    pub proof fn law_descending_is_transitive(self, a: Seq<char>, b: Seq<char>, c: Seq<char>)
        requires
            self.descends(a, b),
            self.descends(b, c),
        ensures
            self.descends(a, c),
    {
        let p = choose|path: Seq<Seq<char>>|
            path.len() >= 2 && path[0] == a && path.last() == b && #[trigger] self.is_descent(path);
        let q = choose|path: Seq<Seq<char>>|
            path.len() >= 2 && path[0] == b && path.last() == c && #[trigger] self.is_descent(path);
        let path = p + q.skip(1);
        assert forall|i: int| 0 <= i < path.len() - 1 implies self.dependents_of(
            #[trigger] path[i],
        ).contains(path[i + 1]) by {
            if i < p.len() - 1 {
                assert(path[i] == p[i]);
                assert(path[i + 1] == p[i + 1]);
            } else {
                let k = i - (p.len() - 1);
                assert(path[i] == q[k]);
                assert(path[i + 1] == q[k + 1]);
            }
        }
        assert(self.is_descent(path));
    }

    /// Who needs a task waits for it.
    pub proof fn lemma_dependents_descend(self, a: Seq<char>, b: Seq<char>)
        requires
            self.dependents_of(a).contains(b),
        ensures
            self.descends(a, b),
    {
        let path = seq![a, b];
        assert(self.is_descent(path));
    }

    /// A set that holds who needs `a`, and who needs its own members, holds
    /// everything that waits for `a`.
    pub proof fn lemma_closed_set_holds_descendants(
        self,
        a: Seq<char>,
        set: Set<Seq<char>>,
        b: Seq<char>,
    )
        requires
            forall|x: Seq<char>| self.dependents_of(a).contains(x) ==> #[trigger] set.contains(x),
            forall|x: Seq<char>, y: Seq<char>|
                set.contains(x) && #[trigger] self.dependents_of(x).contains(y) ==> set.contains(y),
            self.descends(a, b),
        ensures
            set.contains(b),
    {
        let path = choose|path: Seq<Seq<char>>|
            path.len() >= 2 && path[0] == a && path.last() == b && #[trigger] self.is_descent(path);
        self.lemma_path_stays(path, set, path.len() - 1);
    }

    proof fn lemma_path_stays(self, path: Seq<Seq<char>>, set: Set<Seq<char>>, at: int)
        requires
            1 <= at < path.len(),
            self.is_descent(path),
            forall|x: Seq<char>|
                self.dependents_of(path[0]).contains(x) ==> #[trigger] set.contains(x),
            forall|x: Seq<char>, y: Seq<char>|
                set.contains(x) && #[trigger] self.dependents_of(x).contains(y) ==> set.contains(y),
        ensures
            set.contains(path[at]),
        decreases at,
    {
        assert(self.dependents_of(path[at - 1]).contains(path[at - 1 + 1]));
        if at > 1 {
            self.lemma_path_stays(path, set, at - 1);
        }
    }
}

impl DagView {
    /// What waits for a task is exactly what following the needs backwards
    /// leads to: who needs it waits for it, who needs one that waits for it
    /// does, and nobody else.
    pub proof fn law_exactly_what_is_reached_waits(
        self,
        a: Seq<char>,
        b: Seq<char>,
        c: Seq<char>,
        reached: Set<Seq<char>>,
    )
        requires
            self.is_consistent(),
        ensures
            self.needs_of(b).contains(a) ==> self.descends(a, b),
            self.descends(a, b) && self.needs_of(c).contains(b) ==> self.descends(a, c),
            (forall|x: Seq<char>, y: Seq<char>|
                (x == a || reached.contains(x)) && #[trigger] self.needs_of(y).contains(x)
                    ==> reached.contains(y)) && self.descends(a, b) ==> reached.contains(b),
    {
        self.law_dependents_are_those_that_need(a, b);
        if self.needs_of(b).contains(a) {
            self.lemma_dependents_descend(a, b);
        }
        if self.descends(a, b) && self.needs_of(c).contains(b) {
            self.law_dependents_are_those_that_need(b, c);
            self.lemma_dependents_descend(b, c);
            self.law_descending_is_transitive(a, b, c);
        }
        if (forall|x: Seq<char>, y: Seq<char>|
            (x == a || reached.contains(x)) && #[trigger] self.needs_of(y).contains(x)
                ==> reached.contains(y)) && self.descends(a, b) {
            assert forall|x: Seq<char>|
                self.dependents_of(a).contains(x) implies #[trigger] reached.contains(x) by {
                self.law_dependents_are_those_that_need(a, x);
            }
            assert forall|x: Seq<char>, y: Seq<char>|
                reached.contains(x) && #[trigger] self.dependents_of(x).contains(
                    y,
                ) implies reached.contains(y) by {
                self.law_dependents_are_those_that_need(x, y);
            }
            self.lemma_closed_set_holds_descendants(a, reached, b);
        }
    }
}

} // verus!

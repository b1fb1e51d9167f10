//! The lists a graph of tasks is held in, and the searches over them: for a
//! cycle, and for everything that waits for a task.

use crate::depend::{beside, first_within, is_least, least_of, lemma_first_within,
    lemma_least_is_unique, DagView};
use crate::text::{copy_texts, is_before, law_order_is_total, law_order_is_transitive, position_of,
    sorts_before, texts};
use vstd::prelude::*;

verus! {

/// What each of several lists of texts holds.
pub open spec fn text_lists(lists: Seq<Vec<String>>) -> Seq<Seq<Seq<char>>> {
    Seq::new(lists.len(), |i: int| texts(lists[i]@))
}

/// A copy of several lists of texts.
fn copy_text_lists(lists: &Vec<Vec<String>>) -> (copies: Vec<Vec<String>>)
    ensures
        text_lists(copies@) == text_lists(lists@),
{
    let mut copies: Vec<Vec<String>> = Vec::new();
    let mut at: usize = 0;
    while at < lists.len()
        invariant
            at <= lists.len(),
            copies.len() == at,
            forall|i: int| 0 <= i < at ==> (#[trigger] copies@[i])@ == lists@[i]@,
        decreases lists.len() - at,
    {
        copies.push(copy_texts(&lists[at]));
        at = at + 1;
    }
    assert(text_lists(copies@) =~= text_lists(lists@));
    copies
}

pub(crate) proof fn lemma_beside(
    ids: Seq<String>,
    lists: Seq<Vec<String>>,
    id: Seq<char>,
    at: int,
)
    requires
        texts(ids).no_duplicates(),
        ids.len() == lists.len(),
        0 <= at < ids.len(),
        ids[at]@ == id,
    ensures
        texts(ids).contains(id),
        beside(texts(ids), text_lists(lists), id) == texts(lists[at]@),
{
    assert(texts(ids)[at] == id);
    let k = texts(ids).index_of(id);
    assert(texts(ids)[k] == id);
}

proof fn lemma_not_beside(ids: Seq<String>, id: Seq<char>)
    requires
        forall|j: int| 0 <= j < ids.len() ==> (#[trigger] ids[j])@ != id,
    ensures
        !texts(ids).contains(id),
{
    if texts(ids).contains(id) {
        let i = texts(ids).index_of(id);
        assert(ids[i]@ == id);
    }
}

fn no_texts<'a>() -> (none: &'a [String])
    ensures
        texts(none@) == Seq::<Seq<char>>::empty(),
{
    let none: &'a [String] = &[];
    assert(texts(none@) =~= Seq::<Seq<char>>::empty());
    none
}

/// Whether the texts stand in sorting order, none twice.
pub open spec fn is_ascending(list: Seq<Seq<char>>) -> bool {
    forall|i: int, j: int|
        0 <= i < j < list.len() ==> sorts_before(#[trigger] list[i], #[trigger] list[j])
}

/// The ids marked in `waiting`.
spec fn marked(ids: Seq<String>, waiting: Seq<bool>) -> Set<Seq<char>> {
    Set::new(
        |x: Seq<char>|
            exists|i: int|
                0 <= i < ids.len() && #[trigger] waiting[i] && ids[i]@ == x,
    )
}

/// How many are marked.
spec fn marks(waiting: Seq<bool>) -> nat
    decreases waiting.len(),
{
    if waiting.len() == 0 {
        0
    } else {
        marks(waiting.drop_last()) + if waiting.last() {
            1nat
        } else {
            0nat
        }
    }
}

proof fn lemma_unmarking(waiting: Seq<bool>, at: int)
    requires
        0 <= at < waiting.len(),
        waiting[at],
    ensures
        marks(waiting.update(at, false)) + 1 == marks(waiting),
    decreases waiting.len(),
{
    let after = waiting.update(at, false);
    if at == waiting.len() - 1 {
        assert(after.drop_last() =~= waiting.drop_last());
    } else {
        assert(after.drop_last() =~= waiting.drop_last().update(at, false));
        lemma_unmarking(waiting.drop_last(), at);
    }
}

/// The lists a graph is held in: ids, and beside each what it needs and who
/// needs it.
#[derive(Debug)]
pub(crate) struct Edges {
    ids: Vec<String>,
    needs: Vec<Vec<String>>,
    dependents: Vec<Vec<String>>,
}

impl View for Edges {
    type V = DagView;

    closed spec fn view(&self) -> DagView {
        DagView {
            ids: texts(self.ids@),
            needs: text_lists(self.needs@),
            dependents: text_lists(self.dependents@),
        }
    }
}

impl Edges {
    /// Where the first need of the id at `at` that is marked stands.
    fn marked_need(&self, at: usize, waiting: &Vec<bool>) -> (found: Option<usize>)
        requires
            self@.is_consistent(),
            at < self.ids.len(),
            waiting.len() == self.ids.len(),
        ensures
            match found {
                Some(k) => k < self.ids.len() && waiting@[k as int] && first_within(
                    self@.needs_of(self.ids@[at as int]@),
                    marked(self.ids@, waiting@),
                ) == Some(self.ids@[k as int]@),
                None => first_within(
                    self@.needs_of(self.ids@[at as int]@),
                    marked(self.ids@, waiting@),
                ) is None,
            },
    {
        let needs = &self.needs[at];
        let ghost pool = marked(self.ids@, waiting@);
        let ghost list = texts(needs@);
        proof {
            lemma_beside(self.ids@, self.needs@, self.ids@[at as int]@, at as int);
            assert(self@.needs_of(self.ids@[at as int]@) == list);
            assert(list.skip(0) =~= list);
        }
        let mut i: usize = 0;
        while i < needs.len()
            invariant
                i <= needs.len(),
                at < self.ids.len(),
                waiting.len() == self.ids.len(),
                texts(self.ids@).no_duplicates(),
                self@.needs_of(self.ids@[at as int]@) == list,
                list == texts(needs@),
                pool == marked(self.ids@, waiting@),
                first_within(list, pool) == first_within(list.skip(i as int), pool),
            decreases needs.len() - i,
        {
            let ghost name = needs@[i as int]@;
            assert(list.skip(i as int)[0] == name);
            match position_of(&self.ids, needs[i].as_str()) {
                Some(k) => {
                    if waiting[k] {
                        assert(pool.contains(name));
                        return Some(k);
                    }
                    assert(!pool.contains(name)) by {
                        if pool.contains(name) {
                            let j = choose|j: int|
                                0 <= j < self.ids@.len() && #[trigger] waiting@[j]
                                    && self.ids@[j]@ == name;
                            assert(texts(self.ids@)[j] == texts(self.ids@)[k as int]);
                        }
                    }
                },
                None => {
                    assert(!pool.contains(name));
                },
            }
            assert(list.skip(i as int).skip(1) =~= list.skip(i + 1));
            i = i + 1;
        }
        None
    }

    /// The first marked id that needs no marked id.
    fn released(&self, waiting: &Vec<bool>) -> (found: Option<usize>)
        requires
            self@.is_consistent(),
            waiting.len() == self.ids.len(),
        ensures
            match found {
                Some(i) => i < self.ids.len() && waiting@[i as int] && !self@.needs_one_of(
                    self.ids@[i as int]@,
                    marked(self.ids@, waiting@),
                ),
                None => self@.keeps_waiting(marked(self.ids@, waiting@)),
            },
    {
        let ghost pool = marked(self.ids@, waiting@);
        let mut at: usize = 0;
        while at < self.ids.len()
            invariant
                at <= self.ids.len(),
                self@.is_consistent(),
                waiting.len() == self.ids.len(),
                pool == marked(self.ids@, waiting@),
                forall|i: int|
                    0 <= i < at && #[trigger] waiting@[i] ==> self@.needs_one_of(
                        self.ids@[i]@,
                        pool,
                    ),
            decreases self.ids.len() - at,
        {
            if waiting[at] {
                let found = self.marked_need(at, waiting);
                proof {
                    lemma_first_within(self@.needs_of(self.ids@[at as int]@), pool);
                }
                if found.is_none() {
                    return Some(at);
                }
                assert(pool.contains(self.ids@[found->0 as int]@));
            }
            at = at + 1;
        }
        proof {
            reveal(DagView::keeps_waiting);
            assert forall|x: Seq<char>| #[trigger] pool.contains(x) implies self@.ids.contains(x)
                && self@.needs_one_of(x, pool) by {
                let i = choose|i: int|
                    0 <= i < self.ids@.len() && #[trigger] waiting@[i] && self.ids@[i]@ == x;
                assert(self@.ids[i] == x);
            }
        }
        None
    }

    /// Repeatedly let go of an id whose needs are all gone. Whatever is left
    /// is exactly the set of ids on or downstream of a cycle.
    pub(crate) fn find_cycle(&self) -> (cycle: Option<Vec<String>>)
        requires
            self@.is_consistent(),
        ensures
            match cycle {
                Some(path) => self@.cycle() == Some(texts(path@)),
                None => self@.cycle() is None,
            },
    {
        let mut waiting: Vec<bool> = Vec::new();
        while waiting.len() < self.ids.len()
            invariant
                waiting.len() <= self.ids.len(),
                forall|i: int| 0 <= i < waiting.len() ==> #[trigger] waiting@[i],
            decreases self.ids.len() - waiting.len(),
        {
            waiting.push(true);
        }
        proof {
            reveal(DagView::keeps_waiting);
            assert forall|set: Set<Seq<char>>, x: Seq<char>|
                #![trigger self@.keeps_waiting(set), set.contains(x)]
                self@.keeps_waiting(set) && set.contains(x) implies marked(
                self.ids@,
                waiting@,
            ).contains(x) by {
                assert(self@.ids.contains(x));
                let i = self@.ids.index_of(x);
                assert(waiting@[i]);
            }
        }
        let mut next = self.released(&waiting);
        while next.is_some()
            invariant
                self@.is_consistent(),
                waiting.len() == self.ids.len(),
                forall|set: Set<Seq<char>>, x: Seq<char>|
                    #![trigger self@.keeps_waiting(set), set.contains(x)]
                    self@.keeps_waiting(set) && set.contains(x) ==> marked(
                        self.ids@,
                        waiting@,
                    ).contains(x),
                match next {
                    Some(i) => i < self.ids.len() && waiting@[i as int] && !self@.needs_one_of(
                        self.ids@[i as int]@,
                        marked(self.ids@, waiting@),
                    ),
                    None => self@.keeps_waiting(marked(self.ids@, waiting@)),
                },
            decreases marks(waiting@),
        {
            let at = next.unwrap();
            let ghost before = waiting@;
            waiting.set(at, false);
            proof {
                lemma_unmarking(before, at as int);
                self.lemma_letting_go(before, at as int);
            }
            next = self.released(&waiting);
        }
        proof {
            self@.lemma_largest_waiting_set(marked(self.ids@, waiting@));
        }
        self.trace_cycle(&waiting)
    }

    /// Letting go of an id whose needs are gone lets go of no set that keeps
    /// waiting.
    proof fn lemma_letting_go(&self, waiting: Seq<bool>, at: int)
        requires
            self@.is_consistent(),
            waiting.len() == self.ids.len(),
            0 <= at < waiting.len(),
            waiting[at],
            !self@.needs_one_of(self.ids@[at]@, marked(self.ids@, waiting)),
            forall|set: Set<Seq<char>>, x: Seq<char>|
                #![trigger self@.keeps_waiting(set), set.contains(x)]
                self@.keeps_waiting(set) && set.contains(x) ==> marked(
                    self.ids@,
                    waiting,
                ).contains(x),
        ensures
            forall|set: Set<Seq<char>>, x: Seq<char>|
                #![trigger self@.keeps_waiting(set), set.contains(x)]
                self@.keeps_waiting(set) && set.contains(x) ==> marked(
                    self.ids@,
                    waiting.update(at, false),
                ).contains(x),
    {
        let after = waiting.update(at, false);
        let gone = self.ids@[at]@;
        assert forall|set: Set<Seq<char>>, x: Seq<char>|
            #![trigger self@.keeps_waiting(set), set.contains(x)]
            self@.keeps_waiting(set) && set.contains(x) implies marked(self.ids@, after).contains(
            x,
        ) by {
            if x == gone {
                assert(self@.needs_one_of(x, set)) by {
                    reveal(DagView::keeps_waiting);
                }
                let d = choose|d: Seq<char>|
                    self@.needs_of(x).contains(d) && #[trigger] set.contains(d);
                assert(marked(self.ids@, waiting).contains(d));
            } else {
                assert(marked(self.ids@, waiting).contains(x));
                let i = choose|i: int|
                    0 <= i < self.ids@.len() && #[trigger] waiting[i] && self.ids@[i]@ == x;
                assert(after[i]);
            }
        }
    }

    /// Where the marked id that sorts first stands.
    fn least_marked(&self, waiting: &Vec<bool>) -> (least: Option<usize>)
        requires
            waiting.len() == self.ids.len(),
        ensures
            match least {
                Some(i) => i < self.ids.len() && waiting@[i as int] && is_least(
                    marked(self.ids@, waiting@),
                    self.ids@[i as int]@,
                ),
                None => forall|x: Seq<char>| !#[trigger] marked(self.ids@, waiting@).contains(x),
            },
    {
        let mut least: Option<usize> = None;
        let mut at: usize = 0;
        while at < self.ids.len()
            invariant
                at <= self.ids.len(),
                waiting.len() == self.ids.len(),
                match least {
                    Some(i) => i < at && waiting@[i as int] && forall|j: int|
                        0 <= j < at && #[trigger] waiting@[j] ==> self.ids@[j]@ == self.ids@[i as int]@
                            || sorts_before(self.ids@[i as int]@, self.ids@[j]@),
                    None => forall|j: int| 0 <= j < at ==> !#[trigger] waiting@[j],
                },
            decreases self.ids.len() - at,
        {
            if waiting[at] {
                match least {
                    None => {
                        least = Some(at);
                    },
                    Some(i) => {
                        proof {
                            law_order_is_total(self.ids@[i as int]@, self.ids@[at as int]@);
                        }
                        if is_before(self.ids[at].as_str(), self.ids[i].as_str()) {
                            proof {
                                assert forall|j: int|
                                    0 <= j < at + 1 && #[trigger] waiting@[j] implies self.ids@[j]@
                                    == self.ids@[at as int]@ || sorts_before(
                                    self.ids@[at as int]@,
                                    self.ids@[j]@,
                                ) by {
                                    if j < at && self.ids@[j]@ != self.ids@[i as int]@ {
                                        law_order_is_transitive(
                                            self.ids@[at as int]@,
                                            self.ids@[i as int]@,
                                            self.ids@[j]@,
                                        );
                                    }
                                }
                            }
                            least = Some(at);
                        }
                    },
                }
            }
            at = at + 1;
        }
        proof {
            let pool = marked(self.ids@, waiting@);
            if let Some(i) = least {
                assert(pool.contains(self.ids@[i as int]@));
                assert forall|y: Seq<char>| #[trigger] pool.contains(y) implies y
                    == self.ids@[i as int]@ || sorts_before(self.ids@[i as int]@, y) by {
                    let j = choose|j: int|
                        0 <= j < self.ids@.len() && #[trigger] waiting@[j] && self.ids@[j]@ == y;
                }
            }
        }
        least
    }

    /// Walk needs inside the marked ids, from the one that sorts first, until
    /// an id comes again, and return the closed loop. Every marked id needs a
    /// marked id, so a walk longer than there are ids must come back.
    fn trace_cycle(&self, waiting: &Vec<bool>) -> (cycle: Option<Vec<String>>)
        requires
            self@.is_consistent(),
            waiting.len() == self.ids.len(),
            self@.keeps_waiting(marked(self.ids@, waiting@)),
            marked(self.ids@, waiting@) == self@.stuck(),
        ensures
            match cycle {
                Some(path) => self@.cycle() == Some(texts(path@)),
                None => self@.cycle() is None,
            },
    {
        let ghost dag = self@;
        let ghost pool = marked(self.ids@, waiting@);
        let begin = match self.least_marked(waiting) {
            None => {
                return None;
            },
            Some(i) => i,
        };
        let ghost start = self.ids@[begin as int]@;
        proof {
            lemma_least_is_unique(pool, start);
            assert(pool.contains(start));
        }
        let mut walk: Vec<usize> = Vec::new();
        walk.push(begin);
        proof {
            assert(dag.walk_is_new(pool, start, 1));
            dag.lemma_new_walk_is_short(pool, start, 1);
        }
        loop
            invariant
                dag == self@,
                dag.is_consistent(),
                waiting.len() == self.ids.len(),
                pool == marked(self.ids@, waiting@),
                pool == dag.stuck(),
                dag.keeps_waiting(pool),
                pool.contains(start),
                least_of(pool) == start,
                1 <= walk.len() <= self.ids.len(),
                forall|i: int|
                    0 <= i < walk.len() ==> #[trigger] walk@[i] < self.ids.len()
                        && self.ids@[walk@[i] as int]@ == dag.walked(pool, start, i as nat),
                dag.walk_is_new(pool, start, walk.len() as nat),
            decreases self.ids.len() - walk.len(),
        {
            let here = walk[walk.len() - 1];
            let ghost steps = (walk.len() - 1) as nat;
            proof {
                dag.lemma_walk_stays(pool, start, steps);
            }
            let next = match self.marked_need(here, waiting) {
                Some(k) => k,
                None => {
                    return None;
                },
            };
            assert(self.ids@[next as int]@ == dag.walked(pool, start, walk.len() as nat));
            let mut first: usize = 0;
            while first < walk.len() && walk[first] != next
                invariant
                    first <= walk.len(),
                    forall|i: int| 0 <= i < first ==> #[trigger] walk@[i] != next,
                decreases walk.len() - first,
            {
                first = first + 1;
            }
            if first < walk.len() {
                let path = self.named(&walk, first, next);
                proof {
                    dag.lemma_loop_is(pool, start, first as nat, walk.len() as nat);
                    assert(texts(path@) =~= dag.loop_from(pool, start));
                    assert(dag.stuck().contains(start));
                }
                return Some(path);
            }
            let ghost before = walk@;
            walk.push(next);
            proof {
                let steps = before.len();
                assert forall|i: nat, j: nat| i < j < steps + 1 implies #[trigger] dag.walked(
                    pool,
                    start,
                    i,
                ) != #[trigger] dag.walked(pool, start, j) by {
                    if j == steps {
                        assert(before[i as int] != next);
                        assert(self@.ids[before[i as int] as int] != self@.ids[next as int]);
                    }
                }
                dag.lemma_new_walk_is_short(pool, start, walk.len() as nat);
            }
        }
    }

    /// The ids at the places of `walk` from `first` on, and then the one at
    /// `last`.
    fn named(&self, walk: &Vec<usize>, first: usize, last: usize) -> (path: Vec<String>)
        requires
            first <= walk.len(),
            last < self.ids.len(),
            forall|i: int| 0 <= i < walk.len() ==> #[trigger] walk@[i] < self.ids.len(),
        ensures
            path.len() == walk.len() - first + 1,
            forall|i: int|
                0 <= i < walk.len() - first ==> (#[trigger] path@[i])@ == self.ids@[walk@[first
                    + i] as int]@,
            path@[walk.len() - first]@ == self.ids@[last as int]@,
    {
        let mut path: Vec<String> = Vec::new();
        let mut at: usize = first;
        while at < walk.len()
            invariant
                first <= at <= walk.len(),
                path.len() == at - first,
                forall|i: int| 0 <= i < walk.len() ==> #[trigger] walk@[i] < self.ids.len(),
                forall|i: int|
                    0 <= i < at - first ==> (#[trigger] path@[i])@ == self.ids@[walk@[first
                        + i] as int]@,
            decreases walk.len() - at,
        {
            path.push(self.ids[walk[at]].clone());
            at = at + 1;
        }
        path.push(self.ids[last].clone());
        path
    }
}

/// Put `text` where it sorts among texts in sorting order.
fn insert_ascending(list: &mut Vec<String>, text: String)
    requires
        is_ascending(texts(old(list)@)),
        !texts(old(list)@).contains(text@),
    ensures
        is_ascending(texts(final(list)@)),
        forall|x: Seq<char>| #[trigger]
            texts(final(list)@).contains(x) <==> texts(old(list)@).contains(x) || x == text@,
{
    let ghost before = texts(list@);
    let mut at: usize = 0;
    while at < list.len() && is_before(list[at].as_str(), text.as_str())
        invariant
            at <= list.len(),
            texts(list@) == before,
            forall|i: int| 0 <= i < at ==> sorts_before(#[trigger] before[i], text@),
        decreases list.len() - at,
    {
        assert(before[at as int] == list@[at as int]@);
        at = at + 1;
    }
    let ghost name = text@;
    proof {
        assert forall|i: int| at <= i < before.len() implies sorts_before(
            name,
            #[trigger] before[i],
        ) by {
            assert(before[at as int] == list@[at as int]@);
            law_order_is_total(before[at as int], name);
            assert(before.contains(before[at as int]));
            if i > at {
                law_order_is_transitive(name, before[at as int], before[i]);
            }
        }
    }
    list.insert(at, text);
    proof {
        let after = texts(list@);
        assert(after =~= before.insert(at as int, name));
        assert forall|i: int, j: int| 0 <= i < j < after.len() implies sorts_before(
            #[trigger] after[i],
            #[trigger] after[j],
        ) by {
            let from = |k: int| if k < at { k } else { k - 1 };
            if i != at && j != at {
                assert(after[i] == before[from(i)]);
                assert(after[j] == before[from(j)]);
            } else if i == at {
                assert(after[j] == before[j - 1]);
            } else {
                assert(after[i] == before[i]);
            }
        }
        assert forall|x: Seq<char>| #[trigger] after.contains(x) implies before.contains(x) || x
            == name by {
            let i = after.index_of(x);
            if i < at {
                assert(before[i] == x);
            } else if i > at {
                assert(before[i - 1] == x);
            }
        }
        assert forall|x: Seq<char>| before.contains(x) || x == name implies #[trigger] after.contains(
        x) by {
            if x == name {
                assert(after[at as int] == x);
            } else {
                let i = before.index_of(x);
                if i < at {
                    assert(after[i] == x);
                } else {
                    assert(after[i + 1] == x);
                }
            }
        }
    }
}

impl Edges {
    /// Mark the direct dependents of the id at `at` that are not marked, and
    /// note where they stand.
    fn mark_dependents(&self, at: usize, seen: &mut Vec<bool>, queue: &mut Vec<usize>)
        requires
            self@.is_consistent(),
            at < self.ids.len(),
            old(seen).len() == self.ids.len(),
            forall|k: int|
                0 <= k < old(queue).len() ==> #[trigger] old(queue)@[k] < self.ids.len() && old(
                    seen,
                )@[old(queue)@[k] as int],
            forall|i: int|
                0 <= i < self.ids.len() && #[trigger] old(seen)@[i] ==> old(queue)@.contains(
                    i as usize,
                ),
            old(queue)@.no_duplicates(),
        ensures
            final(seen).len() == self.ids.len(),
            forall|k: int|
                0 <= k < final(queue).len() ==> #[trigger] final(queue)@[k] < self.ids.len()
                    && final(seen)@[final(queue)@[k] as int],
            forall|i: int|
                0 <= i < self.ids.len() && #[trigger] final(seen)@[i] ==> final(queue)@.contains(
                    i as usize,
                ),
            final(queue)@.no_duplicates(),
            old(queue)@.len() <= final(queue)@.len(),
            forall|k: int|
                0 <= k < old(queue).len() ==> #[trigger] final(queue)@[k] == old(queue)@[k],
            forall|i: int|
                0 <= i < self.ids.len() ==> (#[trigger] final(seen)@[i] <==> old(seen)@[i]
                    || self@.dependents_of(self.ids@[at as int]@).contains(self.ids@[i]@)),
    {
        let list = &self.dependents[at];
        let ghost names = texts(list@);
        proof {
            lemma_beside(self.ids@, self.dependents@, self.ids@[at as int]@, at as int);
            assert(self@.dependents_of(self.ids@[at as int]@) == names);
        }
        let mut i: usize = 0;
        while i < list.len()
            invariant
                i <= list.len(),
                names == texts(list@),
                texts(self.ids@).no_duplicates(),
                seen.len() == self.ids.len(),
                forall|k: int|
                    0 <= k < queue.len() ==> #[trigger] queue@[k] < self.ids.len()
                        && seen@[queue@[k] as int],
                forall|j: int|
                    0 <= j < self.ids.len() && #[trigger] seen@[j] ==> queue@.contains(j as usize),
                queue@.no_duplicates(),
                old(queue)@.len() <= queue@.len(),
                forall|k: int| 0 <= k < old(queue).len() ==> #[trigger] queue@[k] == old(queue)@[k],
                forall|j: int|
                    0 <= j < self.ids.len() ==> (#[trigger] seen@[j] <==> old(seen)@[j]
                        || names.take(i as int).contains(self.ids@[j]@)),
            decreases list.len() - i,
        {
            let ghost (was_seen, was_queue) = (seen@, queue@);
            let ghost (before, after) = (names.take(i as int), names.take(i + 1));
            let ghost name = list@[i as int]@;
            assert(after =~= before.push(name));
            assert(after[i as int] == name);
            assert forall|x: Seq<char>| after.contains(x) <==> before.contains(x) || x == name by {
                if after.contains(x) {
                    let k = after.index_of(x);
                    if k < i {
                        assert(before[k] == x);
                    }
                }
                if before.contains(x) {
                    let k = before.index_of(x);
                    assert(after[k] == x);
                }
            }
            match position_of(&self.ids, list[i].as_str()) {
                Some(k) => {
                    assert forall|j: int| 0 <= j < self.ids.len() && self.ids@[j]@ == name implies j
                        == k by {
                        assert(texts(self.ids@)[j] == texts(self.ids@)[k as int]);
                    }
                    if !seen[k] {
                        seen.set(k, true);
                        queue.push(k);
                        assert(!was_queue.contains(k));
                        assert forall|j: int|
                            0 <= j < self.ids.len() && #[trigger] seen@[j] implies queue@.contains(
                            j as usize,
                        ) by {
                            if j == k {
                                assert(queue@[was_queue.len() as int] == k);
                            } else {
                                assert(was_seen[j]);
                                let at = was_queue.index_of(j as usize);
                                assert(queue@[at] == j);
                            }
                        }
                    }
                },
                None => {},
            }
            i = i + 1;
        }
        assert(names.take(i as int) =~= names);
    }
}

/// Different places below `bound` are no more than `bound` many.
proof fn lemma_places_are_few(places: Seq<usize>, bound: nat)
    requires
        places.no_duplicates(),
        forall|k: int| 0 <= k < places.len() ==> #[trigger] places[k] < bound,
    ensures
        places.len() <= bound,
{
    let numbers = Seq::new(places.len(), |k: int| places[k] as int);
    let range = vstd::set_lib::set_int_range(0, bound as int);
    numbers.unique_seq_to_set();
    vstd::set_lib::lemma_int_range(0, bound as int);
    assert(numbers.to_set().subset_of(range)) by {
        assert forall|x: int| numbers.to_set().contains(x) implies range.contains(x) by {
            assert(numbers.contains(x));
            let k = numbers.index_of(x);
            assert(places[k] < bound);
        }
    }
    vstd::set_lib::lemma_len_subset(numbers.to_set(), range);
}

impl Edges {
    /// Marks beside the ids that wait for the id at `at`.
    fn mark_descendants(&self, at: usize) -> (seen: Vec<bool>)
        requires
            self@.is_consistent(),
            at < self.ids.len(),
        ensures
            seen.len() == self.ids.len(),
            forall|x: Seq<char>| #[trigger]
                marked(self.ids@, seen@).contains(x) <==> self@.descends(self.ids@[at as int]@, x),
    {
        let ghost above = self.ids@[at as int]@;
        let mut seen: Vec<bool> = Vec::new();
        while seen.len() < self.ids.len()
            invariant
                seen.len() <= self.ids.len(),
                forall|i: int| 0 <= i < seen.len() ==> !#[trigger] seen@[i],
            decreases self.ids.len() - seen.len(),
        {
            seen.push(false);
        }
        let mut queue: Vec<usize> = Vec::new();
        self.mark_dependents(at, &mut seen, &mut queue);
        let mut head: usize = 0;
        proof {
            assert forall|i: int| 0 <= i < self.ids.len() && #[trigger] seen@[i] implies self@.descends(
                above,
                self.ids@[i]@,
            ) by {
                self@.lemma_dependents_descend(above, self.ids@[i]@);
            }
        }
        while head < queue.len()
            invariant
                self@.is_consistent(),
                at < self.ids.len(),
                above == self.ids@[at as int]@,
                head <= queue.len(),
                seen.len() == self.ids.len(),
                queue@.no_duplicates(),
                forall|k: int|
                    0 <= k < queue.len() ==> #[trigger] queue@[k] < self.ids.len()
                        && seen@[queue@[k] as int],
                forall|i: int|
                    0 <= i < self.ids.len() && #[trigger] seen@[i] ==> queue@.contains(i as usize),
                forall|i: int|
                    0 <= i < self.ids.len() && #[trigger] seen@[i] ==> self@.descends(
                        above,
                        self.ids@[i]@,
                    ),
                forall|i: int|
                    0 <= i < self.ids.len() && self@.dependents_of(above).contains(self.ids@[i]@)
                        ==> #[trigger] seen@[i],
                forall|k: int, i: int|
                    0 <= k < head && 0 <= i < self.ids.len() && self@.dependents_of(
                        self.ids@[#[trigger] queue@[k] as int]@,
                    ).contains(self.ids@[i]@) ==> #[trigger] seen@[i],
            decreases self.ids.len() - head,
        {
            let here = queue[head];
            let ghost (was_seen, was_queue) = (seen@, queue@);
            proof {
                lemma_places_are_few(queue@, self.ids.len() as nat);
            }
            self.mark_dependents(here, &mut seen, &mut queue);
            proof {
                assert(was_queue[head as int] == here);
                assert(was_seen[here as int]);
                assert forall|i: int| 0 <= i < self.ids.len() && #[trigger] seen@[i] implies self@.descends(
                    above,
                    self.ids@[i]@,
                ) by {
                    if !was_seen[i] {
                        self@.lemma_dependents_descend(self.ids@[here as int]@, self.ids@[i]@);
                        self@.law_descending_is_transitive(
                            above,
                            self.ids@[here as int]@,
                            self.ids@[i]@,
                        );
                    }
                }
                assert forall|k: int, i: int|
                    0 <= k < head + 1 && 0 <= i < self.ids.len() && self@.dependents_of(
                        self.ids@[#[trigger] queue@[k] as int]@,
                    ).contains(self.ids@[i]@) implies #[trigger] seen@[i] by {
                    assert(queue@[k] == was_queue[k]);
                    if k < head {
                        assert(was_seen[i]);
                    }
                }
            }
            head = head + 1;
        }
        proof {
            self.lemma_marks_are_descendants(above, seen@, queue@);
        }
        seen
    }

    proof fn lemma_marks_are_descendants(
        &self,
        above: Seq<char>,
        seen: Seq<bool>,
        queue: Seq<usize>,
    )
        requires
            self@.is_consistent(),
            seen.len() == self.ids.len(),
            forall|i: int|
                0 <= i < self.ids.len() && #[trigger] seen[i] ==> queue.contains(i as usize),
            forall|i: int|
                0 <= i < self.ids.len() && #[trigger] seen[i] ==> self@.descends(
                    above,
                    self.ids@[i]@,
                ),
            forall|i: int|
                0 <= i < self.ids.len() && self@.dependents_of(above).contains(self.ids@[i]@)
                    ==> #[trigger] seen[i],
            forall|k: int, i: int|
                0 <= k < queue.len() && 0 <= i < self.ids.len() && self@.dependents_of(
                    self.ids@[#[trigger] queue[k] as int]@,
                ).contains(self.ids@[i]@) ==> #[trigger] seen[i],
        ensures
            forall|x: Seq<char>| #[trigger]
                marked(self.ids@, seen).contains(x) <==> self@.descends(above, x),
    {
        let set = marked(self.ids@, seen);
        assert forall|a: Seq<char>, x: Seq<char>| #[trigger]
            self@.dependents_of(a).contains(x) implies self@.ids.contains(x) by {
            self@.law_dependents_are_those_that_need(a, x);
        }
        assert forall|x: Seq<char>| self@.dependents_of(above).contains(
            x,
        ) implies #[trigger] set.contains(x) by {
            assert(self@.ids.contains(x));
            let i = self@.ids.index_of(x);
            assert(self.ids@[i]@ == x);
            assert(seen[i]);
        }
        assert forall|x: Seq<char>, y: Seq<char>|
            set.contains(x) && #[trigger] self@.dependents_of(x).contains(y) implies set.contains(
            y,
        ) by {
            let i = choose|i: int|
                0 <= i < self.ids@.len() && #[trigger] seen[i] && self.ids@[i]@ == x;
            let k = queue.index_of(i as usize);
            assert(queue[k] == i);
            assert(self@.ids.contains(y));
            let j = self@.ids.index_of(y);
            assert(self.ids@[j]@ == y);
            assert(seen[j]);
        }
        assert forall|x: Seq<char>| self@.descends(above, x) implies #[trigger] set.contains(
            x,
        ) by {
            self@.lemma_closed_set_holds_descendants(above, set, x);
        }
    }
}

impl Edges {
    pub(crate) fn new(
        ids: Vec<String>,
        needs: Vec<Vec<String>>,
        dependents: Vec<Vec<String>>,
    ) -> (edges: Edges)
        ensures
            edges@ == (DagView {
                ids: texts(ids@),
                needs: text_lists(needs@),
                dependents: text_lists(dependents@),
            }),
    {
        Edges { ids, needs, dependents }
    }

    pub(crate) fn copy(&self) -> (copy: Edges)
        ensures
            copy@ == self@,
    {
        Edges {
            ids: copy_texts(&self.ids),
            needs: copy_text_lists(&self.needs),
            dependents: copy_text_lists(&self.dependents),
        }
    }

    pub(crate) fn ids(&self) -> (ids: &[String])
        ensures
            texts(ids@) == self@.ids,
    {
        self.ids.as_slice()
    }

    pub(crate) fn needs(&self, id: &str) -> (needs: &[String])
        requires
            self@.is_consistent(),
        ensures
            texts(needs@) == self@.needs_of(id@),
    {
        match position_of(&self.ids, id) {
            Some(at) => {
                proof {
                    lemma_beside(self.ids@, self.needs@, id@, at as int);
                }
                self.needs[at].as_slice()
            },
            None => {
                proof {
                    lemma_not_beside(self.ids@, id@);
                }
                no_texts()
            },
        }
    }

    pub(crate) fn dependents(&self, id: &str) -> (dependents: &[String])
        requires
            self@.is_consistent(),
        ensures
            texts(dependents@) == self@.dependents_of(id@),
    {
        match position_of(&self.ids, id) {
            Some(at) => {
                proof {
                    lemma_beside(self.ids@, self.dependents@, id@, at as int);
                }
                self.dependents[at].as_slice()
            },
            None => {
                proof {
                    lemma_not_beside(self.ids@, id@);
                }
                no_texts()
            },
        }
    }

    /// Everything that waits for `id`, directly or through others, in sorting
    /// order.
    pub(crate) fn descendants(&self, id: &str) -> (all: Vec<String>)
        requires
            self@.is_consistent(),
        ensures
            is_ascending(texts(all@)),
            forall|x: Seq<char>| #[trigger]
                texts(all@).contains(x) <==> self@.descends(id@, x),
    {
        let mut all: Vec<String> = Vec::new();
        let at = match position_of(&self.ids, id) {
            Some(at) => at,
            None => {
                proof {
                    lemma_not_beside(self.ids@, id@);
                    assert forall|x: Seq<char>| !self@.descends(id@, x) by {
                        if self@.descends(id@, x) {
                            let path = choose|path: Seq<Seq<char>>|
                                path.len() >= 2 && path[0] == id@ && path.last() == x
                                    && #[trigger] self@.is_descent(path);
                            assert(self@.dependents_of(path[0]).contains(path[0int + 1]));
                        }
                    }
                }
                return all;
            },
        };
        let seen = self.mark_descendants(at);
        let ghost ids = texts(self.ids@);
        let mut i: usize = 0;
        while i < seen.len()
            invariant
                i <= seen.len(),
                seen.len() == self.ids.len(),
                ids == texts(self.ids@),
                ids.no_duplicates(),
                is_ascending(texts(all@)),
                forall|x: Seq<char>| #[trigger]
                    texts(all@).contains(x) <==> exists|j: int|
                        0 <= j < i && #[trigger] seen@[j] && ids[j] == x,
            decreases seen.len() - i,
        {
            let ghost before = texts(all@);
            if seen[i] {
                let name = self.ids[i].clone();
                assert(name@ == ids[i as int]);
                assert(!before.contains(name@)) by {
                    if before.contains(name@) {
                        let j = choose|j: int|
                            0 <= j < i && #[trigger] seen@[j] && ids[j] == name@;
                        assert(ids[j] == ids[i as int]);
                    }
                }
                insert_ascending(&mut all, name);
            }
            i = i + 1;
        }
        proof {
            assert forall|x: Seq<char>| #[trigger]
                texts(all@).contains(x) <==> self@.descends(id@, x) by {
                let set = marked(self.ids@, seen@);
                assert(set.contains(x) <==> self@.descends(id@, x));
                if texts(all@).contains(x) {
                    let j = choose|j: int|
                        0 <= j < seen.len() && #[trigger] seen@[j] && ids[j] == x;
                    assert(self.ids@[j]@ == x);
                }
                if set.contains(x) {
                    let j = choose|j: int|
                        0 <= j < self.ids@.len() && #[trigger] seen@[j]
                            && self.ids@[j]@ == x;
                    assert(ids[j] == x);
                }
            }
        }
        all
    }
}

} // verus!

//! The continuation ledger: per partition, the low-water-mark date below which
//! every change is harvested, and the resumption state of a multi-page fetch
//! in flight.
use vstd::prelude::*;

use crate::text::{lex_le, lex_lt, push_char, str_eq, str_lt};

verus! {

/// What is needed to resume a multi-page fetch.
pub struct ResumptionData {
    /// The sequence number of the next request, from one.
    pub request_number: usize,
    /// The literal payload of the next request.
    pub resumption_request: String,
    /// The response date of the first page of this fetch.
    pub response_date: Option<String>,
}

/// The cursor of one partition.
pub struct Continuation {
    /// The low-water mark, a `YYYY-MM-DD` date; absent before the first
    /// completed harvest.
    pub last_update: Option<String>,
    /// Present exactly while a multi-page fetch is in flight.
    pub resumption_data: Option<ResumptionData>,
}

/// A harvestable partition of the catalog.
pub struct Partition {
    /// The partition's name, such as `cs` or `math:math:NT`.
    pub name: String,
    /// The category the partition stands for, if known.
    pub category: Option<String>,
    pub continuation: Continuation,
}

/// Every partition's cursor; no two partitions share a name.
pub struct Ledger {
    pub partitions: Vec<Partition>,
}

pub open spec fn opt_view(o: Option<String>) -> Option<Seq<char>> {
    match o {
        Some(s) => Some(s@),
        None => None,
    }
}

/// The low-water mark may only rise: from absent to anything, or to a date
/// that is not earlier.
pub open spec fn floor_le(a: Option<Seq<char>>, b: Option<Seq<char>>) -> bool {
    match a {
        None => true,
        Some(x) => b is Some && lex_le(x, b->Some_0),
    }
}

/// The mark `m` raised to `d`: `d` if `m` is earlier; an absent mark stays
/// absent.
pub open spec fn raise_mark(m: Option<Seq<char>>, d: Seq<char>) -> Option<Seq<char>> {
    match m {
        Some(x) => if lex_lt(x, d) {
            Some(d)
        } else {
            m
        },
        None => None,
    }
}

/// The later of the mark `m` and `d`; `d` where there is no mark.
pub open spec fn finish_mark(m: Option<Seq<char>>, d: Seq<char>) -> Option<Seq<char>> {
    match m {
        Some(x) => if lex_lt(x, d) {
            Some(d)
        } else {
            m
        },
        None => Some(d),
    }
}

/// Whether `reset_last_update(date)` raises a partition whose mark is `lu`.
pub open spec fn raised_by(lu: Option<String>, date: Seq<char>) -> bool {
    lu is Some && lex_lt(lu->Some_0@, date)
}

pub open spec fn clone_of(a: ResumptionData, b: ResumptionData) -> bool {
    a.request_number == b.request_number && a.resumption_request == b.resumption_request
        && a.response_date == b.response_date
}

impl Ledger {
    pub open spec fn wf(&self) -> bool {
        forall|i: int, j: int|
            0 <= i < j < self.partitions@.len() ==> (#[trigger] self.partitions@[i]).name@
                != (#[trigger] self.partitions@[j]).name@
    }

    /// The low-water marks, partition by partition.
    pub open spec fn floors(&self) -> Seq<Option<Seq<char>>> {
        self.partitions@.map_values(|p: Partition| opt_view(p.continuation.last_update))
    }

    /// The position of the partition named `name`, if any.
    pub open spec fn position(&self, name: Seq<char>) -> Option<int> {
        if exists|i: int| 0 <= i < self.partitions@.len() && self.partitions@[i].name@ == name {
            Some(
                choose|i: int| 0 <= i < self.partitions@.len() && self.partitions@[i].name@ == name,
            )
        } else {
            None
        }
    }

    /// An empty ledger.
    pub fn new() -> (r: Ledger)
        ensures
            r.wf(),
            r.partitions@.len() == 0,
    {
        Ledger { partitions: Vec::new() }
    }

    /// Finds the partition named `name`.
    pub fn find(&self, name: &str) -> (r: Option<usize>)
        requires
            self.wf(),
        ensures
            r is Some <==> self.position(name@) is Some,
            r is Some ==> r->Some_0 == self.position(name@)->Some_0,
            r is Some ==> self.partitions@[r->Some_0 as int].name@ == name@,
    {
        let mut i: usize = 0;
        while i < self.partitions.len()
            invariant
                self.wf(),
                i <= self.partitions@.len(),
                forall|j: int| 0 <= j < i ==> (#[trigger] self.partitions@[j]).name@ != name@,
            decreases self.partitions@.len() - i,
        {
            if str_eq(self.partitions[i].name.as_str(), name) {
                proof {
                    let w = choose|k: int|
                        0 <= k < self.partitions@.len() && self.partitions@[k].name@ == name@;
                    if w != i {
                        if w < i {
                            assert(self.partitions@[w].name@ != name@);
                        } else {
                            assert(self.partitions@[i as int].name@ != self.partitions@[w].name@);
                        }
                    }
                }
                return Some(i);
            }
            i = i + 1;
        }
        None
    }

    /// Adds a partition with no cursor yet, unless one of that name exists.
    pub fn add_partition(&mut self, name: String, category: Option<String>)
        requires
            old(self).wf(),
        ensures
            final(self).wf(),
            old(self).position(name@) is Some ==> *final(self) == *old(self),
            old(self).position(name@) is None ==> final(self).partitions@ == old(
                self,
            ).partitions@.push(
                Partition {
                    name,
                    category,
                    continuation: Continuation { last_update: None, resumption_data: None },
                },
            ),
    {
        if self.find(name.as_str()).is_some() {
            return;
        }
        let ghost before = self.partitions@;
        self.partitions.push(
            Partition {
                name,
                category,
                continuation: Continuation { last_update: None, resumption_data: None },
            },
        );
        assert forall|i: int, j: int|
            0 <= i < j < self.partitions@.len() implies (#[trigger] self.partitions@[i]).name@
            != (#[trigger] self.partitions@[j]).name@ by {
            if j == before.len() {
                assert(self.partitions@[i] == before[i]);
            }
        }
    }
}

fn clone_opt(o: &Option<String>) -> (r: Option<String>)
    ensures
        r == *o,
{
    match o {
        Some(s) => Some(s.clone()),
        None => None,
    }
}

impl ResumptionData {
    /// A copy.
    pub fn duplicate(&self) -> (r: ResumptionData)
        ensures
            clone_of(r, *self),
    {
        ResumptionData {
            request_number: self.request_number,
            resumption_request: self.resumption_request.clone(),
            response_date: clone_opt(&self.response_date),
        }
    }
}

impl Continuation {
    /// The cursor of `set`; a partition not in the ledger has neither a mark
    /// nor resumption state.
    pub fn read(ledger: &Ledger, set: &str) -> (r: Continuation)
        requires
            ledger.wf(),
        ensures
            match ledger.position(set@) {
                Some(i) => {
                    let c = ledger.partitions@[i].continuation;
                    &&& r.last_update == c.last_update
                    &&& (r.resumption_data is Some <==> c.resumption_data is Some)
                    &&& r.resumption_data is Some ==> clone_of(
                        r.resumption_data->Some_0,
                        c.resumption_data->Some_0,
                    )
                },
                None => r.last_update is None && r.resumption_data is None,
            },
    {
        match ledger.find(set) {
            Some(i) => {
                let c = &ledger.partitions[i].continuation;
                Continuation {
                    last_update: clone_opt(&c.last_update),
                    resumption_data: match &c.resumption_data {
                        Some(d) => Some(d.duplicate()),
                        None => None,
                    },
                }
            },
            None => Continuation { last_update: None, resumption_data: None },
        }
    }

    /// The partition that stands for `category`: the empty category stands
    /// for the whole catalog (the empty partition name); otherwise the first
    /// partition whose category is `category`.
    pub fn set_for_category(ledger: &Ledger, category: &str) -> (r: Option<String>)
        ensures
            category@.len() == 0 ==> r is Some && r->Some_0@.len() == 0,
            category@.len() > 0 ==> (r is Some <==> exists|i: int|
                0 <= i < ledger.partitions@.len() && opt_view(
                    #[trigger] ledger.partitions@[i].category,
                ) == Some(category@)),
            category@.len() > 0 && r is Some ==> exists|i: int|
                0 <= i < ledger.partitions@.len() && opt_view(
                    #[trigger] ledger.partitions@[i].category,
                ) == Some(category@) && ledger.partitions@[i].name == r->Some_0 && forall|j: int|
                    0 <= j < i ==> opt_view(#[trigger] ledger.partitions@[j].category) != Some(
                        category@,
                    ),
    {
        if category.unicode_len() == 0 {
            return Some(String::new());
        }
        let mut i: usize = 0;
        while i < ledger.partitions.len()
            invariant
                category@.len() > 0,
                i <= ledger.partitions@.len(),
                forall|j: int|
                    0 <= j < i ==> opt_view(#[trigger] ledger.partitions@[j].category) != Some(
                        category@,
                    ),
            decreases ledger.partitions@.len() - i,
        {
            let p = &ledger.partitions[i];
            match &p.category {
                Some(c) => {
                    if str_eq(c.as_str(), category) {
                        return Some(p.name.clone());
                    }
                },
                None => {},
            }
            i = i + 1;
        }
        None
    }

    /// For every partition whose mark is earlier than `date`, raises the mark to
    /// `date` and clears its resumption state; the others stay as they are.
    pub fn reset_last_update(ledger: &mut Ledger, date: &str)
        requires
            old(ledger).wf(),
        ensures
            raised_all(*old(ledger), *final(ledger), date@),
    {
        let mut rest: Vec<Partition> = Vec::new();
        core::mem::swap(&mut rest, &mut ledger.partitions);
        let ghost orig = rest@;
        let mut out: Vec<Partition> = Vec::new();
        while rest.len() > 0
            invariant
                out@.len() + rest@.len() == orig.len(),
                rest@ == orig.subrange(out@.len() as int, orig.len() as int),
                forall|i: int|
                    0 <= i < out@.len() ==> {
                        let p = #[trigger] orig[i];
                        let q = out@[i];
                        &&& q.name == p.name
                        &&& q.category == p.category
                        &&& if raised_by(p.continuation.last_update, date@) {
                            opt_view(q.continuation.last_update) == Some(date@)
                                && q.continuation.resumption_data is None
                        } else {
                            q.continuation == p.continuation
                        }
                    },
            decreases rest@.len(),
        {
            let ghost k = out@.len() as int;
            let p = rest.remove(0);
            assert(p == orig[k]);
            let raise = match &p.continuation.last_update {
                Some(prev) => str_lt(prev.as_str(), date),
                None => false,
            };
            if raise {
                out.push(
                    Partition {
                        name: p.name,
                        category: p.category,
                        continuation: Continuation {
                            last_update: Some(String::from_str(date)),
                            resumption_data: None,
                        },
                    },
                );
            } else {
                out.push(p);
            }
            assert(rest@ =~= orig.subrange(out@.len() as int, orig.len() as int));
        }
        ledger.partitions = out;
        proof {
            assert forall|i: int, j: int|
                0 <= i < j < ledger.partitions@.len() implies (#[trigger] ledger.partitions@[i]).name@
                != (#[trigger] ledger.partitions@[j]).name@ by {
                assert(orig[i].name@ != orig[j].name@);
            }
            assert forall|i: int| 0 <= i < orig.len() implies floor_le(
                #[trigger] opt_view(orig[i].continuation.last_update),
                opt_view(ledger.partitions@[i].continuation.last_update),
            ) by {
                let p = orig[i];
                let q = ledger.partitions@[i];
                if raised_by(p.continuation.last_update, date@) {
                } else {
                    assert(q.continuation.last_update == p.continuation.last_update);
                }
            }
        }
    }

    /// Finishes a harvest of `set` as of `date`: its mark becomes the later of
    /// the old mark and `date` (or `date` if it had none), and its resumption
    /// state is cleared. No other partition changes.
    pub fn update_last_update(ledger: &mut Ledger, set: &str, date: &str)
        requires
            old(ledger).wf(),
        ensures
            finished(*old(ledger), *final(ledger), set@, date@),
    {
        let idx = match ledger.find(set) {
            Some(i) => i,
            None => {
                proof {
                    assert forall|i: int| 0 <= i < ledger.partitions@.len() implies (
                    #[trigger] ledger.partitions@[i]).name@ != set@ by {
                        if ledger.partitions@[i].name@ == set@ {
                            assert(ledger.position(set@) is Some);
                        }
                    }
                    assert(floors_rise(ledger.floors(), ledger.floors()));
                }
                return;
            },
        };
        let ghost before = ledger.partitions@;
        let mut rest: Vec<Partition> = Vec::new();
        core::mem::swap(&mut rest, &mut ledger.partitions);
        let mut p = rest.remove(idx);
        let keep = match &p.continuation.last_update {
            Some(prev) => !str_lt(prev.as_str(), date),
            None => false,
        };
        let new_last = if keep {
            p.continuation.last_update
        } else {
            Some(String::from_str(date))
        };
        p.continuation = Continuation { last_update: new_last, resumption_data: None };
        rest.insert(idx, p);
        ledger.partitions = rest;
        proof {
            assert forall|i: int| 0 <= i < before.len() && i != idx implies before[i].name@
                != set@ by {
                assert(before[i].name@ != before[idx as int].name@);
            }
            assert forall|i: int, j: int|
                0 <= i < j < ledger.partitions@.len() implies (#[trigger] ledger.partitions@[i]).name@
                != (#[trigger] ledger.partitions@[j]).name@ by {
                assert(before[i].name@ != before[j].name@);
            }
            let q = ledger.partitions@[idx as int];
            let lu = before[idx as int].continuation.last_update;
            if keep {
                crate::text::lemma_lex_total(lu->Some_0@, date@);
            }
            assert(floor_le(opt_view(lu), opt_view(q.continuation.last_update)));
        }
    }

    /// Records the resumption state of `set`; its mark stays. No other
    /// partition changes.
    pub fn update_resumption_data(ledger: &mut Ledger, set: &str, data: ResumptionData)
        requires
            old(ledger).wf(),
        ensures
            resumption_set(*old(ledger), *final(ledger), set@, Some(data)),
    {
        set_resumption(ledger, set, Some(data))
    }

    /// Clears the resumption state of `set`; its mark stays. No other
    /// partition changes.
    pub fn clear_resumption_data(ledger: &mut Ledger, set: &str)
        requires
            old(ledger).wf(),
        ensures
            resumption_set(*old(ledger), *final(ledger), set@, None),
    {
        set_resumption(ledger, set, None)
    }
}

fn set_resumption(ledger: &mut Ledger, set: &str, data: Option<ResumptionData>)
    requires
        old(ledger).wf(),
    ensures
        resumption_set(*old(ledger), *final(ledger), set@, data),
{
    let idx = match ledger.find(set) {
        Some(i) => i,
        None => {
            proof {
                assert forall|i: int| 0 <= i < ledger.partitions@.len() implies (
                #[trigger] ledger.partitions@[i]).name@ != set@ by {
                    if ledger.partitions@[i].name@ == set@ {
                        assert(ledger.position(set@) is Some);
                    }
                }
                assert(floors_rise(ledger.floors(), ledger.floors()));
            }
            return;
        },
    };
    let ghost before = ledger.partitions@;
    let mut rest: Vec<Partition> = Vec::new();
    core::mem::swap(&mut rest, &mut ledger.partitions);
    let mut p = rest.remove(idx);
    p.continuation.resumption_data = data;
    rest.insert(idx, p);
    ledger.partitions = rest;
    proof {
        assert forall|i: int| 0 <= i < before.len() && i != idx implies before[i].name@ != set@ by {
            assert(before[i].name@ != before[idx as int].name@);
        }
        assert forall|i: int, j: int|
            0 <= i < j < ledger.partitions@.len() implies (#[trigger] ledger.partitions@[i]).name@
            != (#[trigger] ledger.partitions@[j]).name@ by {
            assert(before[i].name@ != before[j].name@);
        }
    }
}

/// `b` is `a` after `reset_last_update(date)`: every partition whose mark is
/// earlier than `date` has the mark `date` and no resumption state; the
/// others are unchanged.
pub open spec fn raised_all(a: Ledger, b: Ledger, date: Seq<char>) -> bool {
    &&& b.wf()
    &&& b.partitions@.len() == a.partitions@.len()
    &&& forall|i: int|
        0 <= i < a.partitions@.len() ==> {
            let p = #[trigger] a.partitions@[i];
            let q = b.partitions@[i];
            &&& q.name == p.name
            &&& q.category == p.category
            &&& if raised_by(p.continuation.last_update, date) {
                opt_view(q.continuation.last_update) == Some(date)
                    && q.continuation.resumption_data is None
            } else {
                q.continuation == p.continuation
            }
        }
    &&& floors_rise(a.floors(), b.floors())
}

/// `b` is `a` after `update_last_update(set, date)`: the partition `set` has
/// the later of its mark and `date` (or `date` if it had none) and no
/// resumption state; the others are unchanged.
pub open spec fn finished(a: Ledger, b: Ledger, set: Seq<char>, date: Seq<char>) -> bool {
    &&& b.wf()
    &&& b.partitions@.len() == a.partitions@.len()
    &&& forall|i: int|
        0 <= i < a.partitions@.len() ==> {
            let p = #[trigger] a.partitions@[i];
            let q = b.partitions@[i];
            &&& q.name == p.name
            &&& q.category == p.category
            &&& if p.name@ == set {
                &&& q.continuation.resumption_data is None
                &&& opt_view(q.continuation.last_update) == if raised_by(
                    p.continuation.last_update,
                    date,
                ) || p.continuation.last_update is None {
                    Some(date)
                } else {
                    opt_view(p.continuation.last_update)
                }
            } else {
                q == p
            }
        }
    &&& floors_rise(a.floors(), b.floors())
}

/// `b` is `a` with the resumption state of `set` replaced by `data`; marks
/// and all other partitions are unchanged.
pub open spec fn resumption_set(
    a: Ledger,
    b: Ledger,
    set: Seq<char>,
    data: Option<ResumptionData>,
) -> bool {
    &&& b.wf()
    &&& b.partitions@.len() == a.partitions@.len()
    &&& forall|i: int|
        0 <= i < a.partitions@.len() ==> {
            let p = #[trigger] a.partitions@[i];
            let q = b.partitions@[i];
            if p.name@ == set {
                &&& q.name == p.name
                &&& q.category == p.category
                &&& q.continuation.last_update == p.continuation.last_update
                &&& q.continuation.resumption_data == data
            } else {
                q == p
            }
        }
    &&& floors_rise(a.floors(), b.floors())
}

/// Every mark of `a` is at or below the mark at the same position of `b`;
/// `b` may list further partitions.
pub open spec fn floors_rise(a: Seq<Option<Seq<char>>>, b: Seq<Option<Seq<char>>>) -> bool {
    &&& a.len() <= b.len()
    &&& forall|i: int| 0 <= i < a.len() ==> floor_le(#[trigger] a[i], b[i])
}

/// Across any sequence of ledger states in which each step lets the marks
/// only rise, no partition's mark is ever lower than it was at the start.
pub proof fn lemma_floors_monotone(states: Seq<Seq<Option<Seq<char>>>>)
    requires
        states.len() >= 1,
        forall|k: int| 0 <= k < states.len() - 1 ==> floors_rise(#[trigger] states[k], states[k + 1]),
    ensures
        forall|k: int| 0 <= k < states.len() ==> floors_rise(states[0], #[trigger] states[k]),
{
    assert forall|k: int| 0 <= k < states.len() implies floors_rise(states[0], #[trigger] states[k]) by {
        lemma_floors_prefix(states, k);
    }
}

proof fn lemma_floors_prefix(states: Seq<Seq<Option<Seq<char>>>>, k: int)
    requires
        0 <= k < states.len(),
        forall|m: int| 0 <= m < states.len() - 1 ==> floors_rise(#[trigger] states[m], states[m + 1]),
    ensures
        floors_rise(states[0], states[k]),
    decreases k,
{
    if k == 0 {
        assert forall|i: int| 0 <= i < states[0].len() implies floor_le(
            #[trigger] states[0][i],
            states[0][i],
        ) by {}
    } else {
        lemma_floors_prefix(states, k - 1);
        assert(floors_rise(states[k - 1], states[k]));
        assert forall|i: int| 0 <= i < states[0].len() implies floor_le(
            #[trigger] states[0][i],
            states[k][i],
        ) by {
            let a = states[0][i];
            let b = states[k - 1][i];
            let c = states[k][i];
            assert(floor_le(a, b));
            assert(floor_le(b, c));
            if a is Some {
                crate::text::lemma_lex_transitive(a->Some_0, b->Some_0, c->Some_0);
            }
        }
    }
}

/// The category a partition name stands for: the text after the first `:`,
/// with every further `:` turned into `.` (`math:math:NT` gives `math.NT`).
pub open spec fn category_spec(name: Seq<char>) -> Option<Seq<char>> {
    match crate::ident::first_index_of(name, ':') {
        Some(k) => Some(
            crate::ident::replace_char(name.subrange(k + 1, name.len() as int), ':', '.'),
        ),
        None => None,
    }
}

/// The category of the partition `name`, if the name carries one.
pub fn category_of_set(name: &str) -> (r: Option<String>)
    ensures
        opt_view(r) == category_spec(name@),
{
    let n = name.unicode_len();
    let mut k: usize = 0;
    while k < n
        invariant
            n == name@.len(),
            k <= n,
            forall|j: int| 0 <= j < k ==> name@[j] != ':',
        ensures
            k <= n,
            forall|j: int| 0 <= j < k ==> name@[j] != ':',
            k < n ==> name@[k as int] == ':',
        decreases n - k,
    {
        if name.get_char(k) == ':' {
            break;
        }
        k = k + 1;
    }
    if k == n {
        return None;
    }
    proof {
        let w = choose|i: int| 0 <= i < name@.len() && name@[i] == ':' && forall|j: int|
            0 <= j < i ==> name@[j] != ':';
        assert(0 <= k < name@.len() && name@[k as int] == ':' && forall|j: int|
            0 <= j < k ==> name@[j] != ':');
        if w < k {
            assert(name@[w] != ':');
        }
        if k < w {
            assert(name@[k as int] != ':');
        }
    }
    let mut r = String::new();
    let mut i: usize = k + 1;
    while i < n
        invariant
            n == name@.len(),
            k < n,
            k + 1 <= i <= n,
            r@ == crate::ident::replace_char(name@.subrange(k + 1, i as int), ':', '.'),
        decreases n - i,
    {
        let c = name.get_char(i);
        push_char(&mut r, if c == ':' { '.' } else { c });
        i = i + 1;
        assert(r@ =~= crate::ident::replace_char(name@.subrange(k + 1, i as int), ':', '.'));
    }
    Some(r)
}

impl Ledger {
    /// Adds each listed partition whose name carries a category, with that
    /// category, unless a partition of that name exists already. No mark or
    /// resumption state changes.
    pub fn add_listed_partitions(&mut self, names: Vec<String>)
        requires
            old(self).wf(),
        ensures
            final(self).wf(),
            final(self).partitions@.len() >= old(self).partitions@.len(),
            forall|i: int|
                0 <= i < old(self).partitions@.len() ==> final(self).partitions@[i]
                    == old(self).partitions@[i],
            forall|i: int|
                old(self).partitions@.len() <= i < final(self).partitions@.len() ==> {
                    let p = #[trigger] final(self).partitions@[i];
                    &&& exists|k: int| 0 <= k < names@.len() && names@[k] == p.name
                    &&& opt_view(p.category) == category_spec(p.name@)
                    &&& p.category is Some
                    &&& p.continuation.last_update is None
                    &&& p.continuation.resumption_data is None
                },
            forall|k: int|
                0 <= k < names@.len() && category_spec(names@[k]@) is Some
                    ==> final(self).position(#[trigger] names@[k]@) is Some,
            floors_rise(old(self).floors(), final(self).floors()),
    {
        let ghost start_ledger = *self;
        let ghost start = self.partitions@;
        let ghost all = names@;
        let mut rest = names;
        let ghost mut done: int = 0;
        while rest.len() > 0
            invariant
                self.wf(),
                all == names@,
                done + rest@.len() == all.len(),
                0 <= done,
                rest@ == all.subrange(done, all.len() as int),
                self.partitions@.len() >= start.len(),
                forall|i: int| 0 <= i < start.len() ==> self.partitions@[i] == start[i],
                forall|i: int|
                    start.len() <= i < self.partitions@.len() ==> {
                        let p = #[trigger] self.partitions@[i];
                        &&& exists|k: int| 0 <= k < done && all[k] == p.name
                        &&& opt_view(p.category) == category_spec(p.name@)
                        &&& p.category is Some
                        &&& p.continuation.last_update is None
                        &&& p.continuation.resumption_data is None
                    },
                forall|k: int|
                    0 <= k < done && category_spec(all[k]@) is Some ==> self.position(
                        #[trigger] all[k]@,
                    ) is Some,
            decreases rest@.len(),
        {
            let name = rest.remove(0);
            assert(name == all[done]);
            let ghost before = self.partitions@;
            match category_of_set(name.as_str()) {
                Some(c) => {
                    let ghost nm = name@;
                    self.add_partition(name, Some(c));
                    proof {
                        assert forall|k: int|
                            0 <= k < done + 1 && category_spec(all[k]@) is Some implies self.position(
                            #[trigger] all[k]@,
                        ) is Some by {
                            if k < done {
                                let j = choose|j: int|
                                    0 <= j < before.len() && before[j].name@ == all[k]@;
                                assert(self.partitions@[j] == before[j]);
                            } else {
                                if exists|j: int| 0 <= j < before.len() && before[j].name@ == nm {
                                    let j = choose|j: int|
                                        0 <= j < before.len() && before[j].name@ == nm;
                                    assert(self.partitions@[j] == before[j]);
                                } else {
                                    assert(self.partitions@[before.len() as int].name@ == nm);
                                }
                            }
                        }
                    }
                },
                None => {},
            }
            proof {
                done = done + 1;
            }
            assert(rest@ =~= all.subrange(done, all.len() as int));
        }
        proof {
            assert forall|i: int| 0 <= i < start.len() implies floor_le(
                #[trigger] start_ledger.floors()[i],
                self.floors()[i],
            ) by {
                assert(self.partitions@[i] == start[i]);
            }
        }
    }
}

/// The mark of partition `name`, starting from `m`, after the dump entries
/// `es` are brought in one by one: each entry for `name` leaves the later of
/// the mark and its date.
pub open spec fn dump_mark(m: Option<Seq<char>>, name: Seq<char>, es: Seq<(String, String)>) -> Option<Seq<char>>
    decreases es.len(),
{
    if es.len() == 0 {
        m
    } else {
        let m1 = dump_mark(m, name, es.drop_last());
        if es.last().0@ == name {
            finish_mark(m1, es.last().1@)
        } else {
            m1
        }
    }
}

/// `b` is `a` after the dump entries `es` are brought in: names and
/// categories stay, each mark is the later of the old mark and the dates the
/// dump gives for that name, and a partition whose mark rose has no
/// resumption state; one whose mark stayed is unchanged.
pub open spec fn marks_imported(a: Ledger, b: Ledger, es: Seq<(String, String)>) -> bool {
    &&& b.wf()
    &&& b.partitions@.len() == a.partitions@.len()
    &&& forall|i: int|
        0 <= i < a.partitions@.len() ==> {
            let p = #[trigger] a.partitions@[i];
            let q = b.partitions@[i];
            let m0 = opt_view(p.continuation.last_update);
            &&& q.name == p.name
            &&& q.category == p.category
            &&& opt_view(q.continuation.last_update) == dump_mark(m0, p.name@, es)
            &&& opt_view(q.continuation.last_update) == m0 ==> q.continuation == p.continuation
            &&& opt_view(q.continuation.last_update) != m0 ==> q.continuation.resumption_data is None
        }
    &&& floors_rise(a.floors(), b.floors())
}

impl Continuation {
    /// The floor-raise rule for one partition: if the mark of `set` is earlier
    /// than `date`, or absent, it becomes `date` and the resumption state is
    /// cleared; otherwise nothing changes.
    pub fn raise_last_update(ledger: &mut Ledger, set: &str, date: &str)
        requires
            old(ledger).wf(),
        ensures
            final(ledger).wf(),
            final(ledger).partitions@.len() == old(ledger).partitions@.len(),
            forall|i: int|
                0 <= i < old(ledger).partitions@.len() ==> {
                    let p = #[trigger] old(ledger).partitions@[i];
                    let q = final(ledger).partitions@[i];
                    let m0 = opt_view(p.continuation.last_update);
                    if p.name@ == set@ && finish_mark(m0, date@) != m0 {
                        &&& q.name == p.name
                        &&& q.category == p.category
                        &&& opt_view(q.continuation.last_update) == Some(date@)
                        &&& q.continuation.resumption_data is None
                    } else {
                        q == p
                    }
                },
            floors_rise(old(ledger).floors(), final(ledger).floors()),
    {
        let idx = match ledger.find(set) {
            Some(i) => i,
            None => {
                proof {
                    assert forall|i: int| 0 <= i < ledger.partitions@.len() implies (
                    #[trigger] ledger.partitions@[i]).name@ != set@ by {
                        if ledger.partitions@[i].name@ == set@ {
                            assert(ledger.position(set@) is Some);
                        }
                    }
                    assert(floors_rise(ledger.floors(), ledger.floors()));
                }
                return;
            },
        };
        let raise = match &ledger.partitions[idx].continuation.last_update {
            Some(prev) => str_lt(prev.as_str(), date),
            None => true,
        };
        if !raise {
            proof {
                let lu = ledger.partitions@[idx as int].continuation.last_update;
                assert(finish_mark(opt_view(lu), date@) == opt_view(lu));
                assert forall|i: int| 0 <= i < ledger.partitions@.len() && i != idx implies (
                #[trigger] ledger.partitions@[i]).name@ != set@ by {
                    assert(ledger.partitions@[i].name@ != ledger.partitions@[idx as int].name@);
                }
                assert(floors_rise(ledger.floors(), ledger.floors()));
            }
            return;
        }
        let ghost before = ledger.partitions@;
        let mut rest: Vec<Partition> = Vec::new();
        core::mem::swap(&mut rest, &mut ledger.partitions);
        let mut p = rest.remove(idx);
        p.continuation = Continuation { last_update: Some(String::from_str(date)), resumption_data: None };
        rest.insert(idx, p);
        ledger.partitions = rest;
        proof {
            assert forall|i: int| 0 <= i < before.len() && i != idx implies before[i].name@ != set@ by {
                assert(before[i].name@ != before[idx as int].name@);
            }
            assert forall|i: int, j: int|
                0 <= i < j < ledger.partitions@.len() implies (#[trigger] ledger.partitions@[i]).name@
                != (#[trigger] ledger.partitions@[j]).name@ by {
                assert(before[i].name@ != before[j].name@);
            }
            let lu = before[idx as int].continuation.last_update;
            if lu is Some {
                crate::text::lemma_lex_irreflexive(date@);
            }
            assert(finish_mark(opt_view(lu), date@) != opt_view(lu));
        }
    }
}

impl Ledger {
    /// Brings in the marks of a dump, each entry through the floor-raise rule
    /// of `raise_last_update`.
    pub fn import_marks(&mut self, entries: Vec<(String, String)>)
        requires
            old(self).wf(),
        ensures
            marks_imported(*old(self), *final(self), entries@),
    {
        let ghost start = *self;
        let ghost all = entries@;
        let mut rest = entries;
        let ghost mut done: int = 0;
        assert forall|i: int| 0 <= i < start.partitions@.len() implies floor_le(
            #[trigger] start.floors()[i],
            start.floors()[i],
        ) by {}
        while rest.len() > 0
            invariant
                start.wf(),
                all == entries@,
                0 <= done,
                done + rest@.len() == all.len(),
                rest@ == all.subrange(done, all.len() as int),
                marks_imported(start, *self, all.subrange(0, done)),
            decreases rest@.len(),
        {
            let (name, date) = rest.remove(0);
            assert((name, date) == all[done]);
            let ghost before = *self;
            Continuation::raise_last_update(self, name.as_str(), date.as_str());
            proof {
                let es = all.subrange(0, done + 1);
                assert(es.drop_last() =~= all.subrange(0, done));
                assert(es.last() == (name, date));
                lemma_floors_rise_trans(start.floors(), before.floors(), self.floors());
                assert forall|i: int| 0 <= i < start.partitions@.len() implies ({
                    let p = #[trigger] start.partitions@[i];
                    let q = self.partitions@[i];
                    let m0 = opt_view(p.continuation.last_update);
                    &&& q.name == p.name
                    &&& q.category == p.category
                    &&& opt_view(q.continuation.last_update) == dump_mark(m0, p.name@, es)
                    &&& opt_view(q.continuation.last_update) == m0 ==> q.continuation == p.continuation
                    &&& opt_view(q.continuation.last_update) != m0 ==> q.continuation.resumption_data is None
                }) by {
                    let p = start.partitions@[i];
                    let b = before.partitions@[i];
                    let q = self.partitions@[i];
                    let m0 = opt_view(p.continuation.last_update);
                    let m1 = opt_view(b.continuation.last_update);
                    assert(b.name == p.name);
                    assert(floor_le(start.floors()[i], before.floors()[i]));
                    if b.name@ == name@ && finish_mark(m1, date@) != m1 {
                        if m0 is Some {
                            if m1 is Some {
                                crate::text::lemma_lex_transitive(m0->Some_0, m1->Some_0, date@);
                            }
                            crate::text::lemma_lex_irreflexive(date@);
                        }
                        assert(opt_view(q.continuation.last_update) != m0);
                    } else {
                        assert(q == b);
                    }
                }
                done = done + 1;
            }
            assert(rest@ =~= all.subrange(done, all.len() as int));
        }
        assert(all.subrange(0, done) =~= all);
    }
}

/// Bringing in a dump whose every entry repeats the mark a partition has
/// already leaves that mark as it is.
pub proof fn lemma_reimport_mark(m: Option<Seq<char>>, name: Seq<char>, es: Seq<(String, String)>)
    requires
        forall|k: int| 0 <= k < es.len() && (#[trigger] es[k]).0@ == name ==> m == Some(es[k].1@),
    ensures
        dump_mark(m, name, es) == m,
    decreases es.len(),
{
    if es.len() > 0 {
        let ds = es.drop_last();
        assert forall|k: int| 0 <= k < ds.len() && (#[trigger] ds[k]).0@ == name implies m == Some(
            ds[k].1@,
        ) by {
            assert(ds[k] == es[k]);
        }
        lemma_reimport_mark(m, name, ds);
        if es.last().0@ == name {
            assert(es[es.len() - 1] == es.last());
            crate::text::lemma_lex_irreflexive(es.last().1@);
        }
    }
}

/// Marks that rose twice rose.
pub proof fn lemma_floors_rise_trans(
    a: Seq<Option<Seq<char>>>,
    b: Seq<Option<Seq<char>>>,
    c: Seq<Option<Seq<char>>>,
)
    requires
        floors_rise(a, b),
        floors_rise(b, c),
    ensures
        floors_rise(a, c),
{
    assert forall|i: int| 0 <= i < a.len() implies floor_le(#[trigger] a[i], c[i]) by {
        assert(floor_le(a[i], b[i]));
        assert(floor_le(b[i], c[i]));
        if a[i] is Some {
            crate::text::lemma_lex_transitive(a[i]->Some_0, b[i]->Some_0, c[i]->Some_0);
        }
    }
}

} // verus!

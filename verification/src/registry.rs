//! The tool registry: registration with validation, lookup, fuzzy search
//! and availability filtering.


use crate::availability::{first_unmet, requires_met, AvailabilityView};
use crate::descriptor::Descriptor;
use crate::error::{descriptor_error_views, DescriptorError};
use crate::text::{
    chars_eq, chars_lt, chars_of, dec_nat, lemma_seq_lt_irrefl, lemma_seq_lt_total,
    lemma_seq_lt_trans, push_str, seq_lt, split_whitespace_chars, str_eq, string_from, trim,
    trim_chars, usize_to_string, views, words,
};
use crate::validate::{descriptor_errors, validate_descriptor};
use fuzzy_matcher::skim::SkimMatcherV2;
use fuzzy_matcher::FuzzyMatcher;
use vstd::prelude::*;

verus! {

// ---------------------------------------------------------------------------
// Fuzzy scores

/// The score `SkimMatcherV2::default().fuzzy_match(choice, pattern)` gives,
/// `None` when `pattern` does not fuzzy-match `choice`.
pub uninterp spec fn skim_score(choice: Seq<char>, pattern: Seq<char>) -> Option<i64>;

/// Calls `fuzzy_matcher`'s `SkimMatcherV2::default().fuzzy_match`. Its result
/// depends on the two strings alone (the matcher's caches do not change it);
/// the score is computed in `i32` and widened, and an empty pattern scores 0.
#[verifier::external_body]
fn fuzzy_score(choice: &str, pattern: &str) -> (r: Option<i64>)
    ensures
        r == skim_score(choice@, pattern@),
        r matches Some(s) ==> i32::MIN <= s <= i32::MAX,
        pattern@.len() == 0 ==> r == Some(0i64),
{
    SkimMatcherV2::default().fuzzy_match(choice, pattern)
}

/// The larger of two optional scores (`Iterator::max` over the `Some`s).
pub open spec fn better(a: Option<i64>, b: Option<i64>) -> Option<i64> {
    match (a, b) {
        (None, x) => x,
        (Some(x), None) => Some(x),
        (Some(x), Some(y)) => if y >= x {
            Some(y)
        } else {
            Some(x)
        },
    }
}

/// The best of a term's scores against each haystack, `None` when it
/// matches none.
pub open spec fn best_of(scores: Seq<Option<i64>>) -> Option<i64>
    decreases scores.len(),
{
    if scores.len() == 0 {
        None
    } else {
        better(best_of(scores.drop_last()), scores.last())
    }
}

/// The sum of the terms' best scores, `None` when some term matched nothing.
pub open spec fn total_of(bests: Seq<Option<i64>>) -> Option<int>
    decreases bests.len(),
{
    if bests.len() == 0 {
        Some(0)
    } else {
        match (total_of(bests.drop_last()), bests.last()) {
            (Some(t), Some(b)) => Some(t + b),
            _ => None,
        }
    }
}

/// The total of a score table whose row `k` holds term `k`'s scores against
/// each haystack.
pub open spec fn table_total(table: Seq<Seq<Option<i64>>>) -> Option<int> {
    total_of(Seq::new(table.len(), |k: int| best_of(table[k])))
}

/// The haystacks a tool is searched by: its title, then its keywords.
pub open spec fn haystacks(d: Descriptor) -> Seq<Seq<char>> {
    seq![d.title@] + views(d.keywords@)
}

/// The scores of each term against each haystack of `d`.
pub open spec fn score_table(d: Descriptor, terms: Seq<Seq<char>>) -> Seq<Seq<Option<i64>>> {
    Seq::new(
        terms.len(),
        |k: int| Seq::new(haystacks(d).len(), |h: int| skim_score(haystacks(d)[h], terms[k])),
    )
}

/// A tool's search score for the terms: `None` unless every term matches
/// its title or a keyword.
pub open spec fn tool_score(d: Descriptor, terms: Seq<Seq<char>>) -> Option<int> {
    table_total(score_table(d, terms))
}

fn best_exec(scores: &Vec<Option<i64>>) -> (r: Option<i64>)
    ensures
        r == best_of(scores@),
{
    let mut best: Option<i64> = None;
    let mut h: usize = 0;
    while h < scores.len()
        invariant
            h <= scores@.len(),
            best == best_of(scores@.take(h as int)),
        decreases scores.len() - h,
    {
        assert(scores@.take(h + 1).drop_last() =~= scores@.take(h as int));
        best = match (best, scores[h]) {
            (None, x) => x,
            (Some(x), None) => Some(x),
            (Some(x), Some(y)) => if y >= x {
                Some(y)
            } else {
                Some(x)
            },
        };
        h += 1;
    }
    assert(scores@.take(h as int) =~= scores@);
    best
}

/// The total of a score table: for each term (row) the best of its scores,
/// summed over the terms; `None` when some term matched no haystack.
pub fn combine_scores(table: &Vec<Vec<Option<i64>>>) -> (r: Option<i128>)
    ensures
        r matches Some(t) ==> table_total(table@.map_values(|row: Vec<Option<i64>>| row@)) == Some(
            t as int,
        ),
        r is None ==> table_total(table@.map_values(|row: Vec<Option<i64>>| row@)) is None,
{
    let ghost rows = table@.map_values(|row: Vec<Option<i64>>| row@);
    let ghost bests = Seq::new(rows.len(), |k: int| best_of(rows[k]));
    let mut total: i128 = 0;
    let mut k: usize = 0;
    while k < table.len()
        invariant
            k <= table@.len(),
            rows == table@.map_values(|row: Vec<Option<i64>>| row@),
            bests == Seq::new(rows.len(), |q: int| best_of(rows[q])),
            total_of(bests.take(k as int)) == Some(total as int),
            -(k as int) * 0x8000_0000_0000_0000 <= total <= (k as int) * 0x8000_0000_0000_0000,
        decreases table.len() - k,
    {
        assert(bests.take(k + 1).drop_last() =~= bests.take(k as int));
        let b = best_exec(&table[k]);
        match b {
            None => {
                assert(bests.take(k + 1).last() is None);
                assert(total_of(bests.take(k + 1)) is None);
                proof {
                    lemma_total_none_extends(bests, k as int + 1);
                }
                assert(bests.take(bests.len() as int) =~= bests);
                return None;
            },
            Some(s) => {
                assert(k < 0x1_0000_0000_0000_0000);
                total = total + s as i128;
            },
        }
        k += 1;
    }
    assert(bests.take(k as int) =~= bests);
    Some(total)
}

proof fn lemma_total_none_extends(bests: Seq<Option<i64>>, n: int)
    requires
        0 <= n <= bests.len(),
        total_of(bests.take(n)) is None,
    ensures
        total_of(bests) is None,
    decreases bests.len() - n,
{
    if n < bests.len() {
        assert(bests.take(n + 1).drop_last() =~= bests.take(n));
        lemma_total_none_extends(bests, n + 1);
    } else {
        assert(bests.take(n) =~= bests);
    }
}

// ---------------------------------------------------------------------------
// Ranking

/// One scored tool orders before another: higher total first, then the
/// smaller id, then the earlier registration (the order a stable sort by
/// descending total and ascending id leaves).
pub open spec fn ranks_before(t1: int, id1: Seq<char>, i1: int, t2: int, id2: Seq<char>, i2: int) -> bool {
    t1 > t2 || (t1 == t2 && (seq_lt(id1, id2) || (id1 == id2 && i1 < i2)))
}

pub open spec fn key_before(tools: Seq<Descriptor>, totals: Seq<Option<int>>, a: int, b: int) -> bool {
    ranks_before(totals[a]->Some_0, tools[a].id@, a, totals[b]->Some_0, tools[b].id@, b)
}

/// The totals as mathematical integers.
pub open spec fn widen(totals: Seq<Option<i128>>) -> Seq<Option<int>> {
    Seq::new(
        totals.len(),
        |i: int|
            match totals[i] {
                Some(t) => Some(t as int),
                None => None,
            },
    )
}

/// `order` lists exactly the tools that have a total, each once, best
/// first.
pub open spec fn is_ranking(tools: Seq<Descriptor>, totals: Seq<Option<int>>, order: Seq<usize>) -> bool {
    &&& forall|k: int| 0 <= k < order.len() ==> #[trigger] order[k] < tools.len() && totals[order[k] as int] is Some
    &&& forall|i: int| 0 <= i < tools.len() ==> (#[trigger] totals[i] is Some <==> exists|k: int|
        0 <= k < order.len() && order[k] == i)
    &&& forall|a: int, b: int| 0 <= a < b < order.len() ==> key_before(tools, totals, #[trigger] order[a] as int, #[trigger] order[b] as int)
}

proof fn lemma_key_order(tools: Seq<Descriptor>, totals: Seq<Option<int>>, a: int, b: int, c: int)
    ensures
        !key_before(tools, totals, a, a),
        a != b ==> key_before(tools, totals, a, b) || key_before(tools, totals, b, a),
        !(key_before(tools, totals, a, b) && key_before(tools, totals, b, a)),
        key_before(tools, totals, a, b) && key_before(tools, totals, b, c) ==> key_before(
            tools,
            totals,
            a,
            c,
        ),
{
    lemma_seq_lt_irrefl(tools[a].id@);
    lemma_seq_lt_total(tools[a].id@, tools[b].id@);
    if key_before(tools, totals, a, b) && key_before(tools, totals, b, c) {
        if seq_lt(tools[a].id@, tools[b].id@) && seq_lt(tools[b].id@, tools[c].id@) {
            lemma_seq_lt_trans(tools[a].id@, tools[b].id@, tools[c].id@);
        }
    }
}

fn before_exec(
    totals: &Vec<Option<i128>>,
    ids: &Vec<Vec<char>>,
    a: usize,
    b: usize,
    Ghost(tools): Ghost<Seq<Descriptor>>,
) -> (r: bool)
    requires
        a < totals@.len(),
        b < totals@.len(),
        totals@.len() == ids@.len(),
        ids@.len() == tools.len(),
        forall|i: int| 0 <= i < ids@.len() ==> #[trigger] ids@[i]@ == tools[i].id@,
        totals@[a as int] is Some,
        totals@[b as int] is Some,
    ensures
        r == key_before(tools, widen(totals@), a as int, b as int),
{
    let ta = match totals[a] {
        Some(t) => t,
        None => 0,
    };
    let tb = match totals[b] {
        Some(t) => t,
        None => 0,
    };
    if ta != tb {
        ta > tb
    } else if chars_lt(&ids[a], &ids[b]) {
        true
    } else {
        chars_eq(&ids[a], &ids[b]) && a < b
    }
}

/// The tools that have a total, best first: descending total, then
/// ascending id, then registration order.
pub fn rank(tools: &[Descriptor], totals: &Vec<Option<i128>>) -> (order: Vec<usize>)
    requires
        totals@.len() == tools@.len(),
    ensures
        is_ranking(tools@, widen(totals@), order@),
{
    let mut ids: Vec<Vec<char>> = Vec::new();
    let mut i: usize = 0;
    while i < tools.len()
        invariant
            i <= tools@.len(),
            ids@.len() == i,
            forall|q: int| 0 <= q < i ==> #[trigger] ids@[q]@ == tools@[q].id@,
        decreases tools.len() - i,
    {
        ids.push(chars_of(tools[i].id.as_str()));
        i += 1;
    }
    let mut order: Vec<usize> = Vec::new();
    let mut i: usize = 0;
    while i < tools.len()
        invariant
            i <= tools@.len(),
            totals@.len() == tools@.len(),
            ids@.len() == tools@.len(),
            forall|q: int| 0 <= q < ids@.len() ==> #[trigger] ids@[q]@ == tools@[q].id@,
            forall|k: int| 0 <= k < order@.len() ==> #[trigger] order@[k] < i && totals@[order@[k] as int] is Some,
            forall|j: int| 0 <= j < i ==> (#[trigger] totals@[j] is Some <==> exists|k: int|
                0 <= k < order@.len() && order@[k] == j),
            forall|a: int, b: int| 0 <= a < b < order@.len() ==> key_before(tools@, widen(totals@), #[trigger] order@[a] as int, #[trigger] order@[b] as int),
        decreases tools.len() - i,
    {
        if totals[i].is_some() {
            let mut p: usize = 0;
            while p < order.len() && !before_exec(totals, &ids, i, order[p], Ghost(tools@))
                invariant
                    p <= order@.len(),
                    i < tools@.len(),
                    totals@.len() == tools@.len(),
                    ids@.len() == tools@.len(),
                    totals@[i as int] is Some,
                    forall|q: int| 0 <= q < ids@.len() ==> #[trigger] ids@[q]@ == tools@[q].id@,
                    forall|k: int| 0 <= k < order@.len() ==> #[trigger] order@[k] < i && totals@[order@[k] as int] is Some,
                    forall|k: int| 0 <= k < p ==> !key_before(tools@, widen(totals@), i as int, #[trigger] order@[k] as int),
                decreases order@.len() - p,
            {
                p += 1;
            }
            let ghost old_order = order@;
            proof {
                assert forall|k: int| 0 <= k < p implies key_before(tools@, widen(totals@), #[trigger] old_order[k] as int, i as int) by {
                    lemma_key_order(tools@, widen(totals@), old_order[k] as int, i as int, 0);
                }
                assert forall|k: int| p <= k < old_order.len() implies key_before(tools@, widen(totals@), i as int, #[trigger] old_order[k] as int) by {
                    if k > p {
                        lemma_key_order(tools@, widen(totals@), i as int, old_order[p as int] as int, old_order[k] as int);
                    }
                }
            }
            order.insert(p, i);
            proof {
                assert forall|a: int, b: int| 0 <= a < b < order@.len() implies key_before(tools@, widen(totals@), #[trigger] order@[a] as int, #[trigger] order@[b] as int) by {
                    if a < p && b == p {
                    } else if a < p && b > p {
                        assert(order@[b] == old_order[b - 1]);
                    } else if a == p {
                        assert(order@[b] == old_order[b - 1]);
                    } else if a > p {
                        assert(order@[a] == old_order[a - 1]);
                        assert(order@[b] == old_order[b - 1]);
                    } else {
                    }
                }
                assert forall|j: int| 0 <= j < i + 1 implies (#[trigger] totals@[j] is Some <==> exists|k: int|
                    0 <= k < order@.len() && order@[k] == j) by {
                    if j < i {
                        if totals@[j] is Some {
                            let k = choose|k: int| 0 <= k < old_order.len() && old_order[k] == j;
                            if k < p {
                                assert(order@[k] == j);
                            } else {
                                assert(order@[k + 1] == j);
                            }
                        } else {
                            if exists|k: int| 0 <= k < order@.len() && order@[k] == j {
                                let k = choose|k: int| 0 <= k < order@.len() && order@[k] == j;
                                if k < p {
                                    assert(old_order[k] == j);
                                } else if k > p {
                                    assert(old_order[k - 1] == j);
                                }
                            }
                        }
                    } else {
                        assert(order@[p as int] == i);
                    }
                }
            }
        } else {
            proof {
                assert forall|j: int| 0 <= j < i + 1 implies (#[trigger] totals@[j] is Some <==> exists|k: int|
                    0 <= k < order@.len() && order@[k] == j) by {
                    if j == i {
                        if exists|k: int| 0 <= k < order@.len() && order@[k] == j {
                            let k = choose|k: int| 0 <= k < order@.len() && order@[k] == j;
                            assert(order@[k] < i);
                        }
                    }
                }
            }
        }
        i += 1;
    }
    order
}

// ---------------------------------------------------------------------------
// The registry

/// Why a descriptor was rejected at registration.
#[derive(Debug, Clone, PartialEq, Eq)]
pub enum RegistryError {
    /// A tool with this id is already registered.
    DuplicateId(String),
    /// The descriptor failed validation.
    Invalid { id: String, errors: Vec<DescriptorError> },
}

impl RegistryError {
    /// The error's display text.
    pub fn message(&self) -> (m: String)
        ensures
            self matches RegistryError::DuplicateId(id) ==> m@ == "duplicate tool id: "@ + id@,
            self matches RegistryError::Invalid { id, errors } ==> m@ == "invalid descriptor "@ + id@
                + " ("@ + dec_nat(errors@.len()) + " problems)"@,
    {
        let mut m = String::new();
        match self {
            RegistryError::DuplicateId(id) => {
                push_str(&mut m, "duplicate tool id: ");
                push_str(&mut m, id.as_str());
            },
            RegistryError::Invalid { id, errors } => {
                push_str(&mut m, "invalid descriptor ");
                push_str(&mut m, id.as_str());
                push_str(&mut m, " (");
                let n = usize_to_string(errors.len());
                push_str(&mut m, n.as_str());
                push_str(&mut m, " problems)");
            },
        }
        m
    }
}

/// Some registered tool has the id `id`.
pub open spec fn has_id(tools: Seq<Descriptor>, id: Seq<char>) -> bool {
    exists|i: int| 0 <= i < tools.len() && #[trigger] tools[i].id@ == id
}

/// The registered tool with the id `id` (meaningful when there is one).
pub open spec fn tool_named(tools: Seq<Descriptor>, id: Seq<char>) -> Descriptor {
    tools[choose|i: int| 0 <= i < tools.len() && #[trigger] tools[i].id@ == id]
}

/// No two tools share an id, and every tool is a valid descriptor.
pub open spec fn registry_wf(tools: Seq<Descriptor>) -> bool {
    &&& forall|i: int, j: int| 0 <= i < j < tools.len() ==> #[trigger] tools[i].id@ != #[trigger] tools[j].id@
    &&& forall|i: int| 0 <= i < tools.len() ==> descriptor_errors(#[trigger] tools[i]).len() == 0
}

/// An ordered set of tool descriptors, in registration order.
#[derive(Debug)]
pub struct Registry {
    tools: Vec<Descriptor>,
}

impl View for Registry {
    type V = Seq<Descriptor>;

    closed spec fn view(&self) -> Seq<Descriptor> {
        self.tools@
    }
}

/// The search totals of every tool for `terms`.
pub open spec fn search_totals(tools: Seq<Descriptor>, terms: Seq<Seq<char>>) -> Seq<Option<int>> {
    Seq::new(tools.len(), |i: int| tool_score(tools[i], terms))
}

/// A total of zero for each of `n` tools: ranking by these orders by id.
pub open spec fn zero_totals(n: nat) -> Seq<Option<int>> {
    Seq::new(n, |i: int| Some(0int))
}

/// The tools, as values, that a list of references points at.
pub open spec fn derefs(r: Seq<&Descriptor>) -> Seq<Descriptor> {
    r.map_values(|d: &Descriptor| *d)
}

impl Registry {
    #[verifier::type_invariant]
    closed spec fn well_formed(self) -> bool {
        registry_wf(self.tools@)
    }

    /// An empty registry.
    pub fn new() -> (r: Self)
        ensures
            r@ == Seq::<Descriptor>::empty(),
    {
        Registry { tools: Vec::new() }
    }

    /// Validates `descriptor` and adds it. A duplicate id is rejected first,
    /// then a descriptor with problems; either way the registry is unchanged.
    pub fn register(&mut self, descriptor: Descriptor) -> (r: Result<(), RegistryError>)
        ensures
            has_id(old(self)@, descriptor.id@) ==> final(self)@ == old(self)@ && (r matches Err(
                RegistryError::DuplicateId(id),
            ) && id@ == descriptor.id@),
            !has_id(old(self)@, descriptor.id@) && descriptor_errors(descriptor).len() > 0
                ==> final(self)@ == old(self)@ && (r matches Err(RegistryError::Invalid { id, errors })
                && id@ == descriptor.id@ && descriptor_error_views(errors@) == descriptor_errors(
                descriptor,
            )),
            !has_id(old(self)@, descriptor.id@) && descriptor_errors(descriptor).len() == 0
                ==> final(self)@ == old(self)@.push(descriptor) && r is Ok,
    {
        proof {
            use_type_invariant(&*self);
        }
        let id = descriptor.id.as_str().to_owned();
        if self.get(id.as_str()).is_some() {
            return Err(RegistryError::DuplicateId(id));
        }
        match validate_descriptor(&descriptor) {
            Err(errors) => {
                return Err(RegistryError::Invalid { id, errors });
            },
            Ok(()) => {},
        }
        let ghost old_tools = self.tools@;
        let mut tools: Vec<Descriptor> = Vec::new();
        std::mem::swap(&mut tools, &mut self.tools);
        tools.push(descriptor);
        proof {
            assert forall|i: int, j: int| 0 <= i < j < tools@.len() implies #[trigger] tools@[i].id@ != #[trigger] tools@[j].id@ by {
                if j == old_tools.len() {
                    assert(tools@[i] == old_tools[i]);
                } else {
                    assert(tools@[i] == old_tools[i]);
                    assert(tools@[j] == old_tools[j]);
                }
            }
            assert forall|i: int| 0 <= i < tools@.len() implies descriptor_errors(#[trigger] tools@[i]).len() == 0 by {
                if i < old_tools.len() {
                    assert(tools@[i] == old_tools[i]);
                }
            }
        }
        self.tools = tools;
        Ok(())
    }

    /// Number of registered tools.
    pub fn len(&self) -> (n: usize)
        ensures
            n == self@.len(),
    {
        self.tools.len()
    }

    /// Whether no tool is registered.
    pub fn is_empty(&self) -> (b: bool)
        ensures
            b == (self@.len() == 0),
    {
        self.tools.len() == 0
    }

    /// Every tool, in registration order; ids are unique and every tool is
    /// a valid descriptor.
    pub fn list(&self) -> (r: &[Descriptor])
        ensures
            r@ == self@,
            registry_wf(self@),
    {
        proof {
            use_type_invariant(self);
        }
        self.tools.as_slice()
    }

    /// The tool with id `id`.
    pub fn get(&self, id: &str) -> (r: Option<&Descriptor>)
        ensures
            r matches Some(d) ==> d.id@ == id@ && exists|i: int| 0 <= i < self@.len() && self@[i] == *d,
            r matches Some(d) ==> has_id(self@, id@) && *d == tool_named(self@, id@),
            r is None ==> !has_id(self@, id@),
    {
        proof {
            use_type_invariant(self);
        }
        let mut i: usize = 0;
        while i < self.tools.len()
            invariant
                i <= self@.len(),
                registry_wf(self@),
                forall|q: int| 0 <= q < i ==> #[trigger] self@[q].id@ != id@,
            decreases self.tools.len() - i,
        {
            if str_eq(self.tools[i].id.as_str(), id) {
                proof {
                    let j = choose|j: int| 0 <= j < self@.len() && #[trigger] self@[j].id@ == id@;
                    assert(self@[i as int].id@ == id@);
                    law_ids_stay_unique(self@, i as int, j);
                }
                return Some(&self.tools[i]);
            }
            i += 1;
        }
        None
    }

    /// Fuzzy search over each tool's title and keywords. A blank query gives
    /// every tool in registration order. Otherwise the query's
    /// whitespace-separated terms must each fuzzy-match the title or a
    /// keyword; a tool's score is the sum over the terms of the best match,
    /// and the matches come best score first, then by ascending id.
    pub fn search(&self, query: &str) -> (r: Vec<&Descriptor>)
        ensures
            trim(query@).len() == 0 ==> derefs(r@) == self@,
            trim(query@).len() > 0 ==> exists|order: Seq<usize>|
                is_ranking(self@, search_totals(self@, words(trim(query@))), order) && derefs(r@)
                    == order.map_values(|i: usize| self@[i as int]),
    {
        let qc = chars_of(query);
        let q = trim_chars(&qc);
        if q.len() == 0 {
            let mut all: Vec<&Descriptor> = Vec::new();
            let mut i: usize = 0;
            while i < self.tools.len()
                invariant
                    i <= self@.len(),
                    derefs(all@) == self@.take(i as int),
                decreases self.tools.len() - i,
            {
                let ghost a0 = all@;
                all.push(&self.tools[i]);
                assert(all@ == a0.push(&self.tools@[i as int]));
                assert(derefs(all@) =~= derefs(a0).push(self@[i as int]));
                assert(derefs(all@) =~= self@.take(i + 1));
                i += 1;
            }
            assert(self@.take(i as int) =~= self@);
            return all;
        }
        let term_chars = split_whitespace_chars(&q);
        let ghost terms = words(q@);
        let mut terms_s: Vec<String> = Vec::new();
        let mut k: usize = 0;
        while k < term_chars.len()
            invariant
                k <= term_chars@.len(),
                terms_s@.len() == k,
                forall|j: int| 0 <= j < k ==> #[trigger] terms_s@[j]@ == term_chars@[j]@,
            decreases term_chars.len() - k,
        {
            terms_s.push(string_from(&term_chars[k]));
            k += 1;
        }
        assert(views(terms_s@) =~= terms);
        let mut totals: Vec<Option<i128>> = Vec::new();
        let mut i: usize = 0;
        while i < self.tools.len()
            invariant
                i <= self@.len(),
                views(terms_s@) == terms,
                totals@.len() == i,
                forall|j: int| 0 <= j < i ==> #[trigger] widen(totals@)[j] == tool_score(self@[j], terms),
            decreases self.tools.len() - i,
        {
            let table = self.score_table_of(i, &terms_s);
            let t = combine_scores(&table);
            let ghost t0 = totals@;
            totals.push(t);
            proof {
                assert(widen(totals@)[i as int] == tool_score(self@[i as int], terms));
                assert forall|j: int| 0 <= j < i implies #[trigger] widen(totals@)[j] == tool_score(self@[j], terms) by {
                    assert(totals@[j] == t0[j]);
                    assert(widen(t0)[j] == tool_score(self@[j], terms));
                }
            }
            i += 1;
        }
        assert(widen(totals@) =~= search_totals(self@, terms));
        let order = rank(self.tools.as_slice(), &totals);
        let mut out: Vec<&Descriptor> = Vec::new();
        let mut k: usize = 0;
        while k < order.len()
            invariant
                k <= order@.len(),
                is_ranking(self@, widen(totals@), order@),
                derefs(out@) == order@.take(k as int).map_values(|i: usize| self@[i as int]),
            decreases order.len() - k,
        {
            assert(order@[k as int] < self@.len());
            let ghost o0 = out@;
            out.push(&self.tools[order[k]]);
            assert(out@ == o0.push(&self.tools@[order@[k as int] as int]));
            assert(derefs(out@) =~= derefs(o0).push(self@[order@[k as int] as int]));
            assert(order@.take(k + 1).map_values(|i: usize| self@[i as int]) =~= order@.take(k as int).map_values(|i: usize| self@[i as int]).push(self@[order@[k as int] as int]));
            assert(derefs(out@) =~= order@.take(k + 1).map_values(|i: usize| self@[i as int]));
            k += 1;
        }
        assert(order@.take(k as int) =~= order@);
        out
    }

    /// The score table of tool `i`: row `k` holds term `k`'s scores against
    /// the title and then each keyword.
    fn score_table_of(&self, i: usize, terms: &Vec<String>) -> (table: Vec<Vec<Option<i64>>>)
        requires
            i < self@.len(),
        ensures
            table@.map_values(|row: Vec<Option<i64>>| row@) == score_table(self@[i as int], views(terms@)),
    {
        let d = &self.tools[i];
        let ghost hs = haystacks(*d);
        let mut table: Vec<Vec<Option<i64>>> = Vec::new();
        let mut k: usize = 0;
        while k < terms.len()
            invariant
                k <= terms@.len(),
                hs == haystacks(*d),
                table@.len() == k,
                forall|j: int| 0 <= j < k ==> #[trigger] table@[j]@ == Seq::new(
                    hs.len(),
                    |h: int| skim_score(hs[h], terms@[j]@),
                ),
            decreases terms.len() - k,
        {
            let mut row: Vec<Option<i64>> = Vec::new();
            row.push(fuzzy_score(d.title.as_str(), terms[k].as_str()));
            let mut h: usize = 0;
            while h < d.keywords.len()
                invariant
                    h <= d.keywords@.len(),
                    k < terms@.len(),
                    hs == haystacks(*d),
                    row@.len() == h + 1,
                    forall|x: int| 0 <= x < h + 1 ==> #[trigger] row@[x] == skim_score(hs[x], terms@[k as int]@),
                decreases d.keywords.len() - h,
            {
                row.push(fuzzy_score(d.keywords[h].as_str(), terms[k].as_str()));
                assert(hs[h + 1] == d.keywords@[h as int]@);
                h += 1;
            }
            assert(row@ =~= Seq::new(hs.len(), |x: int| skim_score(hs[x], terms@[k as int]@)));
            table.push(row);
            k += 1;
        }
        assert(table@.map_values(|row: Vec<Option<i64>>| row@) =~= score_table(*d, views(terms@)));
        table
    }

    /// Every tool, ordered by id (the order of the registry's snapshot).
    pub fn sorted_by_id(&self) -> (r: Vec<&Descriptor>)
        ensures
            exists|order: Seq<usize>|
                is_ranking(self@, zero_totals(self@.len()), order) && derefs(r@) == listed(self@, order),
    {
        let mut totals: Vec<Option<i128>> = Vec::new();
        let mut i: usize = 0;
        while i < self.tools.len()
            invariant
                i <= self@.len(),
                totals@.len() == i,
                forall|j: int| 0 <= j < i ==> #[trigger] totals@[j] == Some(0i128),
            decreases self.tools.len() - i,
        {
            totals.push(Some(0));
            i += 1;
        }
        assert(widen(totals@) =~= zero_totals(self@.len()));
        let order = rank(self.tools.as_slice(), &totals);
        let mut out: Vec<&Descriptor> = Vec::new();
        let mut k: usize = 0;
        while k < order.len()
            invariant
                k <= order@.len(),
                is_ranking(self@, widen(totals@), order@),
                derefs(out@) == order@.take(k as int).map_values(|i: usize| self@[i as int]),
            decreases order.len() - k,
        {
            assert(order@[k as int] < self@.len());
            let ghost o0 = out@;
            out.push(&self.tools[order[k]]);
            assert(out@ == o0.push(&self.tools@[order@[k as int] as int]));
            assert(derefs(out@) =~= derefs(o0).push(self@[order@[k as int] as int]));
            assert(order@.take(k + 1).map_values(|i: usize| self@[i as int]) =~= order@.take(k as int).map_values(|i: usize| self@[i as int]).push(self@[order@[k as int] as int]));
            k += 1;
        }
        assert(order@.take(k as int) =~= order@);
        assert(derefs(out@) == listed(self@, order@));
        out
    }

    /// The tools whose requirements `view` meets, in registration order.
    pub fn available<'a>(&'a self, view: &AvailabilityView) -> (r: Vec<&'a Descriptor>)
        ensures
            derefs(r@) == self@.filter(|d: Descriptor| requires_met(*view, d.requires)),
    {
        let mut out: Vec<&'a Descriptor> = Vec::new();
        let mut i: usize = 0;
        while i < self.tools.len()
            invariant
                i <= self@.len(),
                derefs(out@) == self@.take(i as int).filter(|d: Descriptor| requires_met(*view, d.requires)),
            decreases self.tools.len() - i,
        {
            let met = first_unmet(view, &self.tools[i].requires).is_none();
            proof {
                assert(self@.take(i + 1).drop_last() =~= self@.take(i as int));
                reveal(Seq::filter);
            }
            if met {
                out.push(&self.tools[i]);
            }
            assert(derefs(out@) =~= self@.take(i + 1).filter(|d: Descriptor| requires_met(*view, d.requires)));
            i += 1;
        }
        assert(self@.take(i as int) =~= self@);
        out
    }
}

impl Default for Registry {
    fn default() -> (r: Self)
        ensures
            r@ == Seq::<Descriptor>::empty(),
    {
        Registry::new()
    }
}

/// What registration accepted is what a lookup of its id finds: in a
/// registry of unique ids, the only tool with the id of the tool registered
/// last is that tool.
pub proof fn law_lookup_finds_registered(before: Seq<Descriptor>, d: Descriptor, found: Descriptor)
    requires
        registry_wf(before.push(d)),
        before.push(d).contains(found),
        found.id@ == d.id@,
    ensures
        found == d,
{
    let all = before.push(d);
    let i = choose|i: int| 0 <= i < all.len() && all[i] == found;
    if i < before.len() {
        assert(all[i].id@ != all[all.len() - 1].id@);
    }
}

/// No two registered tools share an id: two positions holding the same id
/// are the same position.
pub proof fn law_ids_stay_unique(tools: Seq<Descriptor>, i: int, j: int)
    requires
        registry_wf(tools),
        0 <= i < tools.len(),
        0 <= j < tools.len(),
        tools[i].id@ == tools[j].id@,
    ensures
        i == j,
{
    if i < j {
        assert(tools[i].id@ != tools[j].id@);
    } else if j < i {
        assert(tools[j].id@ != tools[i].id@);
    }
}

/// A ranking lists its tools best first: every listed tool has a total no
/// smaller than the next one's, and equal totals are in id order.
pub proof fn law_ranking_is_ordered(
    tools: Seq<Descriptor>,
    totals: Seq<Option<int>>,
    order: Seq<usize>,
    a: int,
    b: int,
)
    requires
        is_ranking(tools, totals, order),
        0 <= a < b < order.len(),
    ensures
        totals[order[a] as int]->Some_0 >= totals[order[b] as int]->Some_0,
        totals[order[a] as int]->Some_0 == totals[order[b] as int]->Some_0 ==> !seq_lt(
            tools[order[b] as int].id@,
            tools[order[a] as int].id@,
        ),
{
    assert(key_before(tools, totals, order[a] as int, order[b] as int));
    lemma_seq_lt_total(tools[order[a] as int].id@, tools[order[b] as int].id@);
}

/// Tools in strictly increasing id order.
pub open spec fn strictly_by_id(s: Seq<Descriptor>) -> bool {
    forall|a: int, b: int| 0 <= a < b < s.len() ==> seq_lt(#[trigger] s[a].id@, #[trigger] s[b].id@)
}

/// The tools a ranking lists, in its order.
pub open spec fn listed(tools: Seq<Descriptor>, order: Seq<usize>) -> Seq<Descriptor> {
    order.map_values(|i: usize| tools[i as int])
}

/// Ranked with no scores, a registry's tools come out in strictly
/// increasing id order, each of them.
proof fn lemma_id_ranking_sorted(tools: Seq<Descriptor>, order: Seq<usize>)
    requires
        registry_wf(tools),
        is_ranking(tools, zero_totals(tools.len()), order),
    ensures
        strictly_by_id(listed(tools, order)),
        forall|x: Descriptor| listed(tools, order).contains(x) <==> tools.contains(x),
{
    let s = listed(tools, order);
    let z = zero_totals(tools.len());
    assert forall|a: int, b: int| 0 <= a < b < s.len() implies seq_lt(#[trigger] s[a].id@, #[trigger] s[b].id@) by {
        assert(key_before(tools, z, order[a] as int, order[b] as int));
        let (i, j) = (order[a] as int, order[b] as int);
        lemma_seq_lt_irrefl(tools[i].id@);
        if tools[i].id@ == tools[j].id@ {
            assert(i < j);
            assert(tools[i].id@ != tools[j].id@);
        }
    }
    assert forall|x: Descriptor| s.contains(x) implies tools.contains(x) by {
        let k = choose|k: int| 0 <= k < s.len() && s[k] == x;
        assert(tools[order[k] as int] == x);
    }
    assert forall|x: Descriptor| tools.contains(x) implies s.contains(x) by {
        let i = choose|i: int| 0 <= i < tools.len() && tools[i] == x;
        assert(z[i] is Some);
        let k = choose|k: int| 0 <= k < order.len() && order[k] == i;
        assert(s[k] == x);
    }
}

/// Two lists in strictly increasing id order that hold the same tools are
/// the same list.
proof fn lemma_sorted_lists_agree(s1: Seq<Descriptor>, s2: Seq<Descriptor>)
    requires
        strictly_by_id(s1),
        strictly_by_id(s2),
        forall|x: Descriptor| s1.contains(x) <==> s2.contains(x),
    ensures
        s1 == s2,
    decreases s1.len(),
{
    if s1.len() == 0 {
        if s2.len() > 0 {
            assert(s2.contains(s2[0]));
        }
        assert(s1 =~= s2);
    } else {
        assert(s1.contains(s1[0]));
        let m = choose|m: int| 0 <= m < s2.len() && s2[m] == s1[0];
        assert(s2.contains(s2[0]));
        let j = choose|j: int| 0 <= j < s1.len() && s1[j] == s2[0];
        if j > 0 && m > 0 {
            assert(seq_lt(s1[0].id@, s1[j].id@));
            assert(seq_lt(s2[0].id@, s2[m].id@));
            lemma_seq_lt_total(s1[0].id@, s2[0].id@);
        }
        assert(s1[0] == s2[0]);
        let (r1, r2) = (s1.drop_first(), s2.drop_first());
        assert forall|x: Descriptor| r1.contains(x) <==> r2.contains(x) by {
            if r1.contains(x) {
                let k = choose|k: int| 0 <= k < r1.len() && r1[k] == x;
                assert(s1[k + 1] == x);
                assert(seq_lt(s1[0].id@, s1[k + 1].id@));
                lemma_seq_lt_irrefl(x.id@);
                assert(s2.contains(x));
                let q = choose|q: int| 0 <= q < s2.len() && s2[q] == x;
                assert(q != 0);
                assert(r2[q - 1] == x);
            }
            if r2.contains(x) {
                let k = choose|k: int| 0 <= k < r2.len() && r2[k] == x;
                assert(s2[k + 1] == x);
                assert(seq_lt(s2[0].id@, s2[k + 1].id@));
                lemma_seq_lt_irrefl(x.id@);
                assert(s1.contains(x));
                let q = choose|q: int| 0 <= q < s1.len() && s1[q] == x;
                assert(q != 0);
                assert(r1[q - 1] == x);
            }
        }
        assert(strictly_by_id(r1)) by {
            assert forall|a: int, b: int| 0 <= a < b < r1.len() implies seq_lt(#[trigger] r1[a].id@, #[trigger] r1[b].id@) by {
                assert(r1[a] == s1[a + 1] && r1[b] == s1[b + 1]);
            }
        }
        assert(strictly_by_id(r2)) by {
            assert forall|a: int, b: int| 0 <= a < b < r2.len() implies seq_lt(#[trigger] r2[a].id@, #[trigger] r2[b].id@) by {
                assert(r2[a] == s2[a + 1] && r2[b] == s2[b + 1]);
            }
        }
        lemma_sorted_lists_agree(r1, r2);
        assert(s1 =~= seq![s1[0]] + r1);
        assert(s2 =~= seq![s2[0]] + r2);
    }
}

/// The snapshot does not depend on registration order: two registries that
/// hold the same tools list them, in id order, identically.
pub proof fn law_snapshot_ignores_registration_order(
    t1: Seq<Descriptor>,
    t2: Seq<Descriptor>,
    o1: Seq<usize>,
    o2: Seq<usize>,
)
    requires
        registry_wf(t1),
        registry_wf(t2),
        forall|x: Descriptor| t1.contains(x) <==> t2.contains(x),
        is_ranking(t1, zero_totals(t1.len()), o1),
        is_ranking(t2, zero_totals(t2.len()), o2),
    ensures
        listed(t1, o1) == listed(t2, o2),
{
    lemma_id_ranking_sorted(t1, o1);
    lemma_id_ranking_sorted(t2, o2);
    assert forall|x: Descriptor| listed(t1, o1).contains(x) <==> listed(t2, o2).contains(x) by {
        assert(listed(t1, o1).contains(x) <==> t1.contains(x));
        assert(listed(t2, o2).contains(x) <==> t2.contains(x));
    }
    lemma_sorted_lists_agree(listed(t1, o1), listed(t2, o2));
}

proof fn lemma_best_of_some(scores: Seq<Option<i64>>)
    ensures
        best_of(scores) is Some <==> exists|h: int| 0 <= h < scores.len() && #[trigger] scores[h] is Some,
    decreases scores.len(),
{
    if scores.len() > 0 {
        let init = scores.drop_last();
        lemma_best_of_some(init);
        if exists|h: int| 0 <= h < init.len() && #[trigger] init[h] is Some {
            let h = choose|h: int| 0 <= h < init.len() && #[trigger] init[h] is Some;
            assert(scores[h] == init[h]);
        }
        if exists|h: int| 0 <= h < scores.len() && #[trigger] scores[h] is Some {
            let h = choose|h: int| 0 <= h < scores.len() && #[trigger] scores[h] is Some;
            if h < scores.len() - 1 {
                assert(init[h] == scores[h]);
            }
        }
    }
}

proof fn lemma_total_of_some(bests: Seq<Option<i64>>)
    ensures
        total_of(bests) is Some <==> forall|k: int| 0 <= k < bests.len() ==> #[trigger] bests[k] is Some,
    decreases bests.len(),
{
    if bests.len() > 0 {
        let init = bests.drop_last();
        lemma_total_of_some(init);
        if forall|k: int| 0 <= k < bests.len() ==> #[trigger] bests[k] is Some {
            assert forall|k: int| 0 <= k < init.len() implies #[trigger] init[k] is Some by {
                assert(bests[k] is Some);
            }
            assert(bests[bests.len() - 1] is Some);
        }
        if total_of(bests) is Some {
            assert forall|k: int| 0 <= k < bests.len() implies #[trigger] bests[k] is Some by {
                if k < bests.len() - 1 {
                    assert(init[k] == bests[k]);
                }
            }
        }
    }
}

/// A term matches a tool when it fuzzy-matches its title or a keyword.
pub open spec fn term_matches(d: Descriptor, term: Seq<char>) -> bool {
    exists|h: int| 0 <= h < haystacks(d).len() && #[trigger] skim_score(haystacks(d)[h], term) is Some
}

/// A search ranking lists each tool at most once, and lists a tool exactly
/// when every term of the query matches its title or a keyword.
pub proof fn law_search_lists_the_tools_every_term_matches(
    tools: Seq<Descriptor>,
    terms: Seq<Seq<char>>,
    order: Seq<usize>,
    i: int,
)
    requires
        is_ranking(tools, search_totals(tools, terms), order),
        0 <= i < tools.len(),
    ensures
        (exists|k: int| 0 <= k < order.len() && order[k] == i) <==> forall|t: int|
            0 <= t < terms.len() ==> #[trigger] term_matches(tools[i], terms[t]),
        forall|a: int, b: int| 0 <= a < b < order.len() ==> #[trigger] order[a] != #[trigger] order[b],
{
    let totals = search_totals(tools, terms);
    let d = tools[i];
    let table = score_table(d, terms);
    let bests = Seq::new(table.len(), |k: int| best_of(table[k]));
    assert(totals[i] == total_of(bests));
    lemma_total_of_some(bests);
    assert forall|t: int| 0 <= t < terms.len() implies (bests[t] is Some <==> #[trigger] term_matches(
        d,
        terms[t],
    )) by {
        lemma_best_of_some(table[t]);
        if term_matches(d, terms[t]) {
            let h = choose|h: int|
                0 <= h < haystacks(d).len() && #[trigger] skim_score(haystacks(d)[h], terms[t]) is Some;
            assert(table[t][h] is Some);
        }
        if bests[t] is Some {
            let h = choose|h: int| 0 <= h < table[t].len() && #[trigger] table[t][h] is Some;
            assert(skim_score(haystacks(d)[h], terms[t]) is Some);
        }
    }
    if forall|t: int| 0 <= t < terms.len() ==> #[trigger] term_matches(d, terms[t]) {
        assert forall|k: int| 0 <= k < bests.len() implies #[trigger] bests[k] is Some by {
            assert(term_matches(d, terms[k]));
        }
    }
    if total_of(bests) is Some {
        assert forall|t: int| 0 <= t < terms.len() implies #[trigger] term_matches(d, terms[t]) by {
            assert(bests[t] is Some);
        }
    }
    assert(totals[i] is Some <==> exists|k: int| 0 <= k < order.len() && order[k] == i);
    assert forall|a: int, b: int| 0 <= a < b < order.len() implies #[trigger] order[a] != #[trigger] order[b] by {
        assert(key_before(tools, totals, order[a] as int, order[b] as int));
        lemma_key_order(tools, totals, order[a] as int, order[a] as int, order[a] as int);
    }
}

/// A term's contribution to a tool's score is its best match: the largest
/// of its scores over the title and keywords, and one of them; a term that
/// matches none of them contributes nothing.
pub proof fn law_best_is_the_largest_score(scores: Seq<Option<i64>>)
    ensures
        best_of(scores) is Some ==> exists|h: int| 0 <= h < scores.len() && scores[h] == best_of(scores),
        best_of(scores) is Some ==> forall|h: int|
            0 <= h < scores.len() && #[trigger] scores[h] is Some ==> scores[h]->Some_0 <= best_of(
                scores,
            )->Some_0,
        best_of(scores) is None ==> forall|h: int| 0 <= h < scores.len() ==> #[trigger] scores[h] is None,
    decreases scores.len(),
{
    if scores.len() > 0 {
        let init = scores.drop_last();
        law_best_is_the_largest_score(init);
        assert forall|h: int| 0 <= h < init.len() implies init[h] == scores[h] by {}
        if best_of(init) is Some {
            let h = choose|h: int| 0 <= h < init.len() && init[h] == best_of(init);
            assert(scores[h] == init[h]);
        }
        assert(scores[scores.len() - 1] == scores.last());
    }
}

} // verus!

//! What the desktop shell shows about the tools: the tool list (all of
//! them, or a search's matches) with each tool's availability, and the
//! capability report of binaries, portals and tools.

use crate::args::{arg_spec_views, copy_arg_specs, map_insert, ArgMap, ArgValue, ValueView};
use crate::availability::{
    binaries_of, binary_requirements, entry_views, is_available, pairs_map, unique_names, unmet,
    AvailabilityView,
};
use crate::descriptor::{ArgSpec, Category, Descriptor};
use crate::outcome::ToolOutcome;
use crate::registry::{derefs, is_ranking, search_totals, Registry};
use crate::shell::RunId;
use crate::text::{chars_of, trim, trim_chars, views, words};
use vstd::prelude::*;

verus! {

/// One tool's availability.
#[derive(Debug, Clone)]
pub struct ToolAvailability {
    pub id: String,
    pub title: String,
    pub available: bool,
    pub reason: Option<String>,
}

/// The binaries the tools need (by name, each once, in name order, with
/// whether it was found), the portal versions, and each tool's
/// availability.
#[derive(Debug)]
pub struct CapabilitiesReport {
    pub binaries: Vec<(String, bool)>,
    pub portals: Vec<(String, u32)>,
    pub tools: Vec<ToolAvailability>,
}

/// A tool as the palette lists it.
#[derive(Debug, Clone)]
pub struct ToolSummary {
    pub id: String,
    pub title: String,
    pub keywords: Vec<String>,
    pub category: String,
    pub args: Vec<ArgSpec>,
    pub available: bool,
    pub reason: Option<String>,
}

/// The result of a run started from the shell.
#[derive(Debug, Clone)]
pub struct RunResult {
    pub run_id: RunId,
    pub outcome: ToolOutcome,
}

/// The name of a category.
pub open spec fn category_name(c: Category) -> Seq<char> {
    match c {
        Category::Capture => "Capture"@,
        Category::Convert => "Convert"@,
        Category::Desktop => "Desktop"@,
    }
}

fn category_name_exec(c: &Category) -> (s: String)
    ensures
        s@ == category_name(*c),
{
    match c {
        Category::Capture => "Capture".to_owned(),
        Category::Convert => "Convert".to_owned(),
        Category::Desktop => "Desktop".to_owned(),
    }
}

/// Why a tool is unavailable, when it is.
pub open spec fn unavailable_reason(view: AvailabilityView, d: Descriptor) -> Option<Seq<char>> {
    match unmet(view.binaries@, view.portals@, d.requires) {
        Some((reason, _)) => Some(reason),
        None => None,
    }
}

/// The text of an optional string.
pub open spec fn opt_string(o: Option<String>) -> Option<Seq<char>> {
    match o {
        Some(s) => Some(s@),
        None => None,
    }
}

/// The trimmed query; empty when there is none.
pub open spec fn query_text(query: Option<&str>) -> Seq<char> {
    match query {
        Some(q) => trim(q@),
        None => seq![],
    }
}

/// A summary describes `d` as seen against `view`.
pub open spec fn summarizes(s: ToolSummary, d: Descriptor, view: AvailabilityView) -> bool {
    &&& s.id@ == d.id@
    &&& s.title@ == d.title@
    &&& views(s.keywords@) == views(d.keywords@)
    &&& s.category@ == category_name(d.category)
    &&& arg_spec_views(s.args@) == arg_spec_views(d.args@)
    &&& s.available == (unavailable_reason(view, d) is None)
    &&& opt_string(s.reason) == unavailable_reason(view, d)
}

fn summary_of(d: &Descriptor, view: &AvailabilityView) -> (s: ToolSummary)
    ensures
        summarizes(s, *d, *view),
{
    let (available, reason) = is_available(view, &d.requires);
    let mut keywords: Vec<String> = Vec::new();
    let mut i: usize = 0;
    while i < d.keywords.len()
        invariant
            i <= d.keywords@.len(),
            keywords@.len() == i,
            forall|q: int| 0 <= q < i ==> #[trigger] keywords@[q]@ == d.keywords@[q]@,
        decreases d.keywords.len() - i,
    {
        keywords.push(d.keywords[i].clone());
        i += 1;
    }
    assert(views(keywords@) =~= views(d.keywords@));
    ToolSummary {
        id: d.id.as_str().to_owned(),
        title: d.title.clone(),
        keywords,
        category: category_name_exec(&d.category),
        args: copy_arg_specs(&d.args),
        available,
        reason,
    }
}

/// The palette's tool list: a search's matches when the query is not
/// blank, otherwise every tool in registration order; each with its
/// availability.
pub fn list_tools(registry: &Registry, view: &AvailabilityView, query: Option<&str>) -> (r: Vec<
    ToolSummary,
>)
    ensures
        query_text(query).len() > 0 ==> exists|order: Seq<usize>|
            is_ranking(registry@, search_totals(registry@, words(query_text(query))), order)
                && r@.len() == order.len() && forall|k: int|
                0 <= k < order.len() ==> #[trigger] summarizes(r@[k], registry@[order[k] as int], *view),
        query_text(query).len() == 0 ==> r@.len() == registry@.len() && forall|k: int|
            0 <= k < registry@.len() ==> #[trigger] summarizes(r@[k], registry@[k], *view),
{
    let blank = match query {
        Some(q) => {
            let c = chars_of(q);
            let t = trim_chars(&c);
            assert(query_text(query) == t@);
            t.len() == 0
        },
        None => true,
    };
    let tools: Vec<&Descriptor> = match query {
        Some(q) => {
            if blank {
                let list = registry.list();
                let mut all: Vec<&Descriptor> = Vec::new();
                let mut i: usize = 0;
                while i < list.len()
                    invariant
                        i <= list@.len(),
                        list@ == registry@,
                        derefs(all@) == registry@.take(i as int),
                    decreases list.len() - i,
                {
                    let ghost a0 = all@;
                    all.push(&list[i]);
                    assert(derefs(all@) =~= derefs(a0).push(registry@[i as int]));
                    assert(derefs(all@) =~= registry@.take(i + 1));
                    i += 1;
                }
                assert(registry@.take(i as int) =~= registry@);
                all
            } else {
                let res = registry.search(q);
                assert(query_text(query).len() > 0);
                assert(exists|order: Seq<usize>|
                    is_ranking(registry@, search_totals(registry@, words(query_text(query))), order)
                        && derefs(res@) == order.map_values(|i: usize| registry@[i as int]));
                res
            }
        },
        None => {
            let list = registry.list();
            let mut all: Vec<&Descriptor> = Vec::new();
            let mut i: usize = 0;
            while i < list.len()
                invariant
                    i <= list@.len(),
                    list@ == registry@,
                    derefs(all@) == registry@.take(i as int),
                decreases list.len() - i,
            {
                let ghost a0 = all@;
                all.push(&list[i]);
                assert(derefs(all@) =~= derefs(a0).push(registry@[i as int]));
                assert(derefs(all@) =~= registry@.take(i + 1));
                i += 1;
            }
            assert(registry@.take(i as int) =~= registry@);
            all
        },
    };
    let mut out: Vec<ToolSummary> = Vec::new();
    let mut k: usize = 0;
    while k < tools.len()
        invariant
            k <= tools@.len(),
            out@.len() == k,
            forall|q: int| 0 <= q < k ==> #[trigger] summarizes(out@[q], *tools@[q], *view),
        decreases tools.len() - k,
    {
        out.push(summary_of(tools[k], view));
        k += 1;
    }
    proof {
        assert forall|q: int| 0 <= q < tools@.len() implies derefs(tools@)[q] == *tools@[q] by {}
        if query_text(query).len() > 0 {
            let order = choose|order: Seq<usize>|
                is_ranking(registry@, search_totals(registry@, words(query_text(query))), order)
                    && derefs(tools@) == order.map_values(|i: usize| registry@[i as int]);
            assert forall|k: int| 0 <= k < order.len() implies #[trigger] summarizes(out@[k], registry@[order[k] as int], *view) by {
                assert(derefs(tools@)[k] == registry@[order[k] as int]);
            }
        } else {
            assert forall|k: int| 0 <= k < registry@.len() implies #[trigger] summarizes(out@[k], registry@[k], *view) by {
                assert(derefs(tools@)[k] == registry@[k]);
            }
        }
    }
    out
}

/// The binaries the tools need, by name in name order, each with whether
/// `view` has it.
pub open spec fn needed_binaries(tools: Seq<Descriptor>, bins: Set<Seq<char>>) -> Seq<(Seq<char>, ValueView)>
    decreases tools.len(),
{
    if tools.len() == 0 {
        seq![]
    } else {
        record_binaries(needed_binaries(tools.drop_last(), bins), binaries_of(tools.last().requires), bins)
    }
}

/// `m` with each of `names` recorded as found or not.
pub open spec fn record_binaries(m: Seq<(Seq<char>, ValueView)>, names: Seq<Seq<char>>, bins: Set<Seq<char>>) -> Seq<
    (Seq<char>, ValueView),
>
    decreases names.len(),
{
    if names.len() == 0 {
        m
    } else {
        map_insert(
            record_binaries(m, names.drop_last(), bins),
            names.last(),
            ValueView::Bool(bins.contains(names.last())),
        )
    }
}

/// The entries of a report's binaries as (name, found) pairs.
pub open spec fn binary_entries(m: Seq<(Seq<char>, ValueView)>) -> Seq<(Seq<char>, bool)> {
    Seq::new(
        m.len(),
        |i: int|
            (
                m[i].0,
                match m[i].1 {
                    ValueView::Bool(b) => b,
                    _ => false,
                },
            ),
    )
}

/// The capability report of the registered tools against `view`.
pub fn report(registry: &Registry, view: &AvailabilityView) -> (r: CapabilitiesReport)
    ensures
        Seq::new(r.binaries@.len(), |i: int| (r.binaries@[i].0@, r.binaries@[i].1)) == binary_entries(
            needed_binaries(registry@, view.binaries@),
        ),
        pairs_map(entry_views(r.portals@)) == view.portals@,
        unique_names(entry_views(r.portals@)),
        r.tools@.len() == registry@.len(),
        forall|k: int| 0 <= k < registry@.len() ==> {
            let t = #[trigger] r.tools@[k];
            let d = registry@[k];
            &&& t.id@ == d.id@
            &&& t.title@ == d.title@
            &&& t.available == (unavailable_reason(*view, d) is None)
            &&& opt_string(t.reason) == unavailable_reason(*view, d)
        },
{
    let list = registry.list();
    let mut found = ArgMap::new();
    let mut tools: Vec<ToolAvailability> = Vec::new();
    let mut i: usize = 0;
    while i < list.len()
        invariant
            i <= list@.len(),
            list@ == registry@,
            found@ == needed_binaries(registry@.take(i as int), view.binaries@),
            tools@.len() == i,
            forall|k: int| 0 <= k < i ==> {
                let t = #[trigger] tools@[k];
                let d = registry@[k];
                &&& t.id@ == d.id@
                &&& t.title@ == d.title@
                &&& t.available == (unavailable_reason(*view, d) is None)
                &&& opt_string(t.reason) == unavailable_reason(*view, d)
            },
        decreases list.len() - i,
    {
        let d = &list[i];
        let names = binary_requirements(&d.requires);
        let ghost before = found@;
        let ghost nv = names@.map_values(|s: &String| s@);
        let mut j: usize = 0;
        while j < names.len()
            invariant
                j <= names@.len(),
                nv == names@.map_values(|s: &String| s@),
                found@ == record_binaries(before, nv.take(j as int), view.binaries@),
            decreases names.len() - j,
        {
            let has = view.binaries.contains(names[j].as_str());
            found.insert(names[j].clone(), ArgValue::Bool(has));
            assert(nv.take(j + 1).drop_last() =~= nv.take(j as int));
            assert(nv.take(j + 1).last() == names@[j as int]@);
            j += 1;
        }
        assert(nv.take(j as int) =~= nv);
        assert(registry@.take(i + 1).drop_last() =~= registry@.take(i as int));
        assert(registry@.take(i + 1).last() == registry@[i as int]);
        let (available, reason) = is_available(view, &d.requires);
        tools.push(ToolAvailability { id: d.id.as_str().to_owned(), title: d.title.clone(), available, reason });
        i += 1;
    }
    assert(registry@.take(i as int) =~= registry@);
    let mut binaries: Vec<(String, bool)> = Vec::new();
    let mut k: usize = 0;
    while k < found.len()
        invariant
            k <= found@.len(),
            found@ == needed_binaries(registry@, view.binaries@),
            binaries@.len() == k,
            forall|q: int| 0 <= q < k ==> (#[trigger] binaries@[q]).0@ == binary_entries(found@)[q].0
                && binaries@[q].1 == binary_entries(found@)[q].1,
        decreases found@.len() - k,
    {
        let (name, value) = found.entry(k);
        let b = match value {
            ArgValue::Bool(b) => *b,
            _ => false,
        };
        binaries.push((name.clone(), b));
        k += 1;
    }
    assert(Seq::new(binaries@.len(), |q: int| (binaries@[q].0@, binaries@[q].1)) =~= binary_entries(found@));
    let portals = view.portals.entries();
    CapabilitiesReport { binaries, portals, tools }
}

} // verus!

//! Runtime argument values, the argument map, conditional visibility, and
//! validation of supplied values against a tool's argument specs.

use crate::descriptor::{ArgSpec, ArgType, ArgValueLiteral, FileFilter, When};
use crate::error::{validation_error_views, ValidationError};
use crate::float::{copy_float, float_eq, float_le, spec_float_eq, spec_float_le, spec_float_lt, FloatNum};
use crate::text::{
    chars_of, chars_eq, chars_lt, copy_strings, dec_int, i64_to_string, push_str, seq_lt, str_eq,
    views,
    lemma_seq_lt_irrefl, lemma_seq_lt_total, lemma_seq_lt_trans,
};
use vstd::prelude::*;

verus! {

/// A value supplied for an argument.
#[derive(Debug, Clone, PartialEq)]
pub enum ArgValue {
    Str(String),
    Int(i64),
    Float(FloatNum),
    Bool(bool),
    Path(String),
    Paths(Vec<String>),
}

/// The mathematical content of an [`ArgValue`].
pub enum ValueView {
    Str(Seq<char>),
    Int(i64),
    Float(u64, Seq<char>),
    Bool(bool),
    Path(Seq<char>),
    Paths(Seq<Seq<char>>),
}

impl View for ArgValue {
    type V = ValueView;

    open spec fn view(&self) -> ValueView {
        match self {
            ArgValue::Str(s) => ValueView::Str(s@),
            ArgValue::Int(i) => ValueView::Int(*i),
            ArgValue::Float(f) => ValueView::Float(f.bits, f.text@),
            ArgValue::Bool(b) => ValueView::Bool(*b),
            ArgValue::Path(p) => ValueView::Path(p@),
            ArgValue::Paths(ps) => ValueView::Paths(views(ps@)),
        }
    }
}

/// The mathematical content of an [`ArgValueLiteral`].
pub enum LiteralView {
    Str(Seq<char>),
    Int(i64),
    /// The bit pattern, the `Display` text and the `Debug` text.
    Float(u64, Seq<char>, Seq<char>),
    Bool(bool),
}

/// The content of a literal.
pub open spec fn literal_view(l: ArgValueLiteral) -> LiteralView {
    match l {
        ArgValueLiteral::Str(s) => LiteralView::Str(s@),
        ArgValueLiteral::Int(i) => LiteralView::Int(i),
        ArgValueLiteral::Float(f) => LiteralView::Float(f.bits, f.text@, f.debug@),
        ArgValueLiteral::Bool(b) => LiteralView::Bool(b),
    }
}

/// The text a value contributes to a rendered template, if it has one.
pub open spec fn display_of(v: ValueView) -> Option<Seq<char>> {
    match v {
        ValueView::Str(s) => Some(s),
        ValueView::Int(i) => Some(dec_int(i as int)),
        ValueView::Float(_, text) => Some(text),
        ValueView::Bool(b) => Some(if b { "true"@ } else { "false"@ }),
        ValueView::Path(p) => Some(p),
        ValueView::Paths(_) => None,
    }
}

impl ArgValue {
    /// The value as template text: `None` for a list of paths.
    pub fn as_display_string(&self) -> (r: Option<String>)
        ensures
            r matches Some(s) ==> display_of(self@) == Some(s@),
            r is None ==> display_of(self@) is None,
    {
        match self {
            ArgValue::Str(s) => Some(s.clone()),
            ArgValue::Int(i) => Some(i64_to_string(*i)),
            ArgValue::Float(f) => Some(f.text.clone()),
            ArgValue::Bool(b) => {
                proof {
                    reveal_strlit("true");
                    reveal_strlit("false");
                }
                if *b {
                    Some("true".to_owned())
                } else {
                    Some("false".to_owned())
                }
            },
            ArgValue::Path(p) => Some(p.clone()),
            ArgValue::Paths(_) => None,
        }
    }
}

/// A copy of `v`.
pub fn copy_value(v: &ArgValue) -> (r: ArgValue)
    ensures
        r@ == v@,
{
    match v {
        ArgValue::Str(s) => ArgValue::Str(s.clone()),
        ArgValue::Int(i) => ArgValue::Int(*i),
        ArgValue::Float(f) => ArgValue::Float(copy_float(f)),
        ArgValue::Bool(b) => ArgValue::Bool(*b),
        ArgValue::Path(p) => ArgValue::Path(p.clone()),
        ArgValue::Paths(ps) => {
            let c = copy_strings(ps);
            assert(views(c@) =~= views(ps@));
            ArgValue::Paths(c)
        },
    }
}

// ---------------------------------------------------------------------------
// Argument specs as values

/// The mathematical content of an argument type.
pub enum ArgTypeView {
    File { filters: Seq<(Seq<char>, Seq<Seq<char>>)>, multiple: bool },
    Dir,
    Str,
    Int { range: Option<[i64; 2]>, step: Option<i64> },
    Float { range: Option<((u64, Seq<char>), (u64, Seq<char>))> },
    Bool,
    Enum { options: Seq<Seq<char>> },
    Text,
}

/// The mathematical content of an argument spec.
pub struct ArgSpecView {
    pub name: Seq<char>,
    pub label: Seq<char>,
    pub help: Option<Seq<char>>,
    pub arg_type: ArgTypeView,
    pub default: Option<LiteralView>,
    pub required: bool,
    pub when: Option<(Seq<char>, Seq<LiteralView>)>,
}

/// The content of an argument type.
pub open spec fn arg_type_view(t: ArgType) -> ArgTypeView {
    match t {
        ArgType::File { filters, multiple } => ArgTypeView::File {
            filters: Seq::new(
                filters@.len(),
                |i: int| (filters@[i].label@, views(filters@[i].extensions@)),
            ),
            multiple,
        },
        ArgType::Dir => ArgTypeView::Dir,
        ArgType::Str => ArgTypeView::Str,
        ArgType::Int { range, step } => ArgTypeView::Int { range, step },
        ArgType::Float { range } => ArgTypeView::Float {
            range: match range {
                Some(r) => Some(((r[0].bits, r[0].text@), (r[1].bits, r[1].text@))),
                None => None,
            },
        },
        ArgType::Bool => ArgTypeView::Bool,
        ArgType::Enum { options } => ArgTypeView::Enum { options: views(options@) },
        ArgType::Text => ArgTypeView::Text,
    }
}

/// The content of a gate: the argument it names and its values.
pub open spec fn when_view(w: When) -> (Seq<char>, Seq<LiteralView>) {
    (w.arg@, Seq::new(w.in_values@.len(), |i: int| literal_view(w.in_values@[i])))
}

/// The content of an argument spec.
pub open spec fn arg_spec_view(a: ArgSpec) -> ArgSpecView {
    ArgSpecView {
        name: a.name@,
        label: a.label@,
        help: match a.help {
            Some(h) => Some(h@),
            None => None,
        },
        arg_type: arg_type_view(a.arg_type),
        default: match a.default {
            Some(l) => Some(literal_view(l)),
            None => None,
        },
        required: a.required,
        when: match a.when {
            Some(w) => Some(when_view(w)),
            None => None,
        },
    }
}

/// The contents of some argument specs.
pub open spec fn arg_spec_views(v: Seq<ArgSpec>) -> Seq<ArgSpecView> {
    Seq::new(v.len(), |i: int| arg_spec_view(v[i]))
}

fn copy_literal(l: &ArgValueLiteral) -> (r: ArgValueLiteral)
    ensures
        literal_view(r) == literal_view(*l),
{
    match l {
        ArgValueLiteral::Str(s) => ArgValueLiteral::Str(s.clone()),
        ArgValueLiteral::Int(i) => ArgValueLiteral::Int(*i),
        ArgValueLiteral::Float(f) => ArgValueLiteral::Float(copy_float(f)),
        ArgValueLiteral::Bool(b) => ArgValueLiteral::Bool(*b),
    }
}

fn copy_arg_type(t: &ArgType) -> (r: ArgType)
    ensures
        arg_type_view(r) == arg_type_view(*t),
{
    match t {
        ArgType::File { filters, multiple } => {
            let mut out: Vec<FileFilter> = Vec::new();
            let mut k: usize = 0;
            while k < filters.len()
                invariant
                    k <= filters@.len(),
                    out@.len() == k,
                    forall|q: int| 0 <= q < k ==> #[trigger] out@[q].label@ == filters@[q].label@
                        && views(out@[q].extensions@) == views(filters@[q].extensions@),
                decreases filters.len() - k,
            {
                let extensions = copy_strings(&filters[k].extensions);
                assert(views(extensions@) =~= views(filters@[k as int].extensions@));
                out.push(FileFilter { label: filters[k].label.clone(), extensions });
                k += 1;
            }
            let r = ArgType::File { filters: out, multiple: *multiple };
            assert(arg_type_view(r) == arg_type_view(*t)) by {
                if let ArgTypeView::File { filters: a, .. } = arg_type_view(r) {
                    if let ArgTypeView::File { filters: b, .. } = arg_type_view(*t) {
                        assert(a =~= b);
                    }
                }
            }
            r
        },
        ArgType::Dir => ArgType::Dir,
        ArgType::Str => ArgType::Str,
        ArgType::Int { range, step } => ArgType::Int { range: *range, step: *step },
        ArgType::Float { range } => ArgType::Float {
            range: match range {
                Some(r) => Some([copy_float(&r[0]), copy_float(&r[1])]),
                None => None,
            },
        },
        ArgType::Bool => ArgType::Bool,
        ArgType::Enum { options } => {
            let c = copy_strings(options);
            assert(views(c@) =~= views(options@));
            ArgType::Enum { options: c }
        },
        ArgType::Text => ArgType::Text,
    }
}

/// A copy of `a`.
pub fn copy_arg_spec(a: &ArgSpec) -> (r: ArgSpec)
    ensures
        arg_spec_view(r) == arg_spec_view(*a),
{
    let when = match &a.when {
        Some(w) => {
            let mut values: Vec<ArgValueLiteral> = Vec::new();
            let mut k: usize = 0;
            while k < w.in_values.len()
                invariant
                    k <= w.in_values@.len(),
                    values@.len() == k,
                    forall|q: int| 0 <= q < k ==> literal_view(#[trigger] values@[q]) == literal_view(w.in_values@[q]),
                decreases w.in_values.len() - k,
            {
                values.push(copy_literal(&w.in_values[k]));
                k += 1;
            }
            let c = When { arg: w.arg.clone(), in_values: values };
            assert(when_view(c).1 =~= when_view(*w).1);
            Some(c)
        },
        None => None,
    };
    let default = match &a.default {
        Some(l) => Some(copy_literal(l)),
        None => None,
    };
    let help = match &a.help {
        Some(h) => Some(h.clone()),
        None => None,
    };
    ArgSpec {
        name: a.name.clone(),
        label: a.label.clone(),
        help,
        arg_type: copy_arg_type(&a.arg_type),
        default,
        required: a.required,
        when,
    }
}

/// A copy of each spec.
pub fn copy_arg_specs(v: &Vec<ArgSpec>) -> (r: Vec<ArgSpec>)
    ensures
        arg_spec_views(r@) == arg_spec_views(v@),
{
    let mut out: Vec<ArgSpec> = Vec::new();
    let mut k: usize = 0;
    while k < v.len()
        invariant
            k <= v@.len(),
            out@.len() == k,
            forall|q: int| 0 <= q < k ==> arg_spec_view(#[trigger] out@[q]) == arg_spec_view(v@[q]),
        decreases v.len() - k,
    {
        out.push(copy_arg_spec(&v[k]));
        k += 1;
    }
    assert(arg_spec_views(out@) =~= arg_spec_views(v@));
    out
}

// ---------------------------------------------------------------------------
// The argument map

/// Keys strictly increasing in `str` order.
pub open spec fn sorted_keys(p: Seq<(Seq<char>, ValueView)>) -> bool {
    forall|i: int, j: int| 0 <= i < j < p.len() ==> seq_lt(#[trigger] p[i].0, #[trigger] p[j].0)
}

/// The value held under `k`.
pub open spec fn lookup(p: Seq<(Seq<char>, ValueView)>, k: Seq<char>) -> Option<ValueView>
    decreases p.len(),
{
    if p.len() == 0 {
        None
    } else if p[0].0 == k {
        Some(p[0].1)
    } else {
        lookup(p.drop_first(), k)
    }
}

/// `p` with `k` bound to `v`, keeping the keys in order.
pub open spec fn map_insert(p: Seq<(Seq<char>, ValueView)>, k: Seq<char>, v: ValueView) -> Seq<
    (Seq<char>, ValueView),
>
    decreases p.len(),
{
    if p.len() == 0 {
        seq![(k, v)]
    } else if p[0].0 == k {
        seq![(k, v)] + p.drop_first()
    } else if seq_lt(k, p[0].0) {
        seq![(k, v)] + p
    } else {
        seq![p[0]] + map_insert(p.drop_first(), k, v)
    }
}

pub proof fn lemma_lookup_index(p: Seq<(Seq<char>, ValueView)>, k: Seq<char>)
    ensures
        lookup(p, k) matches Some(v) ==> exists|i: int| 0 <= i < p.len() && p[i].0 == k && p[i].1
            == v,
        lookup(p, k) is None ==> forall|i: int| 0 <= i < p.len() ==> p[i].0 != k,
    decreases p.len(),
{
    if p.len() > 0 {
        lemma_lookup_index(p.drop_first(), k);
        if lookup(p, k) is None {
            assert forall|i: int| 0 <= i < p.len() implies p[i].0 != k by {
                if i > 0 {
                    assert(p[i] == p.drop_first()[i - 1]);
                }
            }
        }
        if p[0].0 != k {
            if let Some(v) = lookup(p, k) {
                let i = choose|i: int| 0 <= i < p.drop_first().len() && p.drop_first()[i].0 == k
                    && p.drop_first()[i].1 == v;
                assert(p[i + 1] == p.drop_first()[i]);
            }
        }
    }
}

pub proof fn lemma_lookup_at(p: Seq<(Seq<char>, ValueView)>, i: int)
    requires
        sorted_keys(p),
        0 <= i < p.len(),
    ensures
        lookup(p, p[i].0) == Some(p[i].1),
    decreases p.len(),
{
    if i > 0 {
        assert(seq_lt(p[0].0, p[i].0));
        lemma_seq_lt_irrefl(p[i].0);
        assert(p.drop_first()[i - 1] == p[i]);
        lemma_lookup_at(p.drop_first(), i - 1);
    }
}

/// Inserting binds the key, keeps every other binding, and keeps the keys
/// in order.
pub proof fn lemma_map_insert(p: Seq<(Seq<char>, ValueView)>, k: Seq<char>, v: ValueView)
    requires
        sorted_keys(p),
    ensures
        sorted_keys(map_insert(p, k, v)),
        lookup(map_insert(p, k, v), k) == Some(v),
        forall|k2: Seq<char>| k2 != k ==> lookup(map_insert(p, k, v), k2) == lookup(p, k2),
        forall|i: int|
            0 <= i < map_insert(p, k, v).len() ==> #[trigger] map_insert(p, k, v)[i].0 == k || (
            exists|j: int| 0 <= j < p.len() && p[j].0 == map_insert(p, k, v)[i].0),
    decreases p.len(),
{
    let r = map_insert(p, k, v);
    if p.len() == 0 {
        assert(r.drop_first() =~= Seq::<(Seq<char>, ValueView)>::empty());
        assert forall|k2: Seq<char>| k2 != k implies lookup(r, k2) == lookup(p, k2) by {
            assert(lookup(r, k2) == lookup(r.drop_first(), k2));
        }
    } else if p[0].0 == k {
        assert forall|i: int, j: int| 0 <= i < j < r.len() implies seq_lt(
            #[trigger] r[i].0,
            #[trigger] r[j].0,
        ) by {
            assert(r[j] == p[j]);
            if i > 0 {
                assert(r[i] == p[i]);
            }
        }
        assert forall|k2: Seq<char>| k2 != k implies lookup(r, k2) == lookup(p, k2) by {
            assert(r.drop_first() =~= p.drop_first());
            assert(lookup(r, k2) == lookup(r.drop_first(), k2));
            assert(lookup(p, k2) == lookup(p.drop_first(), k2));
        }
        assert forall|i: int| 0 <= i < r.len() implies #[trigger] r[i].0 == k || (exists|j: int|
            0 <= j < p.len() && p[j].0 == r[i].0) by {
            if i > 0 {
                assert(r[i] == p[i]);
            }
        }
    } else if seq_lt(k, p[0].0) {
        assert forall|i: int, j: int| 0 <= i < j < r.len() implies seq_lt(
            #[trigger] r[i].0,
            #[trigger] r[j].0,
        ) by {
            assert(r[j] == p[j - 1]);
            if i > 0 {
                assert(r[i] == p[i - 1]);
            } else if j - 1 > 0 {
                lemma_seq_lt_trans(k, p[0].0, p[j - 1].0);
            }
        }
        assert forall|k2: Seq<char>| k2 != k implies lookup(r, k2) == lookup(p, k2) by {
            assert(r.drop_first() =~= p);
            assert(lookup(r, k2) == lookup(r.drop_first(), k2));
        }
        assert forall|i: int| 0 <= i < r.len() implies #[trigger] r[i].0 == k || (exists|j: int|
            0 <= j < p.len() && p[j].0 == r[i].0) by {
            if i > 0 {
                assert(r[i] == p[i - 1]);
            }
        }
    } else {
        let q = p.drop_first();
        assert(sorted_keys(q)) by {
            assert forall|i: int, j: int| 0 <= i < j < q.len() implies seq_lt(
                #[trigger] q[i].0,
                #[trigger] q[j].0,
            ) by {
                assert(q[i] == p[i + 1] && q[j] == p[j + 1]);
            }
        }
        lemma_map_insert(q, k, v);
        let rq = map_insert(q, k, v);
        lemma_seq_lt_total(k, p[0].0);
        assert(r =~= seq![p[0]] + rq);
        assert(r.drop_first() =~= rq);
        assert(r[0] == p[0]);
        assert forall|k2: Seq<char>| k2 != k implies lookup(r, k2) == lookup(p, k2) by {
            if p[0].0 == k2 {
                assert(lookup(r, k2) == Some(r[0].1));
            } else {
                assert(lookup(r, k2) == lookup(r.drop_first(), k2));
                assert(lookup(p, k2) == lookup(q, k2));
                assert(lookup(rq, k2) == lookup(q, k2));
            }
        }
        assert forall|i: int| 0 <= i < r.len() implies #[trigger] r[i].0 == k || (exists|j: int|
            0 <= j < p.len() && p[j].0 == r[i].0) by {
            if i > 0 {
                assert(r[i] == rq[i - 1]);
                if rq[i - 1].0 != k {
                    let j = choose|j: int| 0 <= j < q.len() && q[j].0 == rq[i - 1].0;
                    assert(p[j + 1] == q[j]);
                }
            }
        }
        assert forall|i: int, j: int| 0 <= i < j < r.len() implies seq_lt(
            #[trigger] r[i].0,
            #[trigger] r[j].0,
        ) by {
            assert(r[j] == rq[j - 1]);
            if i > 0 {
                assert(r[i] == rq[i - 1]);
            } else {
                if rq[j - 1].0 == k {
                } else {
                    let m = choose|m: int| 0 <= m < q.len() && q[m].0 == rq[j - 1].0;
                    assert(p[m + 1] == q[m]);
                }
            }
        }
        assert(r.drop_first() =~= rq);
    }
}

/// Argument values by argument name, ordered by name.
#[derive(Debug, PartialEq)]
pub struct ArgMap {
    entries: Vec<(String, ArgValue)>,
}

impl View for ArgMap {
    type V = Seq<(Seq<char>, ValueView)>;

    closed spec fn view(&self) -> Seq<(Seq<char>, ValueView)> {
        Seq::new(self.entries@.len(), |i: int| (self.entries@[i].0@, self.entries@[i].1@))
    }
}

impl ArgMap {
    #[verifier::type_invariant]
    closed spec fn well_formed(self) -> bool {
        sorted_keys(self@)
    }

    /// The keys are in strictly increasing order.
    pub fn keys_are_sorted(&self)
        ensures
            sorted_keys(self@),
    {
        proof {
            use_type_invariant(self);
        }
    }

    /// An empty map.
    pub fn new() -> (m: Self)
        ensures
            m@ == Seq::<(Seq<char>, ValueView)>::empty(),
    {
        let m = ArgMap { entries: Vec::new() };
        assert(m@ =~= Seq::<(Seq<char>, ValueView)>::empty());
        m
    }

    /// Number of bound names.
    pub fn len(&self) -> (n: usize)
        ensures
            n == self@.len(),
    {
        self.entries.len()
    }

    /// Whether no name is bound.
    pub fn is_empty(&self) -> (b: bool)
        ensures
            b == (self@.len() == 0),
    {
        self.entries.len() == 0
    }

    /// The name and value at position `i` in name order.
    pub fn entry(&self, i: usize) -> (r: (&String, &ArgValue))
        requires
            i < self@.len(),
        ensures
            r.0@ == self@[i as int].0,
            r.1@ == self@[i as int].1,
    {
        (&self.entries[i].0, &self.entries[i].1)
    }

    /// The value bound to `name`.
    pub fn get(&self, name: &str) -> (r: Option<&ArgValue>)
        ensures
            r matches Some(v) ==> lookup(self@, name@) == Some(v@),
            r is None ==> lookup(self@, name@) is None,
    {
        let key = chars_of(name);
        let mut i: usize = 0;
        assert(self@.skip(0) =~= self@);
        while i < self.entries.len()
            invariant
                key@ == name@,
                i <= self@.len(),
                lookup(self@, name@) == lookup(self@.skip(i as int), name@),
            decreases self@.len() - i,
        {
            let k = chars_of(self.entries[i].0.as_str());
            let ghost t = self@.skip(i as int);
            assert(t[0] == self@[i as int]);
            if chars_eq(&k, &key) {
                return Some(&self.entries[i].1);
            }
            assert(t.drop_first() =~= self@.skip(i + 1));
            i += 1;
        }
        None
    }

    /// Whether `name` is bound.
    pub fn contains_key(&self, name: &str) -> (b: bool)
        ensures
            b == (lookup(self@, name@) is Some),
    {
        self.get(name).is_some()
    }

    /// Binds `name` to `value`, replacing any earlier value.
    pub fn insert(&mut self, name: String, value: ArgValue)
        ensures
            final(self)@ == map_insert(old(self)@, name@, value@),
    {
        proof {
            use_type_invariant(&*self);
        }
        let key = chars_of(name.as_str());
        let n = self.entries.len();
        let mut i: usize = 0;
        let ghost p = self@;
        while i < n && !self.stops_at(i, &key)
            invariant
                n == self.entries@.len(),
                p == self@,
                key@ == name@,
                i <= n,
                forall|j: int| 0 <= j < i ==> seq_lt(#[trigger] p[j].0, name@),
            decreases n - i,
        {
            proof {
                lemma_seq_lt_total(p[i as int].0, name@);
            }
            i += 1;
        }
        proof {
            lemma_insert_position(p, name@, value@, i as int);
        }
        let ghost old_entries = self.entries@;
        let replace = if i < n {
            let k = chars_of(self.entries[i].0.as_str());
            chars_eq(&k, &key)
        } else {
            false
        };
        let mut entries = Vec::new();
        std::mem::swap(&mut entries, &mut self.entries);
        if replace {
            entries.set(i, (name, value));
        } else {
            entries.insert(i, (name, value));
        }
        proof {
            let q = Seq::new(entries@.len(), |j: int| (entries@[j].0@, entries@[j].1@));
            assert(q =~= map_insert(p, name@, value@));
            lemma_map_insert(p, name@, value@);
        }
        self.entries = entries;
    }

    /// Whether the key at `i` is `key` or orders after it.
    fn stops_at(&self, i: usize, key: &Vec<char>) -> (r: bool)
        requires
            i < self@.len(),
        ensures
            r == (self@[i as int].0 == key@ || seq_lt(key@, self@[i as int].0)),
    {
        let k = chars_of(self.entries[i].0.as_str());
        chars_eq(&k, key) || chars_lt(key, &k)
    }

    /// Every name bound, in order.
    pub fn keys(&self) -> (r: Vec<String>)
        ensures
            r@.len() == self@.len(),
            forall|i: int| 0 <= i < r@.len() ==> #[trigger] r@[i]@ == self@[i].0,
    {
        let mut r: Vec<String> = Vec::new();
        let mut i: usize = 0;
        while i < self.entries.len()
            invariant
                i <= self@.len(),
                r@.len() == i,
                forall|j: int| 0 <= j < i ==> #[trigger] r@[j]@ == self@[j].0,
            decreases self@.len() - i,
        {
            r.push(self.entries[i].0.clone());
            i += 1;
        }
        r
    }
}

impl Clone for ArgMap {
    fn clone(&self) -> (r: Self)
        ensures
            r@ == self@,
    {
        proof {
            use_type_invariant(self);
        }
        let mut entries: Vec<(String, ArgValue)> = Vec::new();
        let mut i: usize = 0;
        while i < self.entries.len()
            invariant
                i <= self.entries@.len(),
                entries@.len() == i,
                forall|j: int| 0 <= j < i ==> (#[trigger] entries@[j]).0@ == self.entries@[j].0@ && entries@[j].1@ == self.entries@[j].1@,
            decreases self.entries@.len() - i,
        {
            let k = self.entries[i].0.clone();
            let v = copy_value(&self.entries[i].1);
            entries.push((k, v));
            i += 1;
        }
        proof {
            let q = Seq::new(entries@.len(), |j: int| (entries@[j].0@, entries@[j].1@));
            assert(q =~= self@);
        }
        let r = ArgMap { entries };
        assert(r@ =~= self@);
        r
    }
}

proof fn lemma_insert_position(
    p: Seq<(Seq<char>, ValueView)>,
    k: Seq<char>,
    v: ValueView,
    i: int,
)
    requires
        sorted_keys(p),
        0 <= i <= p.len(),
        forall|j: int| 0 <= j < i ==> seq_lt(#[trigger] p[j].0, k),
        i < p.len() ==> (p[i].0 == k || seq_lt(k, p[i].0)),
    ensures
        i < p.len() && p[i].0 == k ==> map_insert(p, k, v) == p.update(i, (k, v)),
        !(i < p.len() && p[i].0 == k) ==> map_insert(p, k, v) == p.insert(i, (k, v)),
    decreases i,
{
    if i == 0 {
        if p.len() > 0 && p[0].0 == k {
            assert(map_insert(p, k, v) =~= p.update(0, (k, v)));
        } else {
            assert(map_insert(p, k, v) =~= p.insert(0, (k, v)));
        }
    } else {
        let q = p.drop_first();
        assert(sorted_keys(q)) by {
            assert forall|a: int, b: int| 0 <= a < b < q.len() implies seq_lt(
                #[trigger] q[a].0,
                #[trigger] q[b].0,
            ) by {
                assert(q[a] == p[a + 1] && q[b] == p[b + 1]);
            }
        }
        assert forall|j: int| 0 <= j < i - 1 implies seq_lt(#[trigger] q[j].0, k) by {
            assert(q[j] == p[j + 1]);
        }
        if i < p.len() {
            assert(q[i - 1] == p[i]);
        }
        lemma_insert_position(q, k, v, i - 1);
        assert(seq_lt(p[0].0, k));
        lemma_seq_lt_total(p[0].0, k);
        lemma_seq_lt_irrefl(k);
        if i < p.len() && p[i].0 == k {
            assert(map_insert(p, k, v) =~= p.update(i, (k, v)));
        } else {
            assert(map_insert(p, k, v) =~= p.insert(i, (k, v)));
        }
    }
}

// ---------------------------------------------------------------------------
// Literals and gates

/// A literal as the value it stands for.
pub open spec fn literal_value(l: LiteralView) -> ValueView {
    match l {
        LiteralView::Str(s) => ValueView::Str(s),
        LiteralView::Int(i) => ValueView::Int(i),
        LiteralView::Float(b, t, _) => ValueView::Float(b, t),
        LiteralView::Bool(b) => ValueView::Bool(b),
    }
}

/// The value a literal stands for.
pub fn literal_to_value(literal: &ArgValueLiteral) -> (v: ArgValue)
    ensures
        v@ == literal_value(literal_view(*literal)),
{
    match literal {
        ArgValueLiteral::Str(s) => ArgValue::Str(s.clone()),
        ArgValueLiteral::Int(i) => ArgValue::Int(*i),
        ArgValueLiteral::Float(f) => ArgValue::Float(copy_float(f)),
        ArgValueLiteral::Bool(b) => ArgValue::Bool(*b),
    }
}

/// A value equals a literal of the same kind (floats compare as numbers).
pub open spec fn satisfies(v: ValueView, l: LiteralView) -> bool {
    match (v, l) {
        (ValueView::Str(a), LiteralView::Str(b)) => a == b,
        (ValueView::Int(a), LiteralView::Int(b)) => a == b,
        (ValueView::Float(a, _), LiteralView::Float(b, _, _)) => spec_float_eq(a, b),
        (ValueView::Bool(a), LiteralView::Bool(b)) => a == b,
        _ => false,
    }
}

/// Whether `value` equals `literal`.
pub fn value_satisfies_literal(value: &ArgValue, literal: &ArgValueLiteral) -> (r: bool)
    ensures
        r == satisfies(value@, literal_view(*literal)),
{
    match (value, literal) {
        (ArgValue::Str(a), ArgValueLiteral::Str(b)) => {
            let x = chars_of(a.as_str());
            let y = chars_of(b.as_str());
            chars_eq(&x, &y)
        },
        (ArgValue::Int(a), ArgValueLiteral::Int(b)) => *a == *b,
        (ArgValue::Float(a), ArgValueLiteral::Float(b)) => float_eq(a, b),
        (ArgValue::Bool(a), ArgValueLiteral::Bool(b)) => *a == *b,
        _ => false,
    }
}

/// A value passes a gate's value list: any value when the list is empty,
/// else one equal to a listed literal.
pub open spec fn passes(v: ValueView, when: When) -> bool {
    when.in_values@.len() == 0 || exists|j: int|
        0 <= j < when.in_values@.len() && satisfies(v, literal_view(#[trigger] when.in_values@[j]))
}

/// The argument gate holds for the values in `m`.
pub open spec fn gate_holds(when: When, m: Seq<(Seq<char>, ValueView)>) -> bool {
    match lookup(m, when.arg@) {
        Some(v) => passes(v, when),
        None => false,
    }
}

/// Whether `value` passes the value list of `when`.
pub fn value_passes(value: &ArgValue, when: &When) -> (r: bool)
    ensures
        r == passes(value@, *when),
{
    let n = when.in_values.len();
    if n == 0 {
        return true;
    }
    let mut j: usize = 0;
    while j < n
        invariant
            n == when.in_values@.len(),
            j <= n,
            forall|k: int| 0 <= k < j ==> !satisfies(value@, literal_view(#[trigger] when.in_values@[k])),
        decreases n - j,
    {
        if value_satisfies_literal(value, &when.in_values[j]) {
            return true;
        }
        j += 1;
    }
    false
}

/// Whether an argument gate holds for the values in `m`.
pub fn gate_open(when: &When, m: &ArgMap) -> (r: bool)
    ensures
        r == gate_holds(*when, m@),
{
    match m.get(when.arg.as_str()) {
        Some(v) => value_passes(v, when),
        None => false,
    }
}

// ---------------------------------------------------------------------------
// Visibility

/// Whether spec `i` is visible, given which earlier specs are: ungated, or
/// gated on a visible earlier argument whose value passes that gate.
pub open spec fn visible_at(specs: Seq<ArgSpec>, flags: Seq<bool>, m: Seq<(Seq<char>, ValueView)>, i: int) -> bool {
    match specs[i].when {
        None => true,
        Some(when) => (exists|j: int|
            0 <= j < i && #[trigger] flags[j] && specs[j].name@ == when.arg@) && gate_holds(when, m),
    }
}

/// Visibility of the first `n` specs.
pub open spec fn visibility(specs: Seq<ArgSpec>, m: Seq<(Seq<char>, ValueView)>, n: nat) -> Seq<bool>
    decreases n,
{
    if n == 0 {
        seq![]
    } else {
        let prev = visibility(specs, m, (n - 1) as nat);
        prev.push(visible_at(specs, prev, m, n - 1))
    }
}

pub proof fn lemma_visibility_len(specs: Seq<ArgSpec>, m: Seq<(Seq<char>, ValueView)>, n: nat)
    ensures
        visibility(specs, m, n).len() == n,
    decreases n,
{
    if n > 0 {
        lemma_visibility_len(specs, m, (n - 1) as nat);
    }
}

pub proof fn lemma_visibility_prefix(specs: Seq<ArgSpec>, m: Seq<(Seq<char>, ValueView)>, a: nat, b: nat)
    requires
        a <= b,
    ensures
        visibility(specs, m, a) == visibility(specs, m, b).take(a as int),
    decreases b,
{
    lemma_visibility_len(specs, m, b);
    lemma_visibility_len(specs, m, a);
    if a < b {
        lemma_visibility_prefix(specs, m, a, (b - 1) as nat);
        lemma_visibility_len(specs, m, (b - 1) as nat);
        assert(visibility(specs, m, (b - 1) as nat).take(a as int) =~= visibility(specs, m, b).take(
            a as int,
        ));
    } else {
        assert(visibility(specs, m, b).take(a as int) =~= visibility(specs, m, b));
    }
}

/// The specs selected by `flags`, in order.
pub open spec fn select(specs: Seq<ArgSpec>, flags: Seq<bool>) -> Seq<ArgSpec>
    decreases flags.len(),
{
    if flags.len() == 0 {
        seq![]
    } else {
        let prev = select(specs, flags.drop_last());
        if flags.last() {
            prev.push(specs[flags.len() - 1])
        } else {
            prev
        }
    }
}

/// Whether some earlier visible spec (`flags` so far) is named `name`.
fn visible_name(specs: &[ArgSpec], flags: &Vec<bool>, name: &str) -> (r: bool)
    requires
        flags@.len() <= specs@.len(),
    ensures
        r == exists|j: int| 0 <= j < flags@.len() && #[trigger] flags@[j] && specs@[j].name@ == name@,
{
    let key = chars_of(name);
    let mut j: usize = 0;
    while j < flags.len()
        invariant
            flags@.len() <= specs@.len(),
            key@ == name@,
            j <= flags@.len(),
            forall|k: int| 0 <= k < j ==> !(#[trigger] flags@[k] && specs@[k].name@ == name@),
        decreases flags@.len() - j,
    {
        if flags[j] {
            let n = chars_of(specs[j].name.as_str());
            if chars_eq(&n, &key) {
                return true;
            }
        }
        j += 1;
    }
    false
}

/// The visibility flag of every spec, in order.
pub fn visibility_flags(specs: &[ArgSpec], values: &ArgMap) -> (flags: Vec<bool>)
    ensures
        flags@ == visibility(specs@, values@, specs@.len()),
{
    let mut flags: Vec<bool> = Vec::new();
    let mut i: usize = 0;
    while i < specs.len()
        invariant
            i <= specs@.len(),
            flags@ == visibility(specs@, values@, i as nat),
        decreases specs@.len() - i,
    {
        proof {
            lemma_visibility_len(specs@, values@, i as nat);
        }
        let visible = match &specs[i].when {
            None => true,
            Some(when) => visible_name(specs, &flags, when.arg.as_str()) && gate_open(when, values),
        };
        flags.push(visible);
        i += 1;
    }
    flags
}

/// The specs that are visible for `values`, in order: an ungated spec is
/// always visible; a gated one when its gate names an earlier visible
/// argument whose value passes that gate.
pub fn visible_args<'a>(specs: &'a [ArgSpec], values: &ArgMap) -> (r: Vec<&'a ArgSpec>)
    ensures
        r@.map_values(|s: &ArgSpec| *s) == select(specs@, visibility(specs@, values@, specs@.len())),
{
    let flags = visibility_flags(specs, values);
    let mut r: Vec<&'a ArgSpec> = Vec::new();
    let mut i: usize = 0;
    proof {
        lemma_visibility_len(specs@, values@, specs@.len());
    }
    while i < specs.len()
        invariant
            flags@ == visibility(specs@, values@, specs@.len()),
            flags@.len() == specs@.len(),
            i <= specs@.len(),
            r@.map_values(|s: &ArgSpec| *s) == select(specs@, flags@.take(i as int)),
        decreases specs@.len() - i,
    {
        proof {
            assert(flags@.take(i + 1).drop_last() =~= flags@.take(i as int));
        }
        if flags[i] {
            r.push(&specs[i]);
        }
        proof {
            assert(r@.map_values(|s: &ArgSpec| *s) =~= select(specs@, flags@.take(i + 1)));
        }
        i += 1;
    }
    assert(flags@.take(i as int) =~= flags@);
    r
}

// ---------------------------------------------------------------------------
// Validating supplied values

/// The value a spec's default stands for.
pub open spec fn default_value(a: ArgSpec) -> Option<ValueView> {
    match a.default {
        Some(d) => Some(literal_value(literal_view(d))),
        None => None,
    }
}

/// `m` with the defaults of the first `n` specs bound, in spec order, under
/// each name that nothing is bound to yet.
pub open spec fn fill_defaults(specs: Seq<ArgSpec>, m: Seq<(Seq<char>, ValueView)>, n: nat) -> Seq<
    (Seq<char>, ValueView),
>
    decreases n,
{
    if n == 0 {
        m
    } else {
        let p = fill_defaults(specs, m, (n - 1) as nat);
        match default_value(specs[n - 1]) {
            Some(v) => if lookup(p, specs[n - 1].name@) is None {
                map_insert(p, specs[n - 1].name@, v)
            } else {
                p
            },
            None => p,
        }
    }
}

/// A value has the shape an argument type takes.
pub open spec fn value_fits_type(v: ValueView, t: ArgType) -> bool {
    match (v, t) {
        (ValueView::Paths(_), ArgType::File { multiple, .. }) => multiple,
        (ValueView::Path(_), ArgType::File { multiple, .. }) => !multiple,
        (ValueView::Path(_), ArgType::Dir) => true,
        (ValueView::Str(_), ArgType::Str) => true,
        (ValueView::Str(_), ArgType::Text) => true,
        (ValueView::Str(_), ArgType::Enum { .. }) => true,
        (ValueView::Int(_), ArgType::Int { .. }) => true,
        (ValueView::Float(_, _), ArgType::Float { .. }) => true,
        (ValueView::Bool(_), ArgType::Bool) => true,
        _ => false,
    }
}

/// What an argument type takes, in words.
pub open spec fn type_noun(t: ArgType) -> Seq<char> {
    match t {
        ArgType::File { multiple, .. } => if multiple {
            "a list of paths"@
        } else {
            "a path"@
        },
        ArgType::Dir => "a path"@,
        ArgType::Int { .. } => "a whole number"@,
        ArgType::Float { .. } => "a number"@,
        ArgType::Bool => "true or false"@,
        _ => "text"@,
    }
}

/// A value meets its type's constraints: enum membership and ranges.
pub open spec fn value_within(v: ValueView, t: ArgType) -> bool {
    match (v, t) {
        (ValueView::Str(s), ArgType::Enum { options }) => exists|k: int|
            0 <= k < options@.len() && #[trigger] options@[k]@ == s,
        (ValueView::Int(x), ArgType::Int { range: Some(r), .. }) => r@[0] <= x && x <= r@[1],
        (ValueView::Float(b, _), ArgType::Float { range: Some(r) }) => spec_float_le(r@[0].bits, b)
            && spec_float_le(b, r@[1].bits),
        _ => true,
    }
}

/// The items separated by `sep`.
pub open spec fn joined(items: Seq<Seq<char>>, sep: Seq<char>) -> Seq<char>
    decreases items.len(),
{
    if items.len() == 0 {
        seq![]
    } else if items.len() == 1 {
        items[0]
    } else {
        joined(items.drop_last(), sep) + sep + items.last()
    }
}

/// What a value outside a type's constraints is told.
pub open spec fn constraint_message(t: ArgType) -> Seq<char> {
    match t {
        ArgType::Enum { options } => "must be one of: "@ + joined(views(options@), ", "@),
        ArgType::Int { range: Some(r), .. } => "must be between "@ + dec_int(r@[0] as int)
            + " and "@ + dec_int(r@[1] as int),
        ArgType::Float { range: Some(r) } => "must be between "@ + r@[0].text@ + " and "@
            + r@[1].text@,
        _ => seq![],
    }
}

/// The problems of one visible argument, given the value it has, if any.
pub open spec fn value_errors(a: ArgSpec, v: Option<ValueView>) -> Seq<(Seq<char>, Seq<char>)> {
    match v {
        None => if a.required {
            seq![(a.name@, "a value is required"@)]
        } else {
            seq![]
        },
        Some(v) => if !value_fits_type(v, a.arg_type) {
            seq![(a.name@, "expected "@ + type_noun(a.arg_type))]
        } else if !value_within(v, a.arg_type) {
            seq![(a.name@, constraint_message(a.arg_type))]
        } else {
            seq![]
        },
    }
}

/// The problems of the first `n` specs, those that are visible.
pub open spec fn spec_errors_upto(
    specs: Seq<ArgSpec>,
    flags: Seq<bool>,
    filled: Seq<(Seq<char>, ValueView)>,
    n: nat,
) -> Seq<(Seq<char>, Seq<char>)>
    decreases n,
{
    if n == 0 {
        seq![]
    } else {
        spec_errors_upto(specs, flags, filled, (n - 1) as nat) + if flags[n - 1] {
            value_errors(specs[n - 1], lookup(filled, specs[n - 1].name@))
        } else {
            seq![]
        }
    }
}

/// Some spec is named `k`.
pub open spec fn names_arg(specs: Seq<ArgSpec>, k: Seq<char>) -> bool {
    exists|j: int| 0 <= j < specs.len() && #[trigger] specs[j].name@ == k
}

/// An error for each of the first `n` supplied names that no spec has.
pub open spec fn unknown_errors_upto(
    specs: Seq<ArgSpec>,
    supplied: Seq<(Seq<char>, ValueView)>,
    n: nat,
) -> Seq<(Seq<char>, Seq<char>)>
    decreases n,
{
    if n == 0 {
        seq![]
    } else {
        unknown_errors_upto(specs, supplied, (n - 1) as nat) + if names_arg(
            specs,
            supplied[n - 1].0,
        ) {
            seq![]
        } else {
            seq![(supplied[n - 1].0, "unknown argument"@)]
        }
    }
}

/// The values of the visible specs among the first `n`.
pub open spec fn effective_upto(
    specs: Seq<ArgSpec>,
    flags: Seq<bool>,
    filled: Seq<(Seq<char>, ValueView)>,
    n: nat,
) -> Seq<(Seq<char>, ValueView)>
    decreases n,
{
    if n == 0 {
        seq![]
    } else {
        let p = effective_upto(specs, flags, filled, (n - 1) as nat);
        if flags[n - 1] {
            match lookup(filled, specs[n - 1].name@) {
                Some(v) => map_insert(p, specs[n - 1].name@, v),
                None => p,
            }
        } else {
            p
        }
    }
}

/// Supplied values with the defaults filled in.
pub open spec fn filled_args(specs: Seq<ArgSpec>, supplied: Seq<(Seq<char>, ValueView)>) -> Seq<
    (Seq<char>, ValueView),
> {
    fill_defaults(specs, supplied, specs.len())
}

/// Every problem of the supplied values: unknown names in name order, then
/// each visible argument's problem in spec order.
pub open spec fn arg_errors(specs: Seq<ArgSpec>, supplied: Seq<(Seq<char>, ValueView)>) -> Seq<
    (Seq<char>, Seq<char>),
> {
    let filled = filled_args(specs, supplied);
    unknown_errors_upto(specs, supplied, supplied.len()) + spec_errors_upto(
        specs,
        visibility(specs, filled, specs.len()),
        filled,
        specs.len(),
    )
}

/// The values the tool runs with: those of its visible arguments, defaults
/// included.
pub open spec fn effective_args(specs: Seq<ArgSpec>, supplied: Seq<(Seq<char>, ValueView)>) -> Seq<
    (Seq<char>, ValueView),
> {
    let filled = filled_args(specs, supplied);
    effective_upto(specs, visibility(specs, filled, specs.len()), filled, specs.len())
}

fn names_arg_exec(specs: &[ArgSpec], k: &str) -> (b: bool)
    ensures
        b == names_arg(specs@, k@),
{
    let mut j: usize = 0;
    while j < specs.len()
        invariant
            j <= specs@.len(),
            forall|q: int| 0 <= q < j ==> #[trigger] specs@[q].name@ != k@,
        decreases specs.len() - j,
    {
        if str_eq(specs[j].name.as_str(), k) {
            return true;
        }
        j += 1;
    }
    false
}

fn value_fits_type_exec(v: &ArgValue, t: &ArgType) -> (b: bool)
    ensures
        b == value_fits_type(v@, *t),
{
    match (v, t) {
        (ArgValue::Paths(_), ArgType::File { multiple, .. }) => *multiple,
        (ArgValue::Path(_), ArgType::File { multiple, .. }) => !*multiple,
        (ArgValue::Path(_), ArgType::Dir) => true,
        (ArgValue::Str(_), ArgType::Str) => true,
        (ArgValue::Str(_), ArgType::Text) => true,
        (ArgValue::Str(_), ArgType::Enum { .. }) => true,
        (ArgValue::Int(_), ArgType::Int { .. }) => true,
        (ArgValue::Float(_), ArgType::Float { .. }) => true,
        (ArgValue::Bool(_), ArgType::Bool) => true,
        _ => false,
    }
}

fn type_noun_exec(t: &ArgType) -> (s: String)
    ensures
        s@ == type_noun(*t),
{
    match t {
        ArgType::File { multiple, .. } => if *multiple {
            "a list of paths".to_owned()
        } else {
            "a path".to_owned()
        },
        ArgType::Dir => "a path".to_owned(),
        ArgType::Int { .. } => "a whole number".to_owned(),
        ArgType::Float { .. } => "a number".to_owned(),
        ArgType::Bool => "true or false".to_owned(),
        _ => "text".to_owned(),
    }
}

/// Whether `s` is one of `options`.
pub fn is_listed(options: &Vec<String>, s: &str) -> (b: bool)
    ensures
        b == exists|k: int| 0 <= k < options@.len() && #[trigger] options@[k]@ == s@,
{
    let mut k: usize = 0;
    while k < options.len()
        invariant
            k <= options@.len(),
            forall|q: int| 0 <= q < k ==> #[trigger] options@[q]@ != s@,
        decreases options.len() - k,
    {
        if str_eq(options[k].as_str(), s) {
            assert(options@[k as int]@ == s@);
            return true;
        }
        k += 1;
    }
    false
}

fn value_within_exec(v: &ArgValue, t: &ArgType) -> (b: bool)
    ensures
        b == value_within(v@, *t),
{
    match (v, t) {
        (ArgValue::Str(s), ArgType::Enum { options }) => is_listed(options, s.as_str()),
        (ArgValue::Int(x), ArgType::Int { range: Some(r), .. }) => r[0] <= *x && *x <= r[1],
        (ArgValue::Float(f), ArgType::Float { range: Some(r) }) => float_le(&r[0], f) && float_le(
            f,
            &r[1],
        ),
        _ => true,
    }
}

fn push_joined(out: &mut String, items: &Vec<String>, sep: &str)
    ensures
        final(out)@ == old(out)@ + joined(views(items@), sep@),
{
    let ghost vs = views(items@);
    if items.len() == 0 {
        assert(joined(vs, sep@) =~= Seq::<char>::empty());
        assert(out@ =~= old(out)@ + joined(vs, sep@));
        return;
    }
    push_str(out, items[0].as_str());
    assert(vs.take(1).len() == 1);
    assert(joined(vs.take(1), sep@) == vs[0]);
    let mut k: usize = 1;
    while k < items.len()
        invariant
            1 <= k <= items@.len(),
            vs == views(items@),
            out@ == old(out)@ + joined(vs.take(k as int), sep@),
        decreases items.len() - k,
    {
        push_str(out, sep);
        push_str(out, items[k].as_str());
        assert(vs.take(k + 1).drop_last() =~= vs.take(k as int));
        assert(vs.take(k + 1).last() == items@[k as int]@);
        assert(out@ =~= old(out)@ + joined(vs.take(k + 1), sep@));
        k += 1;
    }
    assert(vs.take(k as int) =~= vs);
}

fn constraint_message_exec(t: &ArgType) -> (s: String)
    ensures
        s@ == constraint_message(*t),
{
    let mut s = String::new();
    match t {
        ArgType::Enum { options } => {
            push_str(&mut s, "must be one of: ");
            push_joined(&mut s, options, ", ");
        },
        ArgType::Int { range: Some(r), .. } => {
            push_str(&mut s, "must be between ");
            let a = i64_to_string(r[0]);
            push_str(&mut s, a.as_str());
            push_str(&mut s, " and ");
            let b = i64_to_string(r[1]);
            push_str(&mut s, b.as_str());
        },
        ArgType::Float { range: Some(r) } => {
            push_str(&mut s, "must be between ");
            push_str(&mut s, r[0].text.as_str());
            push_str(&mut s, " and ");
            push_str(&mut s, r[1].text.as_str());
        },
        _ => {},
    }
    assert(s@ =~= constraint_message(*t));
    s
}

fn push_field_err(errors: &mut Vec<ValidationError>, field: String, message: String)
    ensures
        validation_error_views(final(errors)@) == validation_error_views(old(errors)@).push(
            (field@, message@),
        ),
{
    let ghost f = field@;
    let ghost m = message@;
    errors.push(ValidationError { field, message });
    assert(validation_error_views(errors@) =~= validation_error_views(old(errors)@).push((f, m)));
}

fn check_value(a: &ArgSpec, v: Option<&ArgValue>, errors: &mut Vec<ValidationError>)
    ensures
        validation_error_views(final(errors)@) == validation_error_views(old(errors)@)
            + value_errors(*a, match v { Some(x) => Some(x@), None => None }),
{
    let ghost before = validation_error_views(errors@);
    match v {
        None => {
            if a.required {
                push_field_err(errors, a.name.clone(), "a value is required".to_owned());
                proof {
                    reveal_strlit("a value is required");
                }
            }
        },
        Some(x) => {
            if !value_fits_type_exec(x, &a.arg_type) {
                let mut m = String::new();
                push_str(&mut m, "expected ");
                let noun = type_noun_exec(&a.arg_type);
                push_str(&mut m, noun.as_str());
                push_field_err(errors, a.name.clone(), m);
            } else if !value_within_exec(x, &a.arg_type) {
                push_field_err(errors, a.name.clone(), constraint_message_exec(&a.arg_type));
            }
        },
    }
    assert(validation_error_views(errors@) =~= before + value_errors(
        *a,
        match v {
            Some(x) => Some(x@),
            None => None,
        },
    ));
}

/// Checks the supplied values against a tool's argument specs. Defaults fill
/// the arguments that were not supplied; an argument hidden by its gate is
/// neither checked nor passed on. `Ok` holds the values of the visible
/// arguments; `Err` lists every problem: unknown names, then missing
/// required values, values of the wrong kind and values outside their
/// constraints.
pub fn validate_args(specs: &[ArgSpec], supplied: &ArgMap) -> (r: Result<
    ArgMap,
    Vec<ValidationError>,
>)
    ensures
        r is Ok <==> arg_errors(specs@, supplied@).len() == 0,
        r matches Ok(m) ==> m@ == effective_args(specs@, supplied@),
        r matches Err(e) ==> validation_error_views(e@) == arg_errors(specs@, supplied@),
{
    let mut filled = supplied.clone();
    let mut i: usize = 0;
    while i < specs.len()
        invariant
            i <= specs@.len(),
            filled@ == fill_defaults(specs@, supplied@, i as nat),
        decreases specs.len() - i,
    {
        match &specs[i].default {
            Some(d) => {
                if !filled.contains_key(specs[i].name.as_str()) {
                    filled.insert(specs[i].name.clone(), literal_to_value(d));
                }
            },
            None => {},
        }
        i += 1;
    }
    let flags = visibility_flags(specs, &filled);
    proof {
        lemma_visibility_len(specs@, filled@, specs@.len());
    }
    let mut errors: Vec<ValidationError> = Vec::new();
    assert(validation_error_views(errors@) =~= Seq::<(Seq<char>, Seq<char>)>::empty());
    let mut k: usize = 0;
    while k < supplied.len()
        invariant
            k <= supplied@.len(),
            validation_error_views(errors@) == unknown_errors_upto(specs@, supplied@, k as nat),
        decreases supplied@.len() - k,
    {
        let (name, _) = supplied.entry(k);
        let ghost before = validation_error_views(errors@);
        if !names_arg_exec(specs, name.as_str()) {
            push_field_err(&mut errors, name.clone(), "unknown argument".to_owned());
            proof {
                reveal_strlit("unknown argument");
            }
        }
        assert(validation_error_views(errors@) =~= unknown_errors_upto(specs@, supplied@, (k + 1) as nat));
        k += 1;
    }
    let ghost unknown = validation_error_views(errors@);
    let mut effective = ArgMap::new();
    let mut j: usize = 0;
    while j < specs.len()
        invariant
            j <= specs@.len(),
            flags@ == visibility(specs@, filled@, specs@.len()),
            flags@.len() == specs@.len(),
            validation_error_views(errors@) == unknown + spec_errors_upto(
                specs@,
                flags@,
                filled@,
                j as nat,
            ),
            effective@ == effective_upto(specs@, flags@, filled@, j as nat),
        decreases specs.len() - j,
    {
        if flags[j] {
            let v = filled.get(specs[j].name.as_str());
            let ghost before = validation_error_views(errors@);
            check_value(&specs[j], v, &mut errors);
            assert(validation_error_views(errors@) =~= unknown + spec_errors_upto(
                specs@,
                flags@,
                filled@,
                (j + 1) as nat,
            ));
            match v {
                Some(x) => {
                    effective.insert(specs[j].name.clone(), copy_value(x));
                },
                None => {},
            }
        } else {
            assert(validation_error_views(errors@) =~= unknown + spec_errors_upto(
                specs@,
                flags@,
                filled@,
                (j + 1) as nat,
            ));
        }
        j += 1;
    }
    if errors.len() == 0 {
        Ok(effective)
    } else {
        Err(errors)
    }
}

// ---------------------------------------------------------------------------
// Laws of visibility and validation

/// An argument without a gate is always visible.
pub proof fn law_ungated_always_visible(specs: Seq<ArgSpec>, m: Seq<(Seq<char>, ValueView)>, i: int)
    requires
        0 <= i < specs.len(),
        specs[i].when is None,
    ensures
        visibility(specs, m, specs.len())[i],
{
    lemma_visibility_len(specs, m, specs.len());
    lemma_visibility_len(specs, m, i as nat);
    lemma_visibility_prefix(specs, m, (i + 1) as nat, specs.len());
    let prev = visibility(specs, m, i as nat);
    assert(visibility(specs, m, (i + 1) as nat) == prev.push(visible_at(specs, prev, m, i)));
    assert(visibility(specs, m, (i + 1) as nat)[i] == visibility(specs, m, specs.len())[i]);
}

/// A visible gated argument names an earlier visible argument whose value
/// passes its gate.
pub proof fn law_visible_gate_has_visible_parent(
    specs: Seq<ArgSpec>,
    m: Seq<(Seq<char>, ValueView)>,
    i: int,
)
    requires
        0 <= i < specs.len(),
        visibility(specs, m, specs.len())[i],
        specs[i].when is Some,
    ensures
        exists|j: int|
            0 <= j < i && #[trigger] visibility(specs, m, specs.len())[j] && specs[j].name@
                == specs[i].when->Some_0.arg@,
        gate_holds(specs[i].when->Some_0, m),
{
    let full = visibility(specs, m, specs.len());
    lemma_visibility_len(specs, m, specs.len());
    lemma_visibility_len(specs, m, i as nat);
    lemma_visibility_prefix(specs, m, (i + 1) as nat, specs.len());
    lemma_visibility_prefix(specs, m, i as nat, specs.len());
    let prev = visibility(specs, m, i as nat);
    assert(visibility(specs, m, (i + 1) as nat) == prev.push(visible_at(specs, prev, m, i)));
    assert(visibility(specs, m, (i + 1) as nat)[i] == full[i]);
    assert(visible_at(specs, prev, m, i));
    let j = choose|j: int| 0 <= j < i && #[trigger] prev[j] && specs[j].name@ == specs[i].when->Some_0.arg@;
    assert(full[j] == prev[j]);
}

/// A presence condition (an empty value list, as `ArgSpecBuilder::when_set`
/// builds it): an argument behind one, whose controlling argument comes
/// earlier and is shown, is shown if and only if that argument is set.
pub proof fn law_presence_gate_is_presence(
    specs: Seq<ArgSpec>,
    m: Seq<(Seq<char>, ValueView)>,
    i: int,
    j: int,
)
    requires
        0 <= j < i < specs.len(),
        specs[i].when is Some,
        specs[i].when->Some_0.in_values@.len() == 0,
        specs[j].name@ == specs[i].when->Some_0.arg@,
        visibility(specs, m, specs.len())[j],
    ensures
        visibility(specs, m, specs.len())[i] <==> lookup(m, specs[i].when->Some_0.arg@) is Some,
{
    let full = visibility(specs, m, specs.len());
    lemma_visibility_len(specs, m, specs.len());
    lemma_visibility_len(specs, m, i as nat);
    lemma_visibility_prefix(specs, m, (i + 1) as nat, specs.len());
    lemma_visibility_prefix(specs, m, i as nat, specs.len());
    let prev = visibility(specs, m, i as nat);
    assert(visibility(specs, m, (i + 1) as nat) == prev.push(visible_at(specs, prev, m, i)));
    assert(visibility(specs, m, (i + 1) as nat)[i] == full[i]);
    assert(prev[j] == full[j]);
    assert(full[i] == visible_at(specs, prev, m, i));
}

proof fn lemma_spec_errors_empty(
    specs: Seq<ArgSpec>,
    flags: Seq<bool>,
    filled: Seq<(Seq<char>, ValueView)>,
    n: nat,
    i: int,
)
    requires
        spec_errors_upto(specs, flags, filled, n).len() == 0,
        0 <= i < n,
    ensures
        flags[i] ==> value_errors(specs[i], lookup(filled, specs[i].name@)).len() == 0,
    decreases n,
{
    if i < n - 1 {
        lemma_spec_errors_empty(specs, flags, filled, (n - 1) as nat, i);
    }
}

proof fn lemma_effective_sorted(
    specs: Seq<ArgSpec>,
    flags: Seq<bool>,
    filled: Seq<(Seq<char>, ValueView)>,
    n: nat,
)
    ensures
        sorted_keys(effective_upto(specs, flags, filled, n)),
    decreases n,
{
    if n > 0 {
        lemma_effective_sorted(specs, flags, filled, (n - 1) as nat);
        let p = effective_upto(specs, flags, filled, (n - 1) as nat);
        if flags[n - 1] {
            if let Some(v) = lookup(filled, specs[n - 1].name@) {
                lemma_map_insert(p, specs[n - 1].name@, v);
            }
        }
    }
}

proof fn lemma_effective_keeps(
    specs: Seq<ArgSpec>,
    flags: Seq<bool>,
    filled: Seq<(Seq<char>, ValueView)>,
    n: nat,
    i: int,
)
    requires
        0 <= i < n,
        flags[i],
        lookup(filled, specs[i].name@) is Some,
    ensures
        lookup(effective_upto(specs, flags, filled, n), specs[i].name@) is Some,
    decreases n,
{
    lemma_effective_sorted(specs, flags, filled, (n - 1) as nat);
    let p = effective_upto(specs, flags, filled, (n - 1) as nat);
    if i < n - 1 {
        lemma_effective_keeps(specs, flags, filled, (n - 1) as nat, i);
    }
    if flags[n - 1] {
        if let Some(v) = lookup(filled, specs[n - 1].name@) {
            lemma_map_insert(p, specs[n - 1].name@, v);
        }
    }
}

proof fn lemma_effective_only_visible(
    specs: Seq<ArgSpec>,
    flags: Seq<bool>,
    filled: Seq<(Seq<char>, ValueView)>,
    n: nat,
    k: Seq<char>,
)
    ensures
        lookup(effective_upto(specs, flags, filled, n), k) is Some ==> exists|i: int|
            0 <= i < n && #[trigger] flags[i] && specs[i].name@ == k,
    decreases n,
{
    if n > 0 {
        lemma_effective_sorted(specs, flags, filled, (n - 1) as nat);
        lemma_effective_only_visible(specs, flags, filled, (n - 1) as nat, k);
        let p = effective_upto(specs, flags, filled, (n - 1) as nat);
        if flags[n - 1] {
            if let Some(v) = lookup(filled, specs[n - 1].name@) {
                lemma_map_insert(p, specs[n - 1].name@, v);
            }
        }
        if lookup(effective_upto(specs, flags, filled, n), k) is Some {
            if specs[n - 1].name@ == k && flags[n - 1] {
                assert(flags[n - 1] && specs[n - 1].name@ == k);
            } else {
                let i = choose|i: int| 0 <= i < n - 1 && #[trigger] flags[i] && specs[i].name@ == k;
                assert(flags[i] && specs[i].name@ == k);
            }
        }
    }
}

/// Values that validate give every visible required argument a value in
/// what the tool runs with.
pub proof fn law_required_args_reach_the_run(
    specs: Seq<ArgSpec>,
    supplied: Seq<(Seq<char>, ValueView)>,
    i: int,
)
    requires
        arg_errors(specs, supplied).len() == 0,
        0 <= i < specs.len(),
        visibility(specs, filled_args(specs, supplied), specs.len())[i],
        specs[i].required,
    ensures
        lookup(effective_args(specs, supplied), specs[i].name@) is Some,
{
    let filled = filled_args(specs, supplied);
    let flags = visibility(specs, filled, specs.len());
    lemma_visibility_len(specs, filled, specs.len());
    lemma_spec_errors_empty(specs, flags, filled, specs.len(), i);
    lemma_effective_keeps(specs, flags, filled, specs.len(), i);
}

/// Only visible arguments reach the run: every name bound in what the tool
/// runs with is the name of a visible argument.
pub proof fn law_only_visible_args_reach_the_run(
    specs: Seq<ArgSpec>,
    supplied: Seq<(Seq<char>, ValueView)>,
    k: Seq<char>,
)
    ensures
        lookup(effective_args(specs, supplied), k) is Some ==> exists|i: int|
            0 <= i < specs.len() && #[trigger] visibility(
                specs,
                filled_args(specs, supplied),
                specs.len(),
            )[i] && specs[i].name@ == k,
{
    let filled = filled_args(specs, supplied);
    lemma_effective_only_visible(specs, visibility(specs, filled, specs.len()), filled, specs.len(), k);
}

/// A whole number outside its argument's range is refused: when a visible
/// argument with an integer range has a value below the low end or above
/// the high end, validation reports a problem.
pub proof fn law_int_outside_range_is_refused(
    specs: Seq<ArgSpec>,
    supplied: Seq<(Seq<char>, ValueView)>,
    i: int,
    x: i64,
)
    requires
        0 <= i < specs.len(),
        visibility(specs, filled_args(specs, supplied), specs.len())[i],
        lookup(filled_args(specs, supplied), specs[i].name@) == Some(ValueView::Int(x)),
        specs[i].arg_type matches ArgType::Int { range: Some(r), .. } && (x < r@[0] || x > r@[1]),
    ensures
        arg_errors(specs, supplied).len() > 0,
{
    let filled = filled_args(specs, supplied);
    let flags = visibility(specs, filled, specs.len());
    if arg_errors(specs, supplied).len() == 0 {
        lemma_visibility_len(specs, filled, specs.len());
        lemma_spec_errors_empty(specs, flags, filled, specs.len(), i);
        assert(value_errors(specs[i], Some(ValueView::Int(x))).len() == 0);
    }
}

/// A text value hides an argument behind a condition that lists only other
/// texts: a text satisfies a text literal only when the two are equal.
pub proof fn law_unlisted_text_hides(
    specs: Seq<ArgSpec>,
    m: Seq<(Seq<char>, ValueView)>,
    i: int,
    v: Seq<char>,
)
    requires
        0 <= i < specs.len(),
        specs[i].when is Some,
        lookup(m, specs[i].when->Some_0.arg@) == Some(ValueView::Str(v)),
        specs[i].when->Some_0.in_values@.len() > 0,
        forall|k: int|
            0 <= k < specs[i].when->Some_0.in_values@.len() ==> (#[trigger] specs[i].when->Some_0.in_values@[k]) is Str
                && specs[i].when->Some_0.in_values@[k]->Str_0@ != v,
    ensures
        !visibility(specs, m, specs.len())[i],
{
    let w = specs[i].when->Some_0;
    lemma_visibility_len(specs, m, specs.len());
    lemma_visibility_len(specs, m, i as nat);
    lemma_visibility_prefix(specs, m, (i + 1) as nat, specs.len());
    let prev = visibility(specs, m, i as nat);
    assert(visibility(specs, m, (i + 1) as nat) == prev.push(visible_at(specs, prev, m, i)));
    assert(visibility(specs, m, (i + 1) as nat)[i] == visibility(specs, m, specs.len())[i]);
    if passes(ValueView::Str(v), w) {
        let j = choose|j: int|
            0 <= j < w.in_values@.len() && satisfies(ValueView::Str(v), literal_view(#[trigger] w.in_values@[j]));
        assert(w.in_values@[j] is Str);
    }
}

/// A text value shows an argument behind a condition that lists it, once
/// the controlling argument is shown.
pub proof fn law_listed_text_shows(
    specs: Seq<ArgSpec>,
    m: Seq<(Seq<char>, ValueView)>,
    i: int,
    j: int,
    k: int,
    v: Seq<char>,
)
    requires
        0 <= j < i < specs.len(),
        specs[i].when is Some,
        specs[j].name@ == specs[i].when->Some_0.arg@,
        visibility(specs, m, specs.len())[j],
        lookup(m, specs[i].when->Some_0.arg@) == Some(ValueView::Str(v)),
        0 <= k < specs[i].when->Some_0.in_values@.len(),
        specs[i].when->Some_0.in_values@[k] is Str,
        specs[i].when->Some_0.in_values@[k]->Str_0@ == v,
    ensures
        visibility(specs, m, specs.len())[i],
{
    let w = specs[i].when->Some_0;
    lemma_visibility_len(specs, m, specs.len());
    lemma_visibility_len(specs, m, i as nat);
    lemma_visibility_prefix(specs, m, (i + 1) as nat, specs.len());
    lemma_visibility_prefix(specs, m, i as nat, specs.len());
    let prev = visibility(specs, m, i as nat);
    assert(visibility(specs, m, (i + 1) as nat) == prev.push(visible_at(specs, prev, m, i)));
    assert(visibility(specs, m, (i + 1) as nat)[i] == visibility(specs, m, specs.len())[i]);
    assert(prev[j] == visibility(specs, m, specs.len())[j]);
    assert(satisfies(ValueView::Str(v), literal_view(w.in_values@[k])));
}

/// A value meets a condition's literal exactly when it is the value the
/// literal stands for; floats compare as numbers.
pub proof fn law_literal_match_is_equality(v: ValueView, l: LiteralView)
    ensures
        !(v is Float) ==> (satisfies(v, l) <==> v == literal_value(l)),
        v is Float ==> (satisfies(v, l) <==> (l is Float && spec_float_eq(v->Float_0, l->Float_0))),
{
}

/// A text outside an enum argument's options is refused: when a visible
/// enum argument has a text that is none of its options, validation reports
/// a problem.
pub proof fn law_enum_outside_options_is_refused(
    specs: Seq<ArgSpec>,
    supplied: Seq<(Seq<char>, ValueView)>,
    i: int,
    s: Seq<char>,
)
    requires
        0 <= i < specs.len(),
        visibility(specs, filled_args(specs, supplied), specs.len())[i],
        lookup(filled_args(specs, supplied), specs[i].name@) == Some(ValueView::Str(s)),
        specs[i].arg_type is Enum,
        forall|k: int| 0 <= k < specs[i].arg_type->options@.len() ==> #[trigger] specs[i].arg_type->options@[k]@ != s,
    ensures
        arg_errors(specs, supplied).len() > 0,
{
    let filled = filled_args(specs, supplied);
    let flags = visibility(specs, filled, specs.len());
    if arg_errors(specs, supplied).len() == 0 {
        lemma_visibility_len(specs, filled, specs.len());
        lemma_spec_errors_empty(specs, flags, filled, specs.len(), i);
        assert(value_errors(specs[i], Some(ValueView::Str(s))).len() == 0);
    }
}

/// A number outside a float argument's range is refused: when a visible
/// float argument with a range has a value below the low end or above the
/// high end, validation reports a problem.
pub proof fn law_float_outside_range_is_refused(
    specs: Seq<ArgSpec>,
    supplied: Seq<(Seq<char>, ValueView)>,
    i: int,
    b: u64,
    t: Seq<char>,
)
    requires
        0 <= i < specs.len(),
        visibility(specs, filled_args(specs, supplied), specs.len())[i],
        lookup(filled_args(specs, supplied), specs[i].name@) == Some(ValueView::Float(b, t)),
        specs[i].arg_type matches ArgType::Float { range: Some(r) } && (spec_float_lt(b, r@[0].bits)
            || spec_float_lt(r@[1].bits, b)),
    ensures
        arg_errors(specs, supplied).len() > 0,
{
    let filled = filled_args(specs, supplied);
    let flags = visibility(specs, filled, specs.len());
    if arg_errors(specs, supplied).len() == 0 {
        lemma_visibility_len(specs, filled, specs.len());
        lemma_spec_errors_empty(specs, flags, filled, specs.len(), i);
        assert(value_errors(specs[i], Some(ValueView::Float(b, t))).len() == 0);
    }
}

} // verus!

//! Tool arguments that arrive as JSON (from the desktop front end, or over
//! D-Bus): a JSON object coerced into a typed argument map, guided by the
//! tool's argument specs.

use crate::args::{lemma_map_insert, lookup, map_insert, sorted_keys, ArgMap, ArgValue, ValueView};
use crate::descriptor::{ArgSpec, ArgType, Descriptor};
use crate::float::{copy_float, FloatNum};
use crate::text::{push_str, str_eq};
use vstd::prelude::*;

verus! {

/// A JSON value, as argument coercion reads it.
#[derive(Debug, PartialEq)]
pub enum JsonValue {
    Null,
    Bool(bool),
    /// A number: `int` is its value when it is an integer that fits an
    /// `i64`, `float` its value as a binary64.
    Number { int: Option<i64>, float: FloatNum },
    Str(String),
    Array(Vec<JsonValue>),
    /// The members of an object, in the order they are read.
    Object(Vec<JsonMember>),
}

/// One member of a JSON object.
#[derive(Debug, PartialEq)]
pub struct JsonMember {
    pub name: String,
    pub value: JsonValue,
}

/// The first spec named `name`.
pub open spec fn first_named(specs: Seq<ArgSpec>, name: Seq<char>) -> Option<ArgSpec>
    decreases specs.len(),
{
    if specs.len() == 0 {
        None
    } else if specs[0].name@ == name {
        Some(specs[0])
    } else {
        first_named(specs.drop_first(), name)
    }
}

/// Every item is a string.
pub open spec fn all_strings(items: Seq<JsonValue>) -> bool {
    forall|i: int| 0 <= i < items.len() ==> #[trigger] items[i] is Str
}

/// The texts of string items.
pub open spec fn strings_of(items: Seq<JsonValue>) -> Seq<Seq<char>> {
    Seq::new(items.len(), |i: int| items[i]->Str_0@)
}

/// The value a JSON value gives an argument named `name` of type `t`, or
/// the message saying what the argument must be.
pub open spec fn coerce_value(name: Seq<char>, t: ArgType, v: JsonValue) -> Result<ValueView, Seq<char>> {
    match t {
        ArgType::File { multiple: true, .. } => match v {
            JsonValue::Array(items) => if all_strings(items@) {
                Ok(ValueView::Paths(strings_of(items@)))
            } else {
                Err(name + " must be an array of path strings"@)
            },
            _ => Err(name + " must be an array of path strings"@),
        },
        ArgType::File { multiple: false, .. } | ArgType::Dir => match v {
            JsonValue::Str(s) => Ok(ValueView::Path(s@)),
            _ => Err(name + " must be a path string"@),
        },
        ArgType::Int { .. } => match v {
            JsonValue::Number { int: Some(i), .. } => Ok(ValueView::Int(i)),
            _ => Err(name + " must be an integer"@),
        },
        ArgType::Float { .. } => match v {
            JsonValue::Number { float, .. } => Ok(ValueView::Float(float.bits, float.text@)),
            _ => Err(name + " must be a number"@),
        },
        ArgType::Bool => match v {
            JsonValue::Bool(b) => Ok(ValueView::Bool(b)),
            _ => Err(name + " must be a boolean"@),
        },
        ArgType::Str | ArgType::Text | ArgType::Enum { .. } => match v {
            JsonValue::Str(s) => Ok(ValueView::Str(s@)),
            _ => Err(name + " must be a string"@),
        },
    }
}

/// The members coerced in order: the first problem met, or the map with
/// each member's value.
pub open spec fn coerce_members(specs: Seq<ArgSpec>, members: Seq<JsonMember>) -> Result<
    Seq<(Seq<char>, ValueView)>,
    Seq<char>,
>
    decreases members.len(),
{
    if members.len() == 0 {
        Ok(seq![])
    } else {
        match coerce_members(specs, members.drop_last()) {
            Err(e) => Err(e),
            Ok(m) => {
                let name = members.last().name@;
                match first_named(specs, name) {
                    None => Err("unknown argument: "@ + name),
                    Some(a) => match coerce_value(name, a.arg_type, members.last().value) {
                        Err(e) => Err(e),
                        Ok(x) => Ok(map_insert(m, name, x)),
                    },
                }
            },
        }
    }
}

/// The arguments a JSON value supplies: it must be an object, each member
/// must name an argument and hold a value of that argument's type.
pub open spec fn coerce_spec(specs: Seq<ArgSpec>, args: JsonValue) -> Result<
    Seq<(Seq<char>, ValueView)>,
    Seq<char>,
> {
    match args {
        JsonValue::Object(members) => coerce_members(specs, members@),
        _ => Err("tool arguments must be a JSON object"@),
    }
}

fn find_named<'a>(specs: &'a Vec<ArgSpec>, name: &str) -> (r: Option<&'a ArgSpec>)
    ensures
        r matches Some(a) ==> first_named(specs@, name@) == Some(*a),
        r is None ==> first_named(specs@, name@) is None,
{
    let mut k: usize = 0;
    assert(specs@.skip(0) =~= specs@);
    while k < specs.len()
        invariant
            k <= specs@.len(),
            first_named(specs@, name@) == first_named(specs@.skip(k as int), name@),
        decreases specs.len() - k,
    {
        let ghost t = specs@.skip(k as int);
        assert(t[0] == specs@[k as int]);
        if str_eq(specs[k].name.as_str(), name) {
            return Some(&specs[k]);
        }
        assert(t.drop_first() =~= specs@.skip(k + 1));
        k += 1;
    }
    None
}

fn must_be(name: &str, what: &str) -> (s: String)
    ensures
        s@ == name@ + what@,
{
    let mut s = String::new();
    push_str(&mut s, name);
    push_str(&mut s, what);
    s
}

fn path_strings(name: &str, items: &Vec<JsonValue>) -> (r: Result<Vec<String>, String>)
    ensures
        all_strings(items@) ==> (r matches Ok(p) && p@.len() == items@.len() && forall|i: int|
            0 <= i < p@.len() ==> #[trigger] p@[i]@ == strings_of(items@)[i]),
        !all_strings(items@) ==> (r matches Err(e) && e@ == name@ + " must be an array of path strings"@),
{
    let mut paths: Vec<String> = Vec::new();
    let mut k: usize = 0;
    while k < items.len()
        invariant
            k <= items@.len(),
            paths@.len() == k,
            forall|i: int| 0 <= i < k ==> #[trigger] items@[i] is Str,
            forall|i: int| 0 <= i < k ==> #[trigger] paths@[i]@ == strings_of(items@)[i],
        decreases items.len() - k,
    {
        match &items[k] {
            JsonValue::Str(s) => paths.push(s.clone()),
            _ => return Err(must_be(name, " must be an array of path strings")),
        }
        k += 1;
    }
    Ok(paths)
}

fn coerce_one(name: &str, t: &ArgType, v: &JsonValue) -> (r: Result<ArgValue, String>)
    ensures
        match (r, coerce_value(name@, *t, *v)) {
            (Ok(x), Ok(y)) => x@ == y,
            (Err(e), Err(f)) => e@ == f,
            _ => false,
        },
{
    match t {
        ArgType::File { multiple: true, .. } => match v {
            JsonValue::Array(items) => {
                let paths = path_strings(name, items)?;
                let ghost want = strings_of(items@);
                let r = ArgValue::Paths(paths);
                assert(r@ == ValueView::Paths(want)) by {
                    assert(crate::text::views(paths@) =~= want);
                }
                Ok(r)
            },
            _ => Err(must_be(name, " must be an array of path strings")),
        },
        ArgType::File { multiple: false, .. } | ArgType::Dir => match v {
            JsonValue::Str(s) => Ok(ArgValue::Path(s.clone())),
            _ => Err(must_be(name, " must be a path string")),
        },
        ArgType::Int { .. } => match v {
            JsonValue::Number { int: Some(i), .. } => Ok(ArgValue::Int(*i)),
            _ => Err(must_be(name, " must be an integer")),
        },
        ArgType::Float { .. } => match v {
            JsonValue::Number { float, .. } => Ok(ArgValue::Float(copy_float(float))),
            _ => Err(must_be(name, " must be a number")),
        },
        ArgType::Bool => match v {
            JsonValue::Bool(b) => Ok(ArgValue::Bool(*b)),
            _ => Err(must_be(name, " must be a boolean")),
        },
        ArgType::Str | ArgType::Text | ArgType::Enum { .. } => match v {
            JsonValue::Str(s) => Ok(ArgValue::Str(s.clone())),
            _ => Err(must_be(name, " must be a string")),
        },
    }
}

/// Coerces a JSON object into the tool's typed argument map: the members
/// are taken in order, and the first one that names no argument, or holds
/// a value of the wrong type, is the error.
pub fn coerce_json_args(descriptor: &Descriptor, args: &JsonValue) -> (r: Result<ArgMap, String>)
    ensures
        match (r, coerce_spec(descriptor.args@, *args)) {
            (Ok(m), Ok(s)) => m@ == s,
            (Err(e), Err(f)) => e@ == f,
            _ => false,
        },
{
    let members = match args {
        JsonValue::Object(members) => members,
        _ => return Err("tool arguments must be a JSON object".to_owned()),
    };
    let mut result = ArgMap::new();
    let mut k: usize = 0;
    assert(members@.take(0) =~= Seq::<JsonMember>::empty());
    while k < members.len()
        invariant
            k <= members@.len(),
            *args == JsonValue::Object(*members),
            coerce_members(descriptor.args@, members@.take(k as int)) == Ok::<
                Seq<(Seq<char>, ValueView)>,
                Seq<char>,
            >(result@),
        decreases members.len() - k,
    {
        let ghost before = members@.take(k as int);
        let ghost upto = members@.take(k + 1);
        assert(upto.drop_last() =~= before);
        assert(upto.last() == members@[k as int]);
        let name = &members[k].name;
        let value = &members[k].value;
        let spec = match find_named(&descriptor.args, name.as_str()) {
            Some(a) => a,
            None => {
                let mut msg = String::new();
                push_str(&mut msg, "unknown argument: ");
                push_str(&mut msg, name.as_str());
                proof {
                    lemma_error_stays(descriptor.args@, members@, k as int + 1);
                }
                assert(members@.take(members@.len() as int) =~= members@);
                return Err(msg);
            },
        };
        match coerce_one(name.as_str(), &spec.arg_type, value) {
            Ok(v) => {
                result.insert(name.clone(), v);
            },
            Err(e) => {
                proof {
                    lemma_error_stays(descriptor.args@, members@, k as int + 1);
                }
                assert(members@.take(members@.len() as int) =~= members@);
                return Err(e);
            },
        }
        k += 1;
    }
    assert(members@.take(k as int) =~= members@);
    Ok(result)
}

/// Once a prefix of the members fails, the whole list fails the same way.
proof fn lemma_error_stays(specs: Seq<ArgSpec>, members: Seq<JsonMember>, k: int)
    requires
        0 <= k <= members.len(),
        coerce_members(specs, members.take(k)) is Err,
    ensures
        coerce_members(specs, members.take(members.len() as int)) == coerce_members(
            specs,
            members.take(k),
        ),
    decreases members.len() - k,
{
    if k < members.len() {
        assert(members.take(k + 1).drop_last() =~= members.take(k));
        lemma_error_stays(specs, members, k + 1);
    }
}

/// The keys of coerced members are exactly their names, each naming an
/// argument of the tool.
proof fn lemma_coerced_keys(specs: Seq<ArgSpec>, members: Seq<JsonMember>, k: Seq<char>)
    requires
        coerce_members(specs, members) is Ok,
    ensures
        sorted_keys(coerce_members(specs, members)->Ok_0),
        lookup(coerce_members(specs, members)->Ok_0, k) is Some <==> exists|i: int|
            0 <= i < members.len() && (#[trigger] members[i]).name@ == k,
        lookup(coerce_members(specs, members)->Ok_0, k) is Some ==> first_named(specs, k) is Some,
    decreases members.len(),
{
    if members.len() > 0 {
        let init = members.drop_last();
        lemma_coerced_keys(specs, init, k);
        let m0 = coerce_members(specs, init)->Ok_0;
        let name = members.last().name@;
        let a = first_named(specs, name)->Some_0;
        let x = coerce_value(name, a.arg_type, members.last().value)->Ok_0;
        lemma_map_insert(m0, name, x);
        if exists|i: int| 0 <= i < members.len() && (#[trigger] members[i]).name@ == k {
            let i = choose|i: int| 0 <= i < members.len() && (#[trigger] members[i]).name@ == k;
            if i < members.len() - 1 {
                assert(init[i] == members[i]);
            }
        }
        if exists|i: int| 0 <= i < init.len() && (#[trigger] init[i]).name@ == k {
            let i = choose|i: int| 0 <= i < init.len() && (#[trigger] init[i]).name@ == k;
            assert(members[i] == init[i]);
        }
        assert(members[members.len() - 1] == members.last());
    }
}

/// Coerced JSON arguments hold a value under a name exactly when a member
/// of the object has that name, and every such name is an argument of the
/// tool.
pub proof fn law_coerced_keys_are_member_names(specs: Seq<ArgSpec>, args: JsonValue, k: Seq<char>)
    requires
        coerce_spec(specs, args) is Ok,
    ensures
        args is Object,
        lookup(coerce_spec(specs, args)->Ok_0, k) is Some <==> exists|i: int|
            0 <= i < args->Object_0@.len() && (#[trigger] args->Object_0@[i]).name@ == k,
        lookup(coerce_spec(specs, args)->Ok_0, k) is Some ==> first_named(specs, k) is Some,
{
    lemma_coerced_keys(specs, args->Object_0@, k);
}

/// For a `Float` argument every JSON number coerces to that number,
/// integer-valued or not.
pub proof fn law_every_number_fits_a_float(
    name: Seq<char>,
    range: Option<[FloatNum; 2]>,
    whole: Option<i64>,
    float: FloatNum,
)
    ensures
        coerce_value(name, ArgType::Float { range }, JsonValue::Number { int: whole, float }) == Ok::<
            ValueView,
            Seq<char>,
        >(ValueView::Float(float.bits, float.text@)),
{
}

/// A JSON value that has the argument's kind coerces to that same value: an
/// integer for a whole-number argument, a boolean for a switch, a string for
/// a text, enum or single path argument.
pub proof fn law_matching_kinds_coerce_to_themselves(name: Seq<char>, t: ArgType, v: JsonValue)
    ensures
        v is Number && v->Number_int is Some && t is Int ==> coerce_value(name, t, v) == Ok::<
            ValueView,
            Seq<char>,
        >(ValueView::Int(v->Number_int->Some_0)),
        v is Bool && t is Bool ==> coerce_value(name, t, v) == Ok::<ValueView, Seq<char>>(
            ValueView::Bool(v->Bool_0),
        ),
        v is Str && (t is Str || t is Text || t is Enum) ==> coerce_value(name, t, v) == Ok::<
            ValueView,
            Seq<char>,
        >(ValueView::Str(v->Str_0@)),
        v is Str && (t is Dir || (t is File && !t->multiple)) ==> coerce_value(name, t, v) == Ok::<
            ValueView,
            Seq<char>,
        >(ValueView::Path(v->Str_0@)),
{
}

} // verus!

//! The one-shot command line: the shape a tool takes on it, its help
//! text, parsing the tokens after the tool's id, and how an outcome is
//! printed and what the process exits with.

use crate::args::{copy_value, joined, literal_view, lookup, map_insert, ArgMap, ArgValue, ValueView};
use crate::command::{all_digits, digits_value, is_digit, lemma_digits_value_prefix};
use crate::float::FloatNum;
use crate::descriptor::{ArgSpec, ArgType, Descriptor};
use crate::outcome::{OutcomeView, ToolOutcome};
use crate::text::{
    chars_of, copy_strings, dec_int, dec_nat, digit_char, find_char_from, find_from, lemma_find_from, push_str, str_eq,
    string_from, views,
};
use crate::validate::{debug_escape, literal_debug, push_debug_escaped, push_literal_debug};
use vstd::prelude::*;

verus! {

// ---------------------------------------------------------------------------
// The surface of a tool

/// A `--flag` derived from an argument.
#[derive(Debug)]
pub struct FlagSpec<'a> {
    pub spec: &'a ArgSpec,
    /// `false` only for a `Bool` argument (a bare `--flag`).
    pub takes_value: bool,
}

/// The command-line shape of one tool: at most one positional argument,
/// every other argument a flag.
#[derive(Debug)]
pub struct CliSurface<'a> {
    pub positional: Option<&'a ArgSpec>,
    pub flags: Vec<FlagSpec<'a>>,
}

/// The argument that becomes the positional one: a required file or
/// directory argument.
pub open spec fn is_positional_kind(a: ArgSpec) -> bool {
    a.required && (a.arg_type is File || a.arg_type is Dir)
}

/// The index of the first argument that can be positional.
pub open spec fn positional_index(args: Seq<ArgSpec>) -> Option<int>
    decreases args.len(),
{
    if args.len() == 0 {
        None
    } else if is_positional_kind(args[0]) {
        Some(0)
    } else {
        match positional_index(args.drop_first()) {
            Some(i) => Some(i + 1),
            None => None,
        }
    }
}

/// The indices of the arguments that become flags: all but the positional
/// one, in order.
pub open spec fn flag_indices(args: Seq<ArgSpec>) -> Seq<int> {
    let all = Seq::new(args.len(), |i: int| i);
    match positional_index(args) {
        Some(p) => all.remove(p),
        None => all,
    }
}

proof fn lemma_positional_index(args: Seq<ArgSpec>)
    ensures
        positional_index(args) matches Some(p) ==> 0 <= p < args.len() && is_positional_kind(args[p])
            && forall|j: int| 0 <= j < p ==> !is_positional_kind(#[trigger] args[j]),
        positional_index(args) is None ==> forall|j: int| 0 <= j < args.len() ==> !is_positional_kind(#[trigger] args[j]),
    decreases args.len(),
{
    if args.len() > 0 {
        lemma_positional_index(args.drop_first());
        assert forall|j: int| 0 < j < args.len() implies args[j] == args.drop_first()[j - 1] by {}
    }
}

/// `s` is the surface of `d`: its first required file or directory
/// argument positional, every other argument a flag in order, taking a
/// value unless it is a `Bool`.
pub open spec fn is_surface_of(s: CliSurface, d: Descriptor) -> bool {
    &&& match positional_index(d.args@) {
        Some(p) => s.positional matches Some(a) && *a == d.args@[p],
        None => s.positional is None,
    }
    &&& s.flags@.len() == flag_indices(d.args@).len()
    &&& forall|k: int| 0 <= k < s.flags@.len() ==> *(#[trigger] s.flags@[k]).spec == d.args@[flag_indices(d.args@)[k]]
        && s.flags@[k].takes_value == !(s.flags@[k].spec.arg_type is Bool)
}

impl<'a> CliSurface<'a> {
    /// The surface of `descriptor`: the first required file or directory
    /// argument is positional; every other argument is a flag, which takes
    /// a value unless it is a `Bool`.
    pub fn from_descriptor(descriptor: &'a Descriptor) -> (s: Self)
        ensures
            is_surface_of(s, *descriptor),
    {
        let args = &descriptor.args;
        proof {
            lemma_positional_index(args@);
        }
        let mut pos: Option<usize> = None;
        let mut i: usize = 0;
        while i < args.len()
            invariant
                i <= args@.len(),
                pos is None ==> forall|j: int| 0 <= j < i ==> !is_positional_kind(#[trigger] args@[j]),
                pos matches Some(p) ==> positional_index(args@) == Some(p as int),
            decreases args.len() - i,
        {
            proof {
                lemma_positional_index(args@);
            }
            if pos.is_none() {
                let a = &args[i];
                let kind = match a.arg_type {
                    ArgType::File { .. } => true,
                    ArgType::Dir => true,
                    _ => false,
                };
                if a.required && kind {
                    pos = Some(i);
                    proof {
                        if let Some(q) = positional_index(args@) {
                            assert(q == i);
                        }
                    }
                }
            }
            i += 1;
        }
        let ghost fl = flag_indices(args@);
        let mut flags: Vec<FlagSpec<'a>> = Vec::new();
        let mut j: usize = 0;
        while j < args.len()
            invariant
                j <= args@.len(),
                fl == flag_indices(args@),
                pos matches Some(p) ==> positional_index(args@) == Some(p as int) && p < args@.len(),
                pos is None ==> positional_index(args@) is None,
                flags@.len() == (match pos {
                    Some(p) => if j > p { j - 1 } else { j as int },
                    None => j as int,
                }),
                forall|k: int| 0 <= k < flags@.len() ==> *(#[trigger] flags@[k]).spec == args@[fl[k]]
                    && flags@[k].takes_value == !(flags@[k].spec.arg_type is Bool),
            decreases args.len() - j,
        {
            let skip = match pos {
                Some(p) => p == j,
                None => false,
            };
            if !skip {
                let takes_value = match args[j].arg_type {
                    ArgType::Bool => false,
                    _ => true,
                };
                let ghost n: int = flags@.len() as int;
                flags.push(FlagSpec { spec: &args[j], takes_value });
                proof {
                    let all = Seq::new(args@.len(), |q: int| q);
                    match pos {
                        Some(p) => {
                            assert(fl == all.subrange(0, p as int) + all.subrange(p + 1, args@.len() as int));
                            if j < p {
                                assert(fl[n] == all.subrange(0, p as int)[n]);
                            } else {
                                assert(fl[n] == all.subrange(p + 1, args@.len() as int)[n - p]);
                            }
                            assert(fl[n] == j);
                        },
                        None => {
                            assert(fl == all);
                            assert(fl[n] == j);
                        },
                    }
                }
            }
            j += 1;
        }
        let positional = match pos {
            Some(p) => Some(&args[p]),
            None => None,
        };
        CliSurface { positional, flags }
    }
}

// ---------------------------------------------------------------------------
// Help text

/// `str::to_uppercase` of `s`.
pub uninterp spec fn upper_text(s: Seq<char>) -> Seq<char>;

/// Calls `str::to_uppercase`; the contract names the result.
#[verifier::external_body]
fn to_upper(s: &str) -> (r: String)
    ensures
        r@ == upper_text(s@),
{
    s.to_uppercase()
}

/// The placeholder shown after a flag for the value it takes.
pub open spec fn type_hint(t: ArgType) -> Seq<char> {
    match t {
        ArgType::File { .. } => "<path>"@,
        ArgType::Dir => "<dir>"@,
        ArgType::Int { .. } => "<number>"@,
        ArgType::Float { .. } => "<number>"@,
        ArgType::Bool => ""@,
        ArgType::Enum { .. } => "<choice>"@,
        _ => "<text>"@,
    }
}

fn type_hint_exec(t: &ArgType) -> (r: &'static str)
    ensures
        r@ == type_hint(*t),
{
    match t {
        ArgType::File { .. } => "<path>",
        ArgType::Dir => "<dir>",
        ArgType::Int { .. } => "<number>",
        ArgType::Float { .. } => "<number>",
        ArgType::Bool => "",
        ArgType::Enum { .. } => "<choice>",
        _ => "<text>",
    }
}

/// `--name`, followed by the value placeholder when the flag takes one.
pub open spec fn flag_lead(a: ArgSpec) -> Seq<char> {
    if type_hint(a.arg_type).len() == 0 {
        "--"@ + a.name@
    } else {
        "--"@ + a.name@ + " "@ + type_hint(a.arg_type)
    }
}

/// The notes after a flag: required or optional, its default, its choices.
pub open spec fn flag_notes(a: ArgSpec) -> Seq<Seq<char>> {
    seq![if a.required { "required"@ } else { "optional"@ }] + (match a.default {
        Some(d) => seq!["default "@ + literal_debug(literal_view(d))],
        None => seq![],
    }) + (match a.arg_type {
        ArgType::Enum { options } => seq!["one of: "@ + joined(views(options@), ", "@)],
        _ => seq![],
    })
}

/// The help lines of one flag.
pub open spec fn flag_block(a: ArgSpec) -> Seq<char> {
    "  "@ + flag_lead(a) + "  ("@ + joined(flag_notes(a), ", "@) + ")\n"@ + match a.help {
        Some(h) => "      "@ + h@ + "\n"@,
        None => ""@,
    }
}

/// The help lines of the flags at `idx`, in order.
pub open spec fn flags_block(args: Seq<ArgSpec>, idx: Seq<int>) -> Seq<char>
    decreases idx.len(),
{
    if idx.len() == 0 {
        seq![]
    } else {
        flags_block(args, idx.drop_last()) + flag_block(args[idx.last()])
    }
}

/// The body printed for `wield <id> --help`.
pub open spec fn help_spec(d: Descriptor) -> Seq<char> {
    let id = d.id@;
    let head = id + " \u{2014} "@ + d.title@ + "\n\n"@;
    let usage = match positional_index(d.args@) {
        Some(p) => "Usage: wield "@ + id + " <"@ + upper_text(d.args@[p].name@) + "> [options]\n"@,
        None => "Usage: wield "@ + id + " [options]\n"@,
    };
    let arguments = match positional_index(d.args@) {
        Some(p) => "\nArguments:\n  <"@ + upper_text(d.args@[p].name@) + ">  "@ + d.args@[p].label@
            + "\n"@,
        None => ""@,
    };
    let fl = flag_indices(d.args@);
    let options = if fl.len() == 0 {
        ""@
    } else {
        "\nOptions:\n"@ + flags_block(d.args@, fl)
    };
    head + usage + arguments + options
}

fn push_joined_texts(out: &mut String, items: &Vec<String>, sep: &str)
    ensures
        final(out)@ == old(out)@ + joined(views(items@), sep@),
{
    let ghost vs = views(items@);
    if items.len() == 0 {
        assert(joined(vs, sep@) =~= Seq::<char>::empty());
        assert(out@ =~= old(out)@ + joined(vs, sep@));
        return;
    }
    push_str(out, items[0].as_str());
    assert(vs.take(1).len() == 1);
    let mut k: usize = 1;
    while k < items.len()
        invariant
            1 <= k <= items@.len(),
            vs == views(items@),
            out@ == old(out)@ + joined(vs.take(k as int), sep@),
        decreases items.len() - k,
    {
        push_str(out, sep);
        push_str(out, items[k].as_str());
        assert(vs.take(k + 1).drop_last() =~= vs.take(k as int));
        assert(vs.take(k + 1).last() == items@[k as int]@);
        assert(out@ =~= old(out)@ + joined(vs.take(k + 1), sep@));
        k += 1;
    }
    assert(vs.take(k as int) =~= vs);
}

fn push_flag_block(out: &mut String, a: &ArgSpec)
    ensures
        final(out)@ == old(out)@ + flag_block(*a),
{
    let mut notes: Vec<String> = Vec::new();
    if a.required {
        notes.push("required".to_owned());
    } else {
        notes.push("optional".to_owned());
    }
    match &a.default {
        Some(d) => {
            let mut n = String::new();
            push_str(&mut n, "default ");
            push_literal_debug(&mut n, d);
            notes.push(n);
        },
        None => {},
    }
    match &a.arg_type {
        ArgType::Enum { options } => {
            let mut n = String::new();
            push_str(&mut n, "one of: ");
            push_joined_texts(&mut n, options, ", ");
            notes.push(n);
        },
        _ => {},
    }
    assert(views(notes@) =~= flag_notes(*a));
    push_str(out, "  ");
    push_str(out, "--");
    push_str(out, a.name.as_str());
    let hint = type_hint_exec(&a.arg_type);
    if !hint.is_empty() {
        push_str(out, " ");
        push_str(out, hint);
    }
    push_str(out, "  (");
    push_joined_texts(out, &notes, ", ");
    push_str(out, ")\n");
    match &a.help {
        Some(h) => {
            push_str(out, "      ");
            push_str(out, h.as_str());
            push_str(out, "\n");
        },
        None => {},
    }
    proof {
        reveal_strlit("");
    }
    assert(out@ =~= old(out)@ + flag_block(*a));
}

/// The body printed for `wield <id> --help`: the id and title, the usage
/// line, the positional argument and each flag with its notes and help.
pub fn help_text(descriptor: &Descriptor) -> (s: String)
    ensures
        s@ == help_spec(*descriptor),
{
    let surface = CliSurface::from_descriptor(descriptor);
    let id = descriptor.id.as_str();
    let mut out = String::new();
    push_str(&mut out, id);
    push_str(&mut out, " \u{2014} ");
    push_str(&mut out, descriptor.title.as_str());
    push_str(&mut out, "\n\n");
    match surface.positional {
        Some(p) => {
            let up = to_upper(p.name.as_str());
            push_str(&mut out, "Usage: wield ");
            push_str(&mut out, id);
            push_str(&mut out, " <");
            push_str(&mut out, up.as_str());
            push_str(&mut out, "> [options]\n");
            push_str(&mut out, "\nArguments:\n  <");
            push_str(&mut out, up.as_str());
            push_str(&mut out, ">  ");
            push_str(&mut out, p.label.as_str());
            push_str(&mut out, "\n");
        },
        None => {
            push_str(&mut out, "Usage: wield ");
            push_str(&mut out, id);
            push_str(&mut out, " [options]\n");
        },
    }
    let ghost fl = flag_indices(descriptor.args@);
    let ghost before = out@;
    if surface.flags.len() != 0 {
        push_str(&mut out, "\nOptions:\n");
        let ghost start = out@;
        let mut k: usize = 0;
        while k < surface.flags.len()
            invariant
                k <= surface.flags@.len(),
                fl == flag_indices(descriptor.args@),
                surface.flags@.len() == fl.len(),
                forall|q: int| 0 <= q < surface.flags@.len() ==> *(#[trigger] surface.flags@[q]).spec == descriptor.args@[fl[q]],
                out@ == start + flags_block(descriptor.args@, fl.take(k as int)),
            decreases surface.flags.len() - k,
        {
            push_flag_block(&mut out, surface.flags[k].spec);
            assert(fl.take(k + 1).drop_last() =~= fl.take(k as int));
            assert(fl.take(k + 1).last() == fl[k as int]);
            assert(out@ =~= start + flags_block(descriptor.args@, fl.take(k + 1)));
            k += 1;
        }
        assert(fl.take(k as int) =~= fl);
    }
    proof {
        reveal_strlit("");
    }
    assert(out@ =~= help_spec(*descriptor));
    out
}

// ---------------------------------------------------------------------------
// Printing an outcome

/// What the process prints and exits with.
#[derive(Debug)]
pub struct Rendered {
    pub stdout: String,
    pub stderr: String,
    pub code: i32,
}

/// A message followed, when there is one, by its fix on an indented line.
pub open spec fn with_fix_text(message: Seq<char>, fix: Option<Seq<char>>) -> Seq<char> {
    match fix {
        Some(f) => message + "\n  \u{2192} "@ + f,
        None => message,
    }
}

/// A message followed, when there is one, by its fix.
pub fn with_fix(message: &str, fix: Option<&str>) -> (s: String)
    ensures
        s@ == with_fix_text(
            message@,
            match fix {
                Some(f) => Some(f@),
                None => None,
            },
        ),
{
    let mut s = String::new();
    push_str(&mut s, message);
    match fix {
        Some(f) => {
            push_str(&mut s, "\n  \u{2192} ");
            push_str(&mut s, f);
        },
        None => {},
    }
    s
}

/// The stdout text, stderr text and exit code of an outcome: a value, a
/// file or a report on stdout with code 0; an unavailable or failed run on
/// stderr, with its fix or hint, with code 1; a cancelled run silent with
/// code 130.
pub open spec fn render_spec(o: OutcomeView) -> (Seq<char>, Seq<char>, i32) {
    match o {
        OutcomeView::Value { data, .. } => (data, seq![], 0),
        OutcomeView::File { path } => (path, seq![], 0),
        OutcomeView::Report { title, lines } => (joined(seq![title] + lines, "\n"@), seq![], 0),
        OutcomeView::Unavailable { reason, fix } => (seq![], with_fix_text(reason, fix), 1),
        OutcomeView::Failed { detail, hint, .. } => (seq![], with_fix_text(detail, hint), 1),
        OutcomeView::Cancelled => (seq![], seq![], 130),
    }
}

fn opt_str(o: &Option<String>) -> (r: Option<&str>)
    ensures
        match (r, *o) {
            (Some(a), Some(b)) => a@ == b@,
            (None, None) => true,
            _ => false,
        },
{
    match o {
        Some(s) => Some(s.as_str()),
        None => None,
    }
}

/// How an outcome is printed, and the exit code.
pub fn render(outcome: ToolOutcome) -> (r: Rendered)
    ensures
        (r.stdout@, r.stderr@, r.code) == render_spec(outcome@),
{
    let ghost v = outcome@;
    match outcome {
        ToolOutcome::Value { data, .. } => Rendered { stdout: data, stderr: String::new(), code: 0 },
        ToolOutcome::File { path } => Rendered { stdout: path, stderr: String::new(), code: 0 },
        ToolOutcome::Report { title, lines } => {
            let mut all: Vec<String> = Vec::new();
            all.push(title);
            let mut i: usize = 0;
            while i < lines.len()
                invariant
                    i <= lines@.len(),
                    all@.len() == i + 1,
                    v matches OutcomeView::Report { title: t, lines: ls } && ls == views(lines@) && all@[0]@ == t,
                    forall|q: int| 0 <= q < i ==> #[trigger] all@[q + 1]@ == lines@[q]@,
                decreases lines.len() - i,
            {
                all.push(lines[i].clone());
                i += 1;
            }
            let mut out = String::new();
            push_joined_texts(&mut out, &all, "\n");
            proof {
                if let OutcomeView::Report { title: t, lines: ls } = v {
                    assert forall|j: int| 0 <= j < views(all@).len() implies #[trigger] views(all@)[j] == (seq![t] + ls)[j] by {
                        if j > 0 {
                            assert(all@[(j - 1) + 1]@ == lines@[j - 1]@);
                        }
                    }
                    assert(views(all@) =~= seq![t] + ls);
                }
            }
            Rendered { stdout: out, stderr: String::new(), code: 0 }
        },
        ToolOutcome::Unavailable { reason, fix } => {
            let text = with_fix(reason.as_str(), opt_str(&fix));
            Rendered { stdout: String::new(), stderr: text, code: 1 }
        },
        ToolOutcome::Failed { detail, hint, .. } => {
            let text = with_fix(detail.as_str(), opt_str(&hint));
            Rendered { stdout: String::new(), stderr: text, code: 1 }
        },
        ToolOutcome::Cancelled => Rendered { stdout: String::new(), stderr: String::new(), code: 130 },
    }
}

// ---------------------------------------------------------------------------
// Parsing the tokens after the tool's id

/// A malformed command line, with its message.
#[derive(Debug, PartialEq)]
pub struct UsageError(pub String);

/// `i64::from_str`: an optional sign, then one or more decimal digits,
/// within the range of `i64`.
pub open spec fn parse_i64(s: Seq<char>) -> Option<i64> {
    let neg = s.len() > 0 && s[0] == '-';
    let d = if s.len() > 0 && (s[0] == '-' || s[0] == '+') {
        s.drop_first()
    } else {
        s
    };
    if d.len() > 0 && all_digits(d) {
        let v = if neg {
            -digits_value(d)
        } else {
            digits_value(d)
        };
        if i64::MIN <= v && v <= i64::MAX {
            Some(v as i64)
        } else {
            None
        }
    } else {
        None
    }
}

/// `i64::from_str`.
pub fn parse_i64_exec(s: &str) -> (r: Option<i64>)
    ensures
        r == parse_i64(s@),
{
    let c = chars_of(s);
    let neg = c.len() > 0 && c[0] == '-';
    let start: usize = if c.len() > 0 && (c[0] == '-' || c[0] == '+') { 1 } else { 0 };
    let ghost d = if s@.len() > 0 && (s@[0] == '-' || s@[0] == '+') {
        s@.drop_first()
    } else {
        s@
    };
    assert(d =~= c@.skip(start as int));
    if start >= c.len() {
        return None;
    }
    let mut acc: u128 = 0;
    let mut i: usize = start;
    while i < c.len()
        invariant
            start <= i <= c@.len(),
            c@ == s@,
            d == (if s@.len() > 0 && (s@[0] == '-' || s@[0] == '+') {
                s@.drop_first()
            } else {
                s@
            }),
            d == c@.skip(start as int),
            all_digits(d.take(i - start)),
            acc as int == digits_value(d.take(i - start)),
            acc <= 0x8000_0000_0000_0000,
        decreases c.len() - i,
    {
        let ch = c[i];
        assert(d[i - start] == ch);
        if !('0' <= ch && ch <= '9') {
            assert(!all_digits(d));
            return None;
        }
        let dv: u128 = (ch as u32 - '0' as u32) as u128;
        assert(d.take(i - start + 1).drop_last() =~= d.take(i - start));
        assert(d.take(i - start + 1).last() == ch);
        acc = acc * 10 + dv;
        assert(all_digits(d.take(i - start + 1)));
        if acc > 0x8000_0000_0000_0000 {
            proof {
                if all_digits(d) {
                    lemma_digits_value_prefix(d, i - start + 1);
                }
            }
            return None;
        }
        i += 1;
    }
    assert(d.take(c@.len() - start) =~= d);
    if neg {
        if acc == 0x8000_0000_0000_0000 {
            Some(i64::MIN)
        } else {
            Some(-(acc as i64))
        }
    } else {
        if acc > 0x7fff_ffff_ffff_ffff {
            None
        } else {
            Some(acc as i64)
        }
    }
}

/// The text `{raw:?}` writes for a string: quoted and escaped.
pub open spec fn quoted(raw: Seq<char>) -> Seq<char> {
    "\""@ + debug_escape(raw) + "\""@
}

/// The value of a float parser's result.
pub open spec fn float_result(r: Option<FloatNum>) -> Option<(u64, Seq<char>)> {
    match r {
        Some(f) => Some((f.bits, f.text@)),
        None => None,
    }
}

/// What `parse_float` gives for text `s`.
pub open spec fn float_reading<F: Fn(&str) -> Option<FloatNum>>(parse_float: F, s: Seq<char>) -> Option<
    (u64, Seq<char>),
> {
    float_result(
        (choose|r: Option<FloatNum>, x: &str| #[trigger] call_ensures(parse_float, (x,), r) && x@ == s).0,
    )
}

/// `parse_float` answers the same for the same text.
pub open spec fn deterministic<F: Fn(&str) -> Option<FloatNum>>(parse_float: F) -> bool {
    forall|x: &str, y: &str, r1: Option<FloatNum>, r2: Option<FloatNum>|
        x@ == y@ && #[trigger] call_ensures(parse_float, (x,), r1) && #[trigger] call_ensures(parse_float, (y,), r2)
            ==> float_result(r1) == float_result(r2)
}

/// The value `raw` gives an argument of type `t`, or the usage error.
pub open spec fn coerce_spec<F: Fn(&str) -> Option<FloatNum>>(
    name: Seq<char>,
    t: ArgType,
    raw: Seq<char>,
    parse_float: F,
) -> Result<ValueView, Seq<char>> {
    match t {
        ArgType::File { .. } => Ok(ValueView::Path(raw)),
        ArgType::Dir => Ok(ValueView::Path(raw)),
        ArgType::Int { .. } => match parse_i64(raw) {
            Some(v) => Ok(ValueView::Int(v)),
            None => Err("--"@ + name + " expects a whole number, got "@ + quoted(raw)),
        },
        ArgType::Float { .. } => match float_reading(parse_float, raw) {
            Some((b, text)) => Ok(ValueView::Float(b, text)),
            None => Err("--"@ + name + " expects a number, got "@ + quoted(raw)),
        },
        ArgType::Bool => Ok(ValueView::Bool(true)),
        _ => Ok(ValueView::Str(raw)),
    }
}

fn push_quoted(out: &mut String, raw: &str)
    ensures
        final(out)@ == old(out)@ + quoted(raw@),
{
    push_str(out, "\"");
    push_debug_escaped(out, raw);
    push_str(out, "\"");
}

fn coerce<F: Fn(&str) -> Option<FloatNum>>(name: &str, t: &ArgType, raw: &str, parse_float: &F) -> (r:
    Result<ArgValue, UsageError>)
    requires
        forall|x: &str| call_requires(*parse_float, (x,)),
        deterministic(*parse_float),
    ensures
        match (r, coerce_spec(name@, *t, raw@, *parse_float)) {
            (Ok(v), Ok(w)) => v@ == w,
            (Err(e), Err(m)) => e.0@ == m,
            _ => false,
        },
{
    match t {
        ArgType::File { .. } => Ok(ArgValue::Path(raw.to_owned())),
        ArgType::Dir => Ok(ArgValue::Path(raw.to_owned())),
        ArgType::Int { .. } => match parse_i64_exec(raw) {
            Some(v) => Ok(ArgValue::Int(v)),
            None => {
                let mut m = String::new();
                push_str(&mut m, "--");
                push_str(&mut m, name);
                push_str(&mut m, " expects a whole number, got ");
                push_quoted(&mut m, raw);
                Err(UsageError(m))
            },
        },
        ArgType::Float { .. } => {
            let r = parse_float(raw);
            proof {
                assert(call_ensures(*parse_float, (raw,), r) && raw@ == raw@);
                let (c, x) = choose|c: Option<FloatNum>, x: &str| #[trigger] call_ensures(*parse_float, (x,), c) && x@ == raw@;
                assert(float_result(c) == float_result(r));
            }
            match r {
                Some(f) => Ok(ArgValue::Float(f)),
                None => {
                    let mut m = String::new();
                    push_str(&mut m, "--");
                    push_str(&mut m, name);
                    push_str(&mut m, " expects a number, got ");
                    push_quoted(&mut m, raw);
                    Err(UsageError(m))
                },
            }
        },
        ArgType::Bool => Ok(ArgValue::Bool(true)),
        _ => Ok(ArgValue::Str(raw.to_owned())),
    }
}

/// The state of parsing: the values so far, the paths gathered for each
/// multi-file argument (as lists of paths), and whether the positional
/// argument was given.
pub type ParseState = (Seq<(Seq<char>, ValueView)>, Seq<(Seq<char>, ValueView)>, bool);

/// `path` added to the paths gathered for `name`.
pub open spec fn multi_push(multi: Seq<(Seq<char>, ValueView)>, name: Seq<char>, path: Seq<char>) -> Seq<
    (Seq<char>, ValueView),
> {
    match lookup(multi, name) {
        Some(ValueView::Paths(ps)) => map_insert(multi, name, ValueView::Paths(ps.push(path))),
        _ => map_insert(multi, name, ValueView::Paths(seq![path])),
    }
}

/// The gathered lists of paths bound into `map`, in name order.
pub open spec fn merge(map: Seq<(Seq<char>, ValueView)>, multi: Seq<(Seq<char>, ValueView)>) -> Seq<
    (Seq<char>, ValueView),
>
    decreases multi.len(),
{
    if multi.len() == 0 {
        map
    } else {
        merge(map_insert(map, multi[0].0, multi[0].1), multi.drop_first())
    }
}

/// The index of the first flag named `name`.
pub open spec fn find_flag(flags: Seq<FlagSpec>, name: Seq<char>) -> Option<int>
    decreases flags.len(),
{
    if flags.len() == 0 {
        None
    } else if flags[0].spec.name@ == name {
        Some(0)
    } else {
        match find_flag(flags.drop_first(), name) {
            Some(k) => Some(k + 1),
            None => None,
        }
    }
}

/// `--name=value` split at its first `=`.
pub open spec fn split_eq(rest: Seq<char>) -> (Seq<char>, Option<Seq<char>>) {
    match find_from(rest, '=', 0) {
        Some(e) => (rest.take(e), Some(rest.skip(e + 1))),
        None => (rest, None),
    }
}

/// The effect of the token at `i`: whether it also took the next token as
/// its value, and the new state; or the usage error.
pub open spec fn parse_step<F: Fn(&str) -> Option<FloatNum>>(
    surface: CliSurface,
    tokens: Seq<Seq<char>>,
    i: int,
    st: ParseState,
    parse_float: F,
) -> Result<(bool, ParseState), Seq<char>> {
    let t = tokens[i];
    if t.len() >= 2 && t[0] == '-' && t[1] == '-' {
        let (name, inline) = split_eq(t.skip(2));
        match find_flag(surface.flags@, name) {
            None => Err("unknown option --"@ + name),
            Some(k) => {
                let f = surface.flags@[k];
                let value: Result<(Seq<char>, bool), Seq<char>> = if f.takes_value {
                    match inline {
                        Some(v) => Ok((v, false)),
                        None => if i + 1 < tokens.len() {
                            Ok((tokens[i + 1], true))
                        } else {
                            Err("--"@ + name + " expects a value"@)
                        },
                    }
                } else {
                    match inline {
                        Some(_) => Err("--"@ + name + " does not take a value"@),
                        None => Ok((seq![], false)),
                    }
                };
                match value {
                    Err(e) => Err(e),
                    Ok((v, consumed)) => if f.spec.arg_type matches ArgType::File { multiple, .. }
                        && multiple {
                        Ok((consumed, (st.0, multi_push(st.1, f.spec.name@, v), st.2)))
                    } else {
                        match coerce_spec(name, f.spec.arg_type, v, parse_float) {
                            Err(e) => Err(e),
                            Ok(x) => Ok((consumed, (map_insert(st.0, f.spec.name@, x), st.1, st.2))),
                        }
                    },
                }
            },
        }
    } else {
        match surface.positional {
            None => Err("unexpected argument "@ + quoted(t)),
            Some(p) => if p.arg_type matches ArgType::File { multiple, .. } && multiple {
                Ok((false, (st.0, multi_push(st.1, p.name@, t), st.2)))
            } else if st.2 {
                Err("unexpected argument "@ + quoted(t))
            } else {
                match coerce_spec(p.name@, p.arg_type, t, parse_float) {
                    Err(e) => Err(e),
                    Ok(x) => Ok((false, (map_insert(st.0, p.name@, x), st.1, true))),
                }
            },
        }
    }
}

/// The state after the tokens from `i` on, or the first usage error.
pub open spec fn parse_from<F: Fn(&str) -> Option<FloatNum>>(
    surface: CliSurface,
    tokens: Seq<Seq<char>>,
    i: nat,
    st: ParseState,
    parse_float: F,
) -> Result<ParseState, Seq<char>>
    decreases tokens.len() - i,
{
    if i >= tokens.len() {
        Ok(st)
    } else {
        match parse_step(surface, tokens, i as int, st, parse_float) {
            Err(e) => Err(e),
            Ok((consumed, next)) => {
                let j: nat = if consumed {
                    i + 2
                } else {
                    i + 1
                };
                if j > tokens.len() {
                    Ok(next)
                } else {
                    parse_from(surface, tokens, j, next, parse_float)
                }
            },
        }
    }
}

/// The values a command line gives, or its usage error: flags by name
/// (`--name value`, `--name=value`, a bare `--name` for a switch), the
/// positional argument, and the paths of a multi-file argument gathered
/// into one list.
pub open spec fn parse_args_spec<F: Fn(&str) -> Option<FloatNum>>(
    surface: CliSurface,
    tokens: Seq<Seq<char>>,
    parse_float: F,
) -> Result<Seq<(Seq<char>, ValueView)>, Seq<char>> {
    match parse_from(surface, tokens, 0, (seq![], seq![], false), parse_float) {
        Err(e) => Err(e),
        Ok(st) => Ok(merge(st.0, st.1)),
    }
}

fn multi_push_exec(multi: &mut ArgMap, name: &String, path: String)
    ensures
        final(multi)@ == multi_push(old(multi)@, name@, path@),
{
    let next = match multi.get(name.as_str()) {
        Some(ArgValue::Paths(ps)) => {
            let mut v = copy_strings(ps);
            let ghost pv = path@;
            v.push(path);
            assert(views(v@) =~= views(ps@).push(pv));
            v
        },
        _ => {
            let mut v: Vec<String> = Vec::new();
            let ghost pv = path@;
            v.push(path);
            assert(views(v@) =~= seq![pv]);
            v
        },
    };
    multi.insert(name.clone(), ArgValue::Paths(next));
}

fn find_flag_exec(flags: &Vec<FlagSpec>, name: &str) -> (r: Option<usize>)
    ensures
        r matches Some(k) ==> find_flag(flags@, name@) == Some(k as int) && k < flags@.len(),
        r is None ==> find_flag(flags@, name@) is None,
{
    let mut k: usize = 0;
    assert(flags@.skip(0) =~= flags@);
    while k < flags.len()
        invariant
            k <= flags@.len(),
            find_flag(flags@, name@) == (match find_flag(flags@.skip(k as int), name@) {
                Some(j) => Some(j + k),
                None => None,
            }),
        decreases flags.len() - k,
    {
        let ghost rest = flags@.skip(k as int);
        assert(rest[0] == flags@[k as int]);
        if str_eq(flags[k].spec.name.as_str(), name) {
            return Some(k);
        }
        assert(rest.drop_first() =~= flags@.skip(k + 1));
        k += 1;
    }
    None
}

fn split_eq_exec(rest: &Vec<char>) -> (r: (Vec<char>, Option<Vec<char>>))
    ensures
        split_eq(rest@) == (r.0@, match r.1 {
            Some(v) => Some(v@),
            None => None,
        }),
{
    match find_char_from(rest, '=', 0) {
        Some(e) => {
            proof {
                lemma_find_from(rest@, '=', 0);
            }
            let mut a: Vec<char> = Vec::new();
            let mut i: usize = 0;
            while i < e
                invariant
                    i <= e < rest@.len(),
                    a@ == rest@.take(i as int),
                decreases e - i,
            {
                a.push(rest[i]);
                i += 1;
                assert(a@ =~= rest@.take(i as int));
            }
            assert(e < rest.len());
            let mut b: Vec<char> = Vec::new();
            let mut j: usize = e + 1;
            while j < rest.len()
                invariant
                    e + 1 <= j <= rest@.len(),
                    b@ == rest@.subrange(e + 1, j as int),
                decreases rest.len() - j,
            {
                b.push(rest[j]);
                j += 1;
                assert(b@ =~= rest@.subrange(e + 1, j as int));
            }
            assert(b@ =~= rest@.skip(e + 1));
            (a, Some(b))
        },
        None => {
            let mut a: Vec<char> = Vec::new();
            let mut i: usize = 0;
            while i < rest.len()
                invariant
                    i <= rest@.len(),
                    a@ == rest@.take(i as int),
                decreases rest.len() - i,
            {
                a.push(rest[i]);
                i += 1;
                assert(a@ =~= rest@.take(i as int));
            }
            assert(a@ =~= rest@);
            (a, None)
        },
    }
}

fn parse_step_exec<F: Fn(&str) -> Option<FloatNum>>(
    surface: &CliSurface,
    tokens: &[String],
    i: usize,
    map: &mut ArgMap,
    multi: &mut ArgMap,
    filled: &mut bool,
    parse_float: &F,
) -> (r: Result<bool, UsageError>)
    requires
        i < tokens@.len(),
        forall|x: &str| call_requires(*parse_float, (x,)),
        deterministic(*parse_float),
    ensures
        match (r, parse_step(*surface, views(tokens@), i as int, (old(map)@, old(multi)@, *old(filled)), *parse_float)) {
            (Ok(c), Ok((c2, st))) => c == c2 && (final(map)@, final(multi)@, *final(filled)) == st,
            (Err(e), Err(m)) => e.0@ == m,
            _ => false,
        },
{
    let ghost toks = views(tokens@);
    let t = chars_of(tokens[i].as_str());
    assert(toks[i as int] == t@);
    if t.len() >= 2 && t[0] == '-' && t[1] == '-' {
        let mut rest: Vec<char> = Vec::new();
        let mut q: usize = 2;
        while q < t.len()
            invariant
                2 <= q <= t@.len(),
                rest@ == t@.subrange(2, q as int),
            decreases t.len() - q,
        {
            rest.push(t[q]);
            q += 1;
            assert(rest@ =~= t@.subrange(2, q as int));
        }
        assert(rest@ =~= t@.skip(2));
        let (name_c, inline) = split_eq_exec(&rest);
        let name = string_from(&name_c);
        let k = match find_flag_exec(&surface.flags, name.as_str()) {
            Some(k) => k,
            None => {
                let mut m = String::new();
                push_str(&mut m, "unknown option --");
                push_str(&mut m, name.as_str());
                return Err(UsageError(m));
            },
        };
        let f = &surface.flags[k];
        let mut consumed = false;
        let value: String = if f.takes_value {
            match inline {
                Some(v) => string_from(&v),
                None => {
                    if i + 1 < tokens.len() {
                        consumed = true;
                        tokens[i + 1].clone()
                    } else {
                        let mut m = String::new();
                        push_str(&mut m, "--");
                        push_str(&mut m, name.as_str());
                        push_str(&mut m, " expects a value");
                        return Err(UsageError(m));
                    }
                },
            }
        } else {
            match inline {
                Some(_) => {
                    let mut m = String::new();
                    push_str(&mut m, "--");
                    push_str(&mut m, name.as_str());
                    push_str(&mut m, " does not take a value");
                    return Err(UsageError(m));
                },
                None => String::new(),
            }
        };
        let is_multi = match f.spec.arg_type {
            ArgType::File { multiple, .. } => multiple,
            _ => false,
        };
        if is_multi {
            multi_push_exec(multi, &f.spec.name, value);
            Ok(consumed)
        } else {
            match coerce(name.as_str(), &f.spec.arg_type, value.as_str(), parse_float) {
                Err(e) => Err(e),
                Ok(x) => {
                    map.insert(f.spec.name.clone(), x);
                    Ok(consumed)
                },
            }
        }
    } else {
        match surface.positional {
            None => {
                let mut m = String::new();
                push_str(&mut m, "unexpected argument ");
                push_quoted(&mut m, tokens[i].as_str());
                Err(UsageError(m))
            },
            Some(p) => {
                let is_multi = match p.arg_type {
                    ArgType::File { multiple, .. } => multiple,
                    _ => false,
                };
                if is_multi {
                    multi_push_exec(multi, &p.name, tokens[i].clone());
                    Ok(false)
                } else if *filled {
                    let mut m = String::new();
                    push_str(&mut m, "unexpected argument ");
                    push_quoted(&mut m, tokens[i].as_str());
                    Err(UsageError(m))
                } else {
                    *filled = true;
                    match coerce(p.name.as_str(), &p.arg_type, tokens[i].as_str(), parse_float) {
                        Err(e) => Err(e),
                        Ok(x) => {
                            map.insert(p.name.clone(), x);
                            Ok(false)
                        },
                    }
                }
            },
        }
    }
}

/// Parses the tokens after `wield <id>` into argument values, guided by
/// the tool's surface; `parse_float` reads a number the way the platform
/// does. Ranges, choices and required arguments are checked later, by
/// argument validation.
pub fn parse_args<F: Fn(&str) -> Option<FloatNum>>(
    surface: &CliSurface,
    tokens: &[String],
    parse_float: F,
) -> (r: Result<ArgMap, UsageError>)
    requires
        forall|x: &str| call_requires(parse_float, (x,)),
        deterministic(parse_float),
    ensures
        match (r, parse_args_spec(*surface, views(tokens@), parse_float)) {
            (Ok(m), Ok(s)) => m@ == s,
            (Err(e), Err(msg)) => e.0@ == msg,
            _ => false,
        },
{
    let ghost toks = views(tokens@);
    let ghost init: ParseState = (seq![], seq![], false);
    let mut map = ArgMap::new();
    let mut multi = ArgMap::new();
    let mut filled = false;
    let mut i: usize = 0;
    while i < tokens.len()
        invariant
            i <= tokens@.len(),
            toks == views(tokens@),
            init == (Seq::<(Seq<char>, ValueView)>::empty(), Seq::<(Seq<char>, ValueView)>::empty(), false),
            forall|x: &str| call_requires(parse_float, (x,)),
            deterministic(parse_float),
            parse_from(*surface, toks, 0, init, parse_float) == parse_from(
                *surface,
                toks,
                i as nat,
                (map@, multi@, filled),
                parse_float,
            ),
        decreases tokens.len() - i,
    {
        let ghost st: ParseState = (map@, multi@, filled);
        let step = parse_step_exec(surface, tokens, i, &mut map, &mut multi, &mut filled, &parse_float);
        match step {
            Err(e) => {
                assert(parse_step(*surface, toks, i as int, st, parse_float) is Err);
                assert(parse_from(*surface, toks, i as nat, st, parse_float) == Err::<ParseState, Seq<char>>(
                    parse_step(*surface, toks, i as int, st, parse_float)->Err_0,
                ));
                return Err(e);
            },
            Ok(consumed) => {
                if consumed {
                    proof {
                        if i + 2 > tokens@.len() {
                            assert(false);
                        }
                    }
                    i += 2;
                } else {
                    i += 1;
                }
            },
        }
    }
    let ghost before = map@;
    let mut k: usize = 0;
    assert(multi@.skip(0) =~= multi@);
    while k < multi.len()
        invariant
            k <= multi@.len(),
            merge(before, multi@) == merge(map@, multi@.skip(k as int)),
        decreases multi@.len() - k,
    {
        let (name, value) = multi.entry(k);
        let ghost rest = multi@.skip(k as int);
        assert(rest[0] == multi@[k as int]);
        assert(rest.drop_first() =~= multi@.skip(k + 1));
        map.insert(name.clone(), copy_value(value));
        k += 1;
    }
    Ok(map)
}

proof fn lemma_dec_nat_digits(n: nat)
    ensures
        dec_nat(n).len() > 0,
        all_digits(dec_nat(n)),
        digits_value(dec_nat(n)) == n,
    decreases n,
{
    let c = digit_char(n % 10);
    assert(c as int == (n % 10) + 48);
    if n < 10 {
        let t = dec_nat(n);
        assert(t == seq![c]);
        assert(t.drop_last() =~= Seq::<char>::empty());
        assert(digits_value(t) == digits_value(t.drop_last()) * 10 + (t.last() as int - '0' as int));
    } else {
        lemma_dec_nat_digits(n / 10);
        let s = dec_nat(n / 10);
        let t = s.push(c);
        assert(t.drop_last() =~= s);
        assert(digits_value(t) == digits_value(s) * 10 + (c as int - '0' as int));
        assert forall|i: int| 0 <= i < t.len() implies is_digit(#[trigger] t[i]) by {
            if i < s.len() {
                assert(t[i] == s[i]);
            }
        }
    }
}

/// Reading back an integer's decimal text gives the integer: `parse_i64`
/// undoes `dec_int` (what `i64::to_string` writes).
pub proof fn law_parse_i64_reads_back(v: i64)
    ensures
        parse_i64(dec_int(v as int)) == Some(v),
{
    if v < 0 {
        let m: nat = (-(v as int)) as nat;
        lemma_dec_nat_digits(m);
        let s = seq!['-'] + dec_nat(m);
        assert(s.drop_first() =~= dec_nat(m));
    } else {
        lemma_dec_nat_digits(v as nat);
        let d = dec_nat(v as nat);
        assert(is_digit(d[0]));
    }
}

/// Whether a token is a bare one (not an option).
pub open spec fn is_bare(t: Seq<char>) -> bool {
    !(t.len() >= 2 && t[0] == '-' && t[1] == '-')
}

/// The paths gathered for `name` after the first `i` tokens.
pub open spec fn gathered(name: Seq<char>, tokens: Seq<Seq<char>>, i: int) -> Seq<(Seq<char>, ValueView)> {
    if i == 0 {
        seq![]
    } else {
        seq![(name, ValueView::Paths(tokens.take(i)))]
    }
}

proof fn lemma_gathering<F: Fn(&str) -> Option<FloatNum>>(
    surface: CliSurface,
    tokens: Seq<Seq<char>>,
    i: int,
    parse_float: F,
)
    requires
        0 <= i <= tokens.len(),
        surface.positional matches Some(p) && p.arg_type matches ArgType::File { multiple, .. }
            && multiple,
        forall|k: int| 0 <= k < tokens.len() ==> is_bare(#[trigger] tokens[k]),
    ensures
        parse_from(
            surface,
            tokens,
            i as nat,
            (seq![], gathered(surface.positional->Some_0.name@, tokens, i), false),
            parse_float,
        ) == Ok::<ParseState, Seq<char>>(
            (seq![], gathered(surface.positional->Some_0.name@, tokens, tokens.len() as int), false),
        ),
    decreases tokens.len() - i,
{
    if i < tokens.len() {
        let name = surface.positional->Some_0.name@;
        let t = tokens[i];
        assert(is_bare(t));
        let m = gathered(name, tokens, i);
        if i == 0 {
            assert(tokens.take(1) =~= seq![t]);
        } else {
            assert(tokens.take(i).push(t) =~= tokens.take(i + 1));
            assert(m.drop_first() =~= Seq::<(Seq<char>, ValueView)>::empty());
        }
        assert(multi_push(m, name, t) == gathered(name, tokens, i + 1));
        lemma_gathering(surface, tokens, i + 1, parse_float);
    }
}

/// `parse_args` with a positional argument that takes many files: every
/// bare token is gathered, in order, into the one list of paths it gets.
pub proof fn law_bare_tokens_gather_into_paths<F: Fn(&str) -> Option<FloatNum>>(
    surface: CliSurface,
    tokens: Seq<Seq<char>>,
    parse_float: F,
)
    requires
        surface.positional matches Some(p) && p.arg_type matches ArgType::File { multiple, .. }
            && multiple,
        tokens.len() >= 1,
        forall|k: int| 0 <= k < tokens.len() ==> is_bare(#[trigger] tokens[k]),
    ensures
        parse_args_spec(surface, tokens, parse_float) == Ok::<Seq<(Seq<char>, ValueView)>, Seq<char>>(
            seq![(surface.positional->Some_0.name@, ValueView::Paths(tokens))],
        ),
{
    lemma_gathering(surface, tokens, 0, parse_float);
    let name = surface.positional->Some_0.name@;
    assert(tokens.take(tokens.len() as int) =~= tokens);
    let g = gathered(name, tokens, tokens.len() as int);
    assert(g.drop_first() =~= Seq::<(Seq<char>, ValueView)>::empty());
    assert(merge(seq![], g) == merge(map_insert(seq![], name, ValueView::Paths(tokens)), g.drop_first()));
}

/// `parse_args` with a positional argument that takes one value: a second
/// bare token is a usage error naming it (once the first is read as the
/// value).
pub proof fn law_second_bare_token_is_unexpected<F: Fn(&str) -> Option<FloatNum>>(
    surface: CliSurface,
    tokens: Seq<Seq<char>>,
    parse_float: F,
)
    requires
        surface.positional is Some,
        !(surface.positional->Some_0.arg_type matches ArgType::File { multiple, .. } && multiple),
        tokens.len() >= 2,
        is_bare(tokens[0]),
        is_bare(tokens[1]),
        coerce_spec(
            surface.positional->Some_0.name@,
            surface.positional->Some_0.arg_type,
            tokens[0],
            parse_float,
        ) is Ok,
    ensures
        parse_args_spec(surface, tokens, parse_float) == Err::<Seq<(Seq<char>, ValueView)>, Seq<char>>(
            "unexpected argument "@ + quoted(tokens[1]),
        ),
{
    let p = surface.positional->Some_0;
    let init: ParseState = (seq![], seq![], false);
    let x = coerce_spec(p.name@, p.arg_type, tokens[0], parse_float)->Ok_0;
    let st1: ParseState = (map_insert(seq![], p.name@, x), seq![], true);
    assert(parse_step(surface, tokens, 0, init, parse_float) == Ok::<(bool, ParseState), Seq<char>>((false, st1)));
    assert(parse_step(surface, tokens, 1, st1, parse_float) == Err::<(bool, ParseState), Seq<char>>(
        "unexpected argument "@ + quoted(tokens[1]),
    ));
    assert(parse_from(surface, tokens, 1, st1, parse_float) == Err::<ParseState, Seq<char>>(
        "unexpected argument "@ + quoted(tokens[1]),
    ));
    assert(parse_from(surface, tokens, 0, init, parse_float) == parse_from(surface, tokens, 1, st1, parse_float));
}

/// A bare `--name` for a switch (a `Bool` flag, which takes no value)
/// turns it on: the parsed values bind the flag to `true`.
pub proof fn law_bare_switch_turns_on<F: Fn(&str) -> Option<FloatNum>>(
    surface: CliSurface,
    tokens: Seq<Seq<char>>,
    i: int,
    st: ParseState,
    k: int,
    parse_float: F,
)
    requires
        0 <= i < tokens.len(),
        tokens[i].len() >= 2,
        tokens[i][0] == '-',
        tokens[i][1] == '-',
        !tokens[i].skip(2).contains('='),
        find_flag(surface.flags@, tokens[i].skip(2)) == Some(k),
        surface.flags@[k].spec.arg_type is Bool,
        !surface.flags@[k].takes_value,
    ensures
        parse_step(surface, tokens, i, st, parse_float) == Ok::<(bool, ParseState), Seq<char>>(
            (false, (map_insert(st.0, surface.flags@[k].spec.name@, ValueView::Bool(true)), st.1, st.2)),
        ),
{
    let rest = tokens[i].skip(2);
    lemma_find_from(rest, '=', 0);
    if find_from(rest, '=', 0) is Some {
        let e = find_from(rest, '=', 0)->Some_0;
        assert(rest[e] == '=');
        assert(rest.contains('='));
    }
}

} // verus!

//! Descriptor validation: every problem of a descriptor, each with its
//! location, in a fixed order.

use crate::args::{is_listed, literal_view, LiteralView};
use crate::descriptor::{
    ArgSpec, ArgType, ArgValueLiteral, Capability, CommandArg, CommandSpec, Descriptor,
    OutputSpec, When,
};
use crate::error::{descriptor_error_views, DescriptorError};
use crate::float::{float_le, float_lt, spec_float_le, spec_float_lt};
use crate::template::{placeholders, placeholders_of};
use crate::text::{
    chars_of, dec_int, dec_nat, i64_to_string, push_chars, push_str, str_eq, usize_to_string,
    views,
};
use vstd::prelude::*;

verus! {

/// A list of (location, message) pairs.
pub type ErrList = Seq<(Seq<char>, Seq<char>)>;

/// `args[<i>]<suffix>`.
pub open spec fn arg_at(i: int, suffix: Seq<char>) -> Seq<char> {
    "args["@ + dec_nat(i as nat) + "]"@ + suffix
}

/// `capability.command.args[<k>]<suffix>`.
pub open spec fn segment_at(k: int, suffix: Seq<char>) -> Seq<char> {
    "capability.command.args["@ + dec_nat(k as nat) + "]"@ + suffix
}

/// Lower-case hexadecimal digits of `n`, without leading zeros (`{:x}`).
pub open spec fn hex_digits(n: nat) -> Seq<char>
    decreases n,
{
    let d = n % 16;
    let digit = if d < 10 {
        (d + 48) as char
    } else {
        (d + 87) as char
    };
    if n < 16 {
        seq![digit]
    } else {
        hex_digits(n / 16) + seq![digit]
    }
}

/// An ASCII control character that `Debug` writes as `\u{..}`: every one
/// but the tab, the line feed, the carriage return and NUL, which have
/// escapes of their own.
pub open spec fn unicode_escaped(c: char) -> bool {
    ((c as u32) < 0x20 && c != '\n' && c != '\r' && c != '\t' && c != '\0') || (c as u32) == 0x7f
}

/// `char::escape_debug` of `c`, as text.
pub uninterp spec fn char_escape_debug(c: char) -> Seq<char>;

/// Calls `char::escape_debug` and renders it; the contract names the
/// result.
#[verifier::external_body]
fn escape_debug_of(c: char) -> (r: String)
    ensures
        r@ == char_escape_debug(c),
{
    c.escape_debug().to_string()
}

/// How `str`'s `Debug` writes one character: beyond ASCII as
/// `char::escape_debug` does; in ASCII a backslash escape for the quote,
/// the backslash and the control characters it names, `\u{..}` for the
/// other control characters, the character itself otherwise.
pub open spec fn escape_char(c: char) -> Seq<char> {
    if (c as u32) >= 0x80 {
        char_escape_debug(c)
    } else if unicode_escaped(c) {
        "\\u{"@ + hex_digits(c as nat) + "}"@
    } else if c == '"' {
        seq!['\\', '"']
    } else if c == '\\' {
        seq!['\\', '\\']
    } else if c == '\n' {
        seq!['\\', 'n']
    } else if c == '\r' {
        seq!['\\', 'r']
    } else if c == '\t' {
        seq!['\\', 't']
    } else if c == '\0' {
        seq!['\\', '0']
    } else {
        seq![c]
    }
}

/// `str`'s `Debug` escaping, character by character.
pub open spec fn debug_escape(s: Seq<char>) -> Seq<char>
    decreases s.len(),
{
    if s.len() == 0 {
        seq![]
    } else {
        escape_char(s[0]) + debug_escape(s.drop_first())
    }
}

/// The `Debug` text of a literal, as it appears in messages.
pub open spec fn literal_debug(l: LiteralView) -> Seq<char> {
    match l {
        LiteralView::Str(s) => "Str(\""@ + debug_escape(s) + "\")"@,
        LiteralView::Int(i) => "Int("@ + dec_int(i as int) + ")"@,
        LiteralView::Float(_, _, d) => "Float("@ + d + ")"@,
        LiteralView::Bool(b) => if b {
            "Bool(true)"@
        } else {
            "Bool(false)"@
        },
    }
}

/// A literal has the kind an argument type takes.
pub open spec fn literal_matches_type(l: ArgValueLiteral, t: ArgType) -> bool {
    match (l, t) {
        (ArgValueLiteral::Str(_), ArgType::Str) => true,
        (ArgValueLiteral::Str(_), ArgType::Text) => true,
        (ArgValueLiteral::Str(_), ArgType::Enum { .. }) => true,
        (ArgValueLiteral::Int(_), ArgType::Int { .. }) => true,
        (ArgValueLiteral::Float(_), ArgType::Float { .. }) => true,
        (ArgValueLiteral::Bool(_), ArgType::Bool) => true,
        _ => false,
    }
}

/// A literal meets the type's constraints: enum membership and ranges.
pub open spec fn literal_within(l: ArgValueLiteral, t: ArgType) -> bool {
    match (l, t) {
        (ArgValueLiteral::Str(v), ArgType::Enum { options }) => exists|k: int|
            0 <= k < options@.len() && #[trigger] options@[k]@ == v@,
        (ArgValueLiteral::Int(v), ArgType::Int { range: Some(r), .. }) => r@[0] <= v && v
            <= r@[1],
        (ArgValueLiteral::Float(v), ArgType::Float { range: Some(r) }) => spec_float_le(
            r@[0].bits,
            v.bits,
        ) && spec_float_le(v.bits, r@[1].bits),
        _ => true,
    }
}

// ---------------------------------------------------------------------------
// Argument names

pub open spec fn name_err(args: Seq<ArgSpec>, i: int) -> ErrList {
    if args[i].name@.len() == 0 {
        seq![(arg_at(i, ".name"@), "argument name must not be empty"@)]
    } else if exists|j: int| 0 <= j < i && #[trigger] args[j].name@ == args[i].name@ {
        seq![(arg_at(i, ".name"@), "duplicate argument name: "@ + args[i].name@)]
    } else {
        seq![]
    }
}

pub open spec fn name_errors_upto(args: Seq<ArgSpec>, n: nat) -> ErrList
    decreases n,
{
    if n == 0 {
        seq![]
    } else {
        name_errors_upto(args, (n - 1) as nat) + name_err(args, n - 1)
    }
}

// ---------------------------------------------------------------------------
// Argument types and defaults

pub open spec fn has_duplicate(options: Seq<String>) -> bool {
    exists|i: int, j: int| 0 <= i < j < options.len() && #[trigger] options[i]@ == #[trigger] options[j]@
}

pub open spec fn kind_err(t: ArgType, i: int) -> ErrList {
    match t {
        ArgType::Int { range, step } => (match range {
            Some(r) => if r@[0] > r@[1] {
                seq![(arg_at(i, ".arg_type.range"@), "range minimum exceeds maximum"@)]
            } else {
                seq![]
            },
            None => seq![],
        }) + (match step {
            Some(s) => if s <= 0 {
                seq![(arg_at(i, ".arg_type.step"@), "step must be greater than zero"@)]
            } else {
                seq![]
            },
            None => seq![],
        }),
        ArgType::Float { range: Some(r) } => if spec_float_lt(r@[1].bits, r@[0].bits) {
            seq![(arg_at(i, ".arg_type.range"@), "range minimum exceeds maximum"@)]
        } else {
            seq![]
        },
        ArgType::Enum { options } => (if options@.len() == 0 {
            seq![(arg_at(i, ".arg_type.options"@), "enum options must not be empty"@)]
        } else {
            seq![]
        }) + (if has_duplicate(options@) {
            seq![(arg_at(i, ".arg_type.options"@), "enum options contain duplicates"@)]
        } else {
            seq![]
        }),
        _ => seq![],
    }
}

pub open spec fn default_err(a: ArgSpec, i: int) -> ErrList {
    match a.default {
        None => seq![],
        Some(d) => if !literal_matches_type(d, a.arg_type) {
            seq![
                (
                    arg_at(i, ".default"@),
                    "default "@ + literal_debug(literal_view(d)) + " is incompatible with argument type"@,
                ),
            ]
        } else if !literal_within(d, a.arg_type) {
            seq![
                (
                    arg_at(i, ".default"@),
                    "default "@ + literal_debug(literal_view(d)) + " is outside the allowed values"@,
                ),
            ]
        } else {
            seq![]
        },
    }
}

pub open spec fn type_errors_upto(args: Seq<ArgSpec>, n: nat) -> ErrList
    decreases n,
{
    if n == 0 {
        seq![]
    } else {
        type_errors_upto(args, (n - 1) as nat) + kind_err(args[n - 1].arg_type, n - 1)
            + default_err(args[n - 1], n - 1)
    }
}

pub open spec fn is_multi_file(t: ArgType) -> bool {
    t matches ArgType::File { multiple: true, .. }
}

/// The indices below `n` of `multiple: true` File arguments.
pub open spec fn multi_file_upto(args: Seq<ArgSpec>, n: nat) -> Seq<nat>
    decreases n,
{
    if n == 0 {
        seq![]
    } else if is_multi_file(args[n - 1].arg_type) {
        multi_file_upto(args, (n - 1) as nat).push((n - 1) as nat)
    } else {
        multi_file_upto(args, (n - 1) as nat)
    }
}

/// `args[a], args[b], ...`
pub open spec fn arg_list(idx: Seq<nat>) -> Seq<char>
    decreases idx.len(),
{
    if idx.len() == 0 {
        seq![]
    } else if idx.len() == 1 {
        arg_at(idx[0] as int, seq![])
    } else {
        arg_list(idx.drop_last()) + ", "@ + arg_at(idx.last() as int, seq![])
    }
}

pub open spec fn multi_file_err(args: Seq<ArgSpec>) -> ErrList {
    let idx = multi_file_upto(args, args.len());
    if idx.len() > 1 {
        seq![
            (
                "args"@,
                "a descriptor may have at most one `multiple: true` File argument, found "@
                    + dec_nat(idx.len()) + ": "@ + arg_list(idx),
            ),
        ]
    } else {
        seq![]
    }
}

// ---------------------------------------------------------------------------
// Gates

/// The last argument named `name` among the first `n`.
pub open spec fn last_pos_upto(args: Seq<ArgSpec>, name: Seq<char>, n: nat) -> Option<int>
    decreases n,
{
    if n == 0 {
        None
    } else if args[n - 1].name@ == name {
        Some(n - 1)
    } else {
        last_pos_upto(args, name, (n - 1) as nat)
    }
}

pub open spec fn last_pos(args: Seq<ArgSpec>, name: Seq<char>) -> Option<int> {
    last_pos_upto(args, name, args.len())
}

pub open spec fn when_value_err(w: When, t: ArgType, at: Seq<char>, k: int) -> ErrList {
    let v = w.in_values@[k];
    if !literal_matches_type(v, t) || !literal_within(v, t) {
        seq![
            (
                at,
                "conditional value "@ + literal_debug(literal_view(v)) + " is incompatible with "@
                    + w.arg@,
            ),
        ]
    } else {
        seq![]
    }
}

pub open spec fn when_values_upto(w: When, t: ArgType, at: Seq<char>, n: nat) -> ErrList
    decreases n,
{
    if n == 0 {
        seq![]
    } else {
        when_values_upto(w, t, at, (n - 1) as nat) + when_value_err(w, t, at, n - 1)
    }
}

pub open spec fn when_values_errors(w: When, t: ArgType, at: Seq<char>) -> ErrList {
    when_values_upto(w, t, at, w.in_values@.len())
}

pub open spec fn when_err(args: Seq<ArgSpec>, i: int) -> ErrList {
    match args[i].when {
        None => seq![],
        Some(w) => match last_pos(args, w.arg@) {
            None => seq![(arg_at(i, ".when.arg"@), "unknown argument: "@ + w.arg@)],
            Some(p) => if p >= i {
                seq![(arg_at(i, ".when.arg"@), w.arg@ + " must reference an earlier argument"@)]
            } else {
                when_values_errors(w, args[p].arg_type, arg_at(i, ".when.in"@))
            },
        },
    }
}

pub open spec fn when_errors_upto(args: Seq<ArgSpec>, n: nat) -> ErrList
    decreases n,
{
    if n == 0 {
        seq![]
    } else {
        when_errors_upto(args, (n - 1) as nat) + when_err(args, n - 1)
    }
}

// ---------------------------------------------------------------------------
// Templates

pub open spec fn has_name(args: Seq<ArgSpec>, n: Seq<char>) -> bool {
    exists|j: int| 0 <= j < args.len() && #[trigger] args[j].name@ == n
}

/// The argument named `input` (the last one so named) is a File.
pub open spec fn input_is_file(args: Seq<ArgSpec>) -> bool {
    match last_pos(args, "input"@) {
        Some(p) => args[p].arg_type is File,
        None => false,
    }
}

pub open spec fn token_err(args: Seq<ArgSpec>, tok: Seq<char>, at: Seq<char>, allow_output: bool) -> ErrList {
    if tok == "output"@ || tok == "output_dir"@ {
        if allow_output {
            seq![]
        } else {
            seq![(at, "output placeholder is not allowed in output name"@)]
        }
    } else if tok == "input"@ || tok == "input_stem"@ || tok == "input_dir"@ {
        if input_is_file(args) {
            seq![]
        } else {
            seq![(at, tok + " requires a file input argument"@)]
        }
    } else if tok == "format"@ {
        if has_name(args, "format"@) {
            seq![]
        } else {
            seq![(at, "format placeholder requires a format argument"@)]
        }
    } else if has_name(args, tok) {
        seq![]
    } else {
        seq![(at, "unknown placeholder: "@ + tok)]
    }
}

pub open spec fn tokens_errors_upto(
    args: Seq<ArgSpec>,
    toks: Seq<Seq<char>>,
    at: Seq<char>,
    allow_output: bool,
    n: nat,
) -> ErrList
    decreases n,
{
    if n == 0 {
        seq![]
    } else {
        tokens_errors_upto(args, toks, at, allow_output, (n - 1) as nat) + token_err(
            args,
            toks[n - 1],
            at,
            allow_output,
        )
    }
}

pub open spec fn template_errors(args: Seq<ArgSpec>, t: Seq<char>, at: Seq<char>, allow_output: bool) -> ErrList {
    match placeholders_of(t) {
        None => seq![(at, "malformed placeholder in "@ + t)],
        Some(toks) => tokens_errors_upto(args, toks, at, allow_output, toks.len()),
    }
}

pub open spec fn segment_err(args: Seq<ArgSpec>, seg: CommandArg, k: int) -> ErrList {
    template_errors(args, seg.template@, segment_at(k, ".template"@), true) + match seg.when {
        None => seq![],
        Some(w) => match last_pos(args, w.arg@) {
            Some(p) => when_values_errors(w, args[p].arg_type, segment_at(k, ".when.in"@)),
            None => seq![(segment_at(k, ".when.arg"@), "unknown argument: "@ + w.arg@)],
        },
    }
}

pub open spec fn segments_errors_upto(args: Seq<ArgSpec>, segs: Seq<CommandArg>, n: nat) -> ErrList
    decreases n,
{
    if n == 0 {
        seq![]
    } else {
        segments_errors_upto(args, segs, (n - 1) as nat) + segment_err(args, segs[n - 1], n - 1)
    }
}

pub open spec fn command_errors(args: Seq<ArgSpec>, c: CommandSpec, output_name: Seq<char>) -> ErrList {
    segments_errors_upto(args, c.args@, c.args@.len()) + template_errors(
        args,
        output_name,
        "output.name"@,
        false,
    )
}

pub open spec fn capability_errors(d: Descriptor) -> ErrList {
    match (d.capability, d.output) {
        (Capability::Command(c), OutputSpec::File { name, .. }) => command_errors(d.args@, c, name@),
        (Capability::Command(c), OutputSpec::Directory { name, .. }) => command_errors(
            d.args@,
            c,
            name@,
        ),
        (Capability::Command(_), _) => seq![
            ("output"@, "Command capability requires File or Directory output in P2"@),
        ],
        (_, OutputSpec::File { .. }) => seq![
            ("output"@, "File or Directory output requires Command capability in P2"@),
        ],
        (_, OutputSpec::Directory { .. }) => seq![
            ("output"@, "File or Directory output requires Command capability in P2"@),
        ],
        _ => seq![],
    }
}

/// Every problem of a descriptor, in order: argument names, argument types
/// and defaults, argument gates, then capability and output.
pub open spec fn descriptor_errors(d: Descriptor) -> ErrList {
    let args = d.args@;
    name_errors_upto(args, args.len()) + type_errors_upto(args, args.len()) + multi_file_err(args)
        + when_errors_upto(args, args.len()) + capability_errors(d)
}


// ---------------------------------------------------------------------------
// Executable checks

fn push_err(errors: &mut Vec<DescriptorError>, at: String, message: String)
    ensures
        descriptor_error_views(final(errors)@) == descriptor_error_views(old(errors)@).push(
            (at@, message@),
        ),
{
    let ghost a = at@;
    let ghost m = message@;
    errors.push(DescriptorError { at, message });
    assert(descriptor_error_views(errors@) =~= descriptor_error_views(old(errors)@).push((a, m)));
}

fn arg_at_exec(i: usize, suffix: &str) -> (s: String)
    ensures
        s@ == arg_at(i as int, suffix@),
{
    let mut s = String::new();
    push_str(&mut s, "args[");
    let n = usize_to_string(i);
    push_str(&mut s, n.as_str());
    push_str(&mut s, "]");
    push_str(&mut s, suffix);
    s
}

fn segment_at_exec(k: usize, suffix: &str) -> (s: String)
    ensures
        s@ == segment_at(k as int, suffix@),
{
    let mut s = String::new();
    push_str(&mut s, "capability.command.args[");
    let n = usize_to_string(k);
    push_str(&mut s, n.as_str());
    push_str(&mut s, "]");
    push_str(&mut s, suffix);
    s
}

/// The lower-case hexadecimal digit of `d` (below 16).
pub open spec fn hex_char_spec(d: nat) -> char {
    if d < 10 {
        (d + 48) as char
    } else {
        (d + 87) as char
    }
}

fn hex_char(d: u32) -> (c: char)
    requires
        d < 16,
    ensures
        c == hex_char_spec(d as nat),
{
    if d < 10 {
        ((d + 48) as u8) as char
    } else {
        ((d + 87) as u8) as char
    }
}

fn escape_char_exec(c: char) -> (r: Vec<char>)
    ensures
        r@ == escape_char(c),
{
    let u = c as u32;
    if u >= 0x80 {
        let e = escape_debug_of(c);
        return chars_of(e.as_str());
    }
    let mut r: Vec<char> = Vec::new();
    if (u < 0x20 && c != '\n' && c != '\r' && c != '\t' && c != '\0') || u == 0x7f {
        r.push('\\');
        r.push('u');
        r.push('{');
        let hi = u / 16;
        let lo = u % 16;
        if hi > 0 {
            r.push(hex_char(hi));
        }
        r.push(hex_char(lo));
        r.push('}');
        proof {
            reveal_strlit("\\u{");
            reveal_strlit("}");
            let n = c as nat;
            assert(u == n);
            if hi > 0 {
                assert(hex_digits(n / 16) == seq![hex_char_spec(hi as nat)]);
            }
        }
        assert(r@ =~= escape_char(c));
        return r;
    }
    if c == '"' {
        r.push('\\');
        r.push('"');
    } else if c == '\\' {
        r.push('\\');
        r.push('\\');
    } else if c == '\n' {
        r.push('\\');
        r.push('n');
    } else if c == '\r' {
        r.push('\\');
        r.push('r');
    } else if c == '\t' {
        r.push('\\');
        r.push('t');
    } else if c == '\0' {
        r.push('\\');
        r.push('0');
    } else {
        r.push(c);
    }
    assert(r@ =~= escape_char(c));
    r
}

/// Appends `s` as `str`'s `Debug` writes it, without the quotes.
pub fn push_debug_escaped(out: &mut String, s: &str)
    ensures
        final(out)@ == old(out)@ + debug_escape(s@),
{
    let t = chars_of(s);
    let mut i: usize = 0;
    assert(t@.skip(0) =~= t@);
    while i < t.len()
        invariant
            i <= t@.len(),
            t@ == s@,
            out@ + debug_escape(t@.skip(i as int)) == old(out)@ + debug_escape(t@),
        decreases t.len() - i,
    {
        let e = escape_char_exec(t[i]);
        let ghost before = out@;
        push_chars(out, &e);
        assert(t@.skip(i as int).drop_first() =~= t@.skip(i + 1));
        assert(debug_escape(t@.skip(i as int)) == escape_char(t@[i as int]) + debug_escape(
            t@.skip(i + 1),
        ));
        assert(before + (escape_char(t@[i as int]) + debug_escape(t@.skip(i + 1))) =~= (before
            + escape_char(t@[i as int])) + debug_escape(t@.skip(i + 1)));
        i += 1;
    }
    assert(t@.skip(i as int) =~= Seq::<char>::empty());
    assert(debug_escape(Seq::<char>::empty()) =~= Seq::<char>::empty());
    assert(out@ + Seq::<char>::empty() =~= out@);
}

/// Appends the `Debug` text of a literal.
pub fn push_literal_debug(out: &mut String, l: &ArgValueLiteral)
    ensures
        final(out)@ == old(out)@ + literal_debug(literal_view(*l)),
{
    match l {
        ArgValueLiteral::Str(s) => {
            push_str(out, "Str(\"");
            push_debug_escaped(out, s.as_str());
            push_str(out, "\")");
        },
        ArgValueLiteral::Int(i) => {
            push_str(out, "Int(");
            let d = i64_to_string(*i);
            push_str(out, d.as_str());
            push_str(out, ")");
        },
        ArgValueLiteral::Float(f) => {
            push_str(out, "Float(");
            push_str(out, f.debug.as_str());
            push_str(out, ")");
        },
        ArgValueLiteral::Bool(b) => {
            if *b {
                push_str(out, "Bool(true)");
            } else {
                push_str(out, "Bool(false)");
            }
        },
    }
    assert(out@ =~= old(out)@ + literal_debug(literal_view(*l)));
}

// ---------------------------------------------------------------------------
// Argument names

fn check_arg_names(args: &[ArgSpec], errors: &mut Vec<DescriptorError>)
    ensures
        descriptor_error_views(final(errors)@) == descriptor_error_views(old(errors)@)
            + name_errors_upto(args@, args@.len()),
{
    let mut i: usize = 0;
    while i < args.len()
        invariant
            i <= args@.len(),
            descriptor_error_views(errors@) == descriptor_error_views(old(errors)@)
                + name_errors_upto(args@, i as nat),
        decreases args.len() - i,
    {
        let ghost before = descriptor_error_views(errors@);
        let name = &args[i].name;
        if name.as_str().is_empty() {
            push_err(errors, arg_at_exec(i, ".name"), "argument name must not be empty".to_owned());
            proof {
                reveal_strlit("argument name must not be empty");
            }
        } else {
            let mut j: usize = 0;
            let mut dup = false;
            while j < i
                invariant
                    j <= i < args@.len(),
                    dup == exists|q: int| 0 <= q < j && #[trigger] args@[q].name@ == args@[i as int].name@,
                decreases i - j,
            {
                if str_eq(args[j].name.as_str(), args[i].name.as_str()) {
                    dup = true;
                }
                j += 1;
            }
            if dup {
                let mut m = String::new();
                push_str(&mut m, "duplicate argument name: ");
                push_str(&mut m, name.as_str());
                push_err(errors, arg_at_exec(i, ".name"), m);
            }
        }
        assert(descriptor_error_views(errors@) =~= before + name_err(args@, i as int));
        i += 1;
    }
}

// ---------------------------------------------------------------------------
// Argument types and defaults

fn literal_matches_type_exec(l: &ArgValueLiteral, t: &ArgType) -> (b: bool)
    ensures
        b == literal_matches_type(*l, *t),
{
    match (l, t) {
        (ArgValueLiteral::Str(_), ArgType::Str) => true,
        (ArgValueLiteral::Str(_), ArgType::Text) => true,
        (ArgValueLiteral::Str(_), ArgType::Enum { .. }) => true,
        (ArgValueLiteral::Int(_), ArgType::Int { .. }) => true,
        (ArgValueLiteral::Float(_), ArgType::Float { .. }) => true,
        (ArgValueLiteral::Bool(_), ArgType::Bool) => true,
        _ => false,
    }
}

fn literal_within_exec(l: &ArgValueLiteral, t: &ArgType) -> (b: bool)
    ensures
        b == literal_within(*l, *t),
{
    match (l, t) {
        (ArgValueLiteral::Str(v), ArgType::Enum { options }) => is_listed(options, v.as_str()),
        (ArgValueLiteral::Int(v), ArgType::Int { range: Some(r), .. }) => r[0] <= *v && *v <= r[1],
        (ArgValueLiteral::Float(v), ArgType::Float { range: Some(r) }) => float_le(&r[0], v)
            && float_le(v, &r[1]),
        _ => true,
    }
}

fn has_duplicate_exec(options: &Vec<String>) -> (b: bool)
    ensures
        b == has_duplicate(options@),
{
    let mut j: usize = 0;
    while j < options.len()
        invariant
            j <= options@.len(),
            forall|a: int, b: int| 0 <= a < b < j ==> #[trigger] options@[a]@ != #[trigger] options@[b]@,
        decreases options.len() - j,
    {
        let mut i: usize = 0;
        while i < j
            invariant
                i <= j < options@.len(),
                forall|a: int| 0 <= a < i ==> #[trigger] options@[a]@ != options@[j as int]@,
            decreases j - i,
        {
            if str_eq(options[i].as_str(), options[j].as_str()) {
                return true;
            }
            i += 1;
        }
        j += 1;
    }
    false
}

fn check_kind(t: &ArgType, i: usize, errors: &mut Vec<DescriptorError>)
    ensures
        descriptor_error_views(final(errors)@) == descriptor_error_views(old(errors)@) + kind_err(
            *t,
            i as int,
        ),
{
    let ghost before = descriptor_error_views(errors@);
    match t {
        ArgType::Int { range, step } => {
            match range {
                Some(r) => {
                    if r[0] > r[1] {
                        push_err(
                            errors,
                            arg_at_exec(i, ".arg_type.range"),
                            "range minimum exceeds maximum".to_owned(),
                        );
                    }
                },
                None => {},
            }
            let ghost mid = descriptor_error_views(errors@);
            match step {
                Some(st) => {
                    if *st <= 0 {
                        push_err(
                            errors,
                            arg_at_exec(i, ".arg_type.step"),
                            "step must be greater than zero".to_owned(),
                        );
                    }
                },
                None => {},
            }
            proof {
                reveal_strlit("range minimum exceeds maximum");
                reveal_strlit("step must be greater than zero");
            }
        },
        ArgType::Float { range: Some(r) } => {
            if float_lt(&r[1], &r[0]) {
                push_err(
                    errors,
                    arg_at_exec(i, ".arg_type.range"),
                    "range minimum exceeds maximum".to_owned(),
                );
            }
            proof {
                reveal_strlit("range minimum exceeds maximum");
            }
        },
        ArgType::Enum { options } => {
            if options.len() == 0 {
                push_err(
                    errors,
                    arg_at_exec(i, ".arg_type.options"),
                    "enum options must not be empty".to_owned(),
                );
            }
            if has_duplicate_exec(options) {
                push_err(
                    errors,
                    arg_at_exec(i, ".arg_type.options"),
                    "enum options contain duplicates".to_owned(),
                );
            }
            proof {
                reveal_strlit("enum options must not be empty");
                reveal_strlit("enum options contain duplicates");
            }
        },
        _ => {},
    }
    assert(descriptor_error_views(errors@) =~= before + kind_err(*t, i as int));
}

fn check_default(a: &ArgSpec, i: usize, errors: &mut Vec<DescriptorError>)
    ensures
        descriptor_error_views(final(errors)@) == descriptor_error_views(old(errors)@)
            + default_err(*a, i as int),
{
    let ghost before = descriptor_error_views(errors@);
    match &a.default {
        None => {},
        Some(d) => {
            if !literal_matches_type_exec(d, &a.arg_type) {
                let mut m = String::new();
                push_str(&mut m, "default ");
                push_literal_debug(&mut m, d);
                push_str(&mut m, " is incompatible with argument type");
                push_err(errors, arg_at_exec(i, ".default"), m);
            } else if !literal_within_exec(d, &a.arg_type) {
                let mut m = String::new();
                push_str(&mut m, "default ");
                push_literal_debug(&mut m, d);
                push_str(&mut m, " is outside the allowed values");
                push_err(errors, arg_at_exec(i, ".default"), m);
            }
        },
    }
    assert(descriptor_error_views(errors@) =~= before + default_err(*a, i as int));
}

fn push_arg_list(out: &mut String, idx: &Vec<usize>)
    requires
        idx@.len() > 0,
    ensures
        final(out)@ == old(out)@ + arg_list(idx@.map_values(|x: usize| x as nat)),
{
    let ghost nats = idx@.map_values(|x: usize| x as nat);
    proof {
        reveal_strlit("");
    }
    let first = arg_at_exec(idx[0], "");
    push_str(out, first.as_str());
    assert(nats.take(1).drop_last() =~= Seq::<nat>::empty());
    assert(arg_list(nats.take(1)) == arg_at(nats[0] as int, seq![]));
    let mut k: usize = 1;
    while k < idx.len()
        invariant
            1 <= k <= idx@.len(),
            nats == idx@.map_values(|x: usize| x as nat),
            out@ == old(out)@ + arg_list(nats.take(k as int)),
        decreases idx.len() - k,
    {
        let ghost before = out@;
        push_str(out, ", ");
        let next = arg_at_exec(idx[k], "");
        push_str(out, next.as_str());
        assert(nats.take(k + 1).last() == idx@[k as int] as nat);
        assert(nats.take(k + 1).len() == k + 1);
        assert(nats.take(k + 1).len() > 1);
        proof {
            reveal_strlit("");
        }
        assert(nats.take(k + 1).drop_last() =~= nats.take(k as int));
        assert(arg_list(nats.take(k + 1)) == arg_list(nats.take(k as int)) + ", "@ + arg_at(
            idx@[k as int] as int,
            seq![],
        ));
        assert(out@ =~= old(out)@ + arg_list(nats.take(k + 1)));
        k += 1;
    }
    assert(nats.take(k as int) =~= nats);
}

proof fn lemma_multi_file_step(args: Seq<ArgSpec>, n: nat)
    requires
        n < args.len(),
    ensures
        multi_file_upto(args, n + 1) == if is_multi_file(args[n as int].arg_type) {
            multi_file_upto(args, n).push(n)
        } else {
            multi_file_upto(args, n)
        },
{
}

fn check_arg_types(args: &[ArgSpec], errors: &mut Vec<DescriptorError>)
    ensures
        descriptor_error_views(final(errors)@) == descriptor_error_views(old(errors)@)
            + type_errors_upto(args@, args@.len()) + multi_file_err(args@),
{
    let mut multi: Vec<usize> = Vec::new();
    let mut i: usize = 0;
    while i < args.len()
        invariant
            i <= args@.len(),
            descriptor_error_views(errors@) == descriptor_error_views(old(errors)@)
                + type_errors_upto(args@, i as nat),
            multi@.map_values(|x: usize| x as nat) == multi_file_upto(args@, i as nat),
            multi@.len() <= i,
        decreases args.len() - i,
    {
        let ghost before = descriptor_error_views(errors@);
        check_kind(&args[i].arg_type, i, errors);
        check_default(&args[i], i, errors);
        assert(descriptor_error_views(errors@) =~= before + kind_err(args@[i as int].arg_type, i as int)
            + default_err(args@[i as int], i as int));
        let is_multi = match &args[i].arg_type {
            ArgType::File { multiple, .. } => *multiple,
            _ => false,
        };
        proof {
            lemma_multi_file_step(args@, i as nat);
        }
        if is_multi {
            multi.push(i);
        }
        assert(multi@.map_values(|x: usize| x as nat) =~= multi_file_upto(args@, (i + 1) as nat));
        i += 1;
    }
    let ghost mid = descriptor_error_views(errors@);
    if multi.len() > 1 {
        let mut m = String::new();
        push_str(&mut m, "a descriptor may have at most one `multiple: true` File argument, found ");
        let n = usize_to_string(multi.len());
        push_str(&mut m, n.as_str());
        push_str(&mut m, ": ");
        push_arg_list(&mut m, &multi);
        push_err(errors, "args".to_owned(), m);
        proof {
            reveal_strlit("args");
        }
    }
    assert(multi@.map_values(|x: usize| x as nat).len() == multi@.len());
    assert(descriptor_error_views(errors@) =~= mid + multi_file_err(args@));
}

// ---------------------------------------------------------------------------
// Gates

proof fn lemma_last_pos_upto_step(args: Seq<ArgSpec>, name: Seq<char>, n: nat)
    requires
        0 < n <= args.len(),
        args[n - 1].name@ != name,
    ensures
        last_pos_upto(args, name, n) == last_pos_upto(args, name, (n - 1) as nat),
{
}

fn last_pos_exec(args: &[ArgSpec], name: &str) -> (r: Option<usize>)
    ensures
        r matches Some(p) ==> last_pos(args@, name@) == Some(p as int) && p < args@.len(),
        r is None ==> last_pos(args@, name@) is None,
{
    let mut i: usize = args.len();
    while i > 0
        invariant
            i <= args@.len(),
            last_pos(args@, name@) == last_pos_upto(args@, name@, i as nat),
        decreases i,
    {
        if str_eq(args[i - 1].name.as_str(), name) {
            return Some(i - 1);
        }
        proof {
            lemma_last_pos_upto_step(args@, name@, i as nat);
        }
        i -= 1;
    }
    None
}

fn check_when_values(w: &When, t: &ArgType, at: &str, errors: &mut Vec<DescriptorError>)
    ensures
        descriptor_error_views(final(errors)@) == descriptor_error_views(old(errors)@)
            + when_values_errors(*w, *t, at@),
{
    let mut k: usize = 0;
    while k < w.in_values.len()
        invariant
            k <= w.in_values@.len(),
            descriptor_error_views(errors@) == descriptor_error_views(old(errors)@)
                + when_values_upto(*w, *t, at@, k as nat),
        decreases w.in_values.len() - k,
    {
        let ghost before = descriptor_error_views(errors@);
        let v = &w.in_values[k];
        if !literal_matches_type_exec(v, t) || !literal_within_exec(v, t) {
            let mut m = String::new();
            push_str(&mut m, "conditional value ");
            push_literal_debug(&mut m, v);
            push_str(&mut m, " is incompatible with ");
            push_str(&mut m, w.arg.as_str());
            push_err(errors, at.to_owned(), m);
        }
        assert(descriptor_error_views(errors@) =~= before + when_value_err(*w, *t, at@, k as int));
        k += 1;
    }
}

fn check_arg_when(args: &[ArgSpec], errors: &mut Vec<DescriptorError>)
    ensures
        descriptor_error_views(final(errors)@) == descriptor_error_views(old(errors)@)
            + when_errors_upto(args@, args@.len()),
{
    let mut i: usize = 0;
    while i < args.len()
        invariant
            i <= args@.len(),
            descriptor_error_views(errors@) == descriptor_error_views(old(errors)@)
                + when_errors_upto(args@, i as nat),
        decreases args.len() - i,
    {
        let ghost before = descriptor_error_views(errors@);
        match &args[i].when {
            None => {},
            Some(w) => {
                match last_pos_exec(args, w.arg.as_str()) {
                    None => {
                        let mut m = String::new();
                        push_str(&mut m, "unknown argument: ");
                        push_str(&mut m, w.arg.as_str());
                        push_err(errors, arg_at_exec(i, ".when.arg"), m);
                    },
                    Some(p) => {
                        if p >= i {
                            let mut m = String::new();
                            push_str(&mut m, w.arg.as_str());
                            push_str(&mut m, " must reference an earlier argument");
                            push_err(errors, arg_at_exec(i, ".when.arg"), m);
                        } else {
                            let at = arg_at_exec(i, ".when.in");
                            check_when_values(w, &args[p].arg_type, at.as_str(), errors);
                        }
                    },
                }
            },
        }
        assert(descriptor_error_views(errors@) =~= before + when_err(args@, i as int));
        i += 1;
    }
}

// ---------------------------------------------------------------------------
// Templates

fn has_name_exec(args: &[ArgSpec], n: &str) -> (b: bool)
    ensures
        b == has_name(args@, n@),
{
    let mut j: usize = 0;
    while j < args.len()
        invariant
            j <= args@.len(),
            forall|q: int| 0 <= q < j ==> #[trigger] args@[q].name@ != n@,
        decreases args.len() - j,
    {
        if str_eq(args[j].name.as_str(), n) {
            return true;
        }
        j += 1;
    }
    false
}

fn input_is_file_exec(args: &[ArgSpec]) -> (b: bool)
    ensures
        b == input_is_file(args@),
{
    match last_pos_exec(args, "input") {
        Some(p) => match &args[p].arg_type {
            ArgType::File { .. } => true,
            _ => false,
        },
        None => false,
    }
}

fn check_token(
    args: &[ArgSpec],
    tok: &str,
    at: &str,
    allow_output: bool,
    errors: &mut Vec<DescriptorError>,
)
    ensures
        descriptor_error_views(final(errors)@) == descriptor_error_views(old(errors)@) + token_err(
            args@,
            tok@,
            at@,
            allow_output,
        ),
{
    let ghost before = descriptor_error_views(errors@);
    if str_eq(tok, "output") || str_eq(tok, "output_dir") {
        if !allow_output {
            push_err(
                errors,
                at.to_owned(),
                "output placeholder is not allowed in output name".to_owned(),
            );
            proof {
                reveal_strlit("output placeholder is not allowed in output name");
            }
        }
    } else if str_eq(tok, "input") || str_eq(tok, "input_stem") || str_eq(tok, "input_dir") {
        if !input_is_file_exec(args) {
            let mut m = String::new();
            push_str(&mut m, tok);
            push_str(&mut m, " requires a file input argument");
            push_err(errors, at.to_owned(), m);
        }
    } else if str_eq(tok, "format") {
        if !has_name_exec(args, "format") {
            push_err(
                errors,
                at.to_owned(),
                "format placeholder requires a format argument".to_owned(),
            );
            proof {
                reveal_strlit("format placeholder requires a format argument");
            }
        }
    } else if !has_name_exec(args, tok) {
        let mut m = String::new();
        push_str(&mut m, "unknown placeholder: ");
        push_str(&mut m, tok);
        push_err(errors, at.to_owned(), m);
    }
    assert(descriptor_error_views(errors@) =~= before + token_err(args@, tok@, at@, allow_output));
}

fn check_template(
    args: &[ArgSpec],
    template: &str,
    at: &str,
    allow_output: bool,
    errors: &mut Vec<DescriptorError>,
)
    ensures
        descriptor_error_views(final(errors)@) == descriptor_error_views(old(errors)@)
            + template_errors(args@, template@, at@, allow_output),
{
    match placeholders(template) {
        Err(e) => {
            let ghost before = descriptor_error_views(errors@);
            push_err(errors, at.to_owned(), e.message());
            assert(descriptor_error_views(errors@) =~= before + template_errors(
                args@,
                template@,
                at@,
                allow_output,
            ));
        },
        Ok(toks) => {
            let ghost tv = views(toks@);
            let mut k: usize = 0;
            while k < toks.len()
                invariant
                    k <= toks@.len(),
                    tv == views(toks@),
                    placeholders_of(template@) == Some(tv),
                    descriptor_error_views(errors@) == descriptor_error_views(old(errors)@)
                        + tokens_errors_upto(args@, tv, at@, allow_output, k as nat),
                decreases toks.len() - k,
            {
                let ghost before = descriptor_error_views(errors@);
                check_token(args, toks[k].as_str(), at, allow_output, errors);
                assert(tv[k as int] == toks@[k as int]@);
                assert(descriptor_error_views(errors@) =~= before + token_err(
                    args@,
                    tv[k as int],
                    at@,
                    allow_output,
                ));
                k += 1;
            }
        },
    }
}

fn check_segments(args: &[ArgSpec], segs: &Vec<CommandArg>, errors: &mut Vec<DescriptorError>)
    ensures
        descriptor_error_views(final(errors)@) == descriptor_error_views(old(errors)@)
            + segments_errors_upto(args@, segs@, segs@.len()),
{
    let mut k: usize = 0;
    while k < segs.len()
        invariant
            k <= segs@.len(),
            descriptor_error_views(errors@) == descriptor_error_views(old(errors)@)
                + segments_errors_upto(args@, segs@, k as nat),
        decreases segs.len() - k,
    {
        let ghost before = descriptor_error_views(errors@);
        let seg = &segs[k];
        let at = segment_at_exec(k, ".template");
        check_template(args, seg.template.as_str(), at.as_str(), true, errors);
        let ghost mid = descriptor_error_views(errors@);
        match &seg.when {
            None => {},
            Some(w) => match last_pos_exec(args, w.arg.as_str()) {
                Some(p) => {
                    let at_in = segment_at_exec(k, ".when.in");
                    check_when_values(w, &args[p].arg_type, at_in.as_str(), errors);
                },
                None => {
                    let mut m = String::new();
                    push_str(&mut m, "unknown argument: ");
                    push_str(&mut m, w.arg.as_str());
                    push_err(errors, segment_at_exec(k, ".when.arg"), m);
                },
            },
        }
        assert(descriptor_error_views(errors@) =~= before + segment_err(args@, segs@[k as int], k as int));
        k += 1;
    }
}

fn check_capability_and_output(d: &Descriptor, errors: &mut Vec<DescriptorError>)
    ensures
        descriptor_error_views(final(errors)@) == descriptor_error_views(old(errors)@)
            + capability_errors(*d),
{
    let ghost before = descriptor_error_views(errors@);
    match (&d.capability, &d.output) {
        (Capability::Command(c), OutputSpec::File { name, .. }) => {
            check_segments(&d.args, &c.args, errors);
            check_template(&d.args, name.as_str(), "output.name", false, errors);
        },
        (Capability::Command(c), OutputSpec::Directory { name, .. }) => {
            check_segments(&d.args, &c.args, errors);
            check_template(&d.args, name.as_str(), "output.name", false, errors);
        },
        (Capability::Command(_), _) => {
            push_err(
                errors,
                "output".to_owned(),
                "Command capability requires File or Directory output in P2".to_owned(),
            );
            proof {
                reveal_strlit("output");
                reveal_strlit("Command capability requires File or Directory output in P2");
            }
        },
        (_, OutputSpec::File { .. }) => {
            push_err(
                errors,
                "output".to_owned(),
                "File or Directory output requires Command capability in P2".to_owned(),
            );
            proof {
                reveal_strlit("output");
                reveal_strlit("File or Directory output requires Command capability in P2");
            }
        },
        (_, OutputSpec::Directory { .. }) => {
            push_err(
                errors,
                "output".to_owned(),
                "File or Directory output requires Command capability in P2".to_owned(),
            );
            proof {
                reveal_strlit("output");
                reveal_strlit("File or Directory output requires Command capability in P2");
            }
        },
        _ => {},
    }
    assert(descriptor_error_views(errors@) =~= before + capability_errors(*d));
}

/// Checks a descriptor: `Ok` when it has no problem, otherwise every problem
/// in order (argument names, argument types and defaults, argument gates,
/// then command templates and output).
pub fn validate_descriptor(descriptor: &Descriptor) -> (r: Result<(), Vec<DescriptorError>>)
    ensures
        r is Ok <==> descriptor_errors(*descriptor).len() == 0,
        r matches Err(errors) ==> descriptor_error_views(errors@) == descriptor_errors(*descriptor),
{
    let mut errors: Vec<DescriptorError> = Vec::new();
    assert(descriptor_error_views(errors@) =~= Seq::<(Seq<char>, Seq<char>)>::empty());
    check_arg_names(&descriptor.args, &mut errors);
    check_arg_types(&descriptor.args, &mut errors);
    check_arg_when(&descriptor.args, &mut errors);
    check_capability_and_output(descriptor, &mut errors);
    assert(descriptor_error_views(errors@) =~= descriptor_errors(*descriptor));
    if errors.len() == 0 {
        Ok(())
    } else {
        Err(errors)
    }
}

} // verus!

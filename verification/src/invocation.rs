//! What `wield` does with its command line: list the tools, print the
//! version or usage, explain a tool, reject a malformed invocation, or run
//! a tool with its parsed arguments; and how a finished run is printed.
//! Probing the desktop and running the tool are the caller's.

use crate::args::{joined, ArgMap, validate_args};
use crate::cli::{
    deterministic, help_spec, help_text, is_surface_of, parse_args, parse_args_spec, render,
    render_spec, CliSurface, Rendered,
};
use crate::descriptor::Descriptor;
use crate::error::validation_error_views;
use crate::executor::error_texts;
use crate::float::FloatNum;
use crate::outcome::ToolOutcome;
use crate::registry::{has_id, tool_named, Registry};
use crate::text::{chars_of, push_str, str_eq, trim_end, trim_end_str, views};
use crate::args::arg_errors;
use vstd::prelude::*;

verus! {

// ---------------------------------------------------------------------------
// The tool list and the usage text

/// `format!("{:<16}", s)`: `s` padded with spaces to 16 characters.
pub open spec fn padded16(s: Seq<char>) -> Seq<char> {
    if s.len() >= 16 {
        s
    } else {
        s + Seq::new((16 - s.len()) as nat, |i: int| ' ')
    }
}

/// One tool's line in the list: its id, padded, and its title.
pub open spec fn tool_line(d: Descriptor) -> Seq<char> {
    "  "@ + padded16(d.id@) + "  "@ + d.title@ + "\n"@
}

/// The lines of the tool list.
pub open spec fn tool_lines(tools: Seq<Descriptor>) -> Seq<char>
    decreases tools.len(),
{
    if tools.len() == 0 {
        seq![]
    } else {
        tool_lines(tools.drop_last()) + tool_line(tools.last())
    }
}

/// The list of the registered tools, in registration order.
pub open spec fn tool_list_text(tools: Seq<Descriptor>) -> Seq<char> {
    "Available tools:\n"@ + tool_lines(tools) + "\nRun `wield <tool> --help` for a tool's arguments.\n"@
}

/// The text of `wield --help`.
pub open spec fn usage_text(tools: Seq<Descriptor>) -> Seq<char> {
    "wield "@ + "0.1.0"@ + " \u{2014} portal-native Linux utility hub\n\nUsage:\n  wield <tool> [<file>] [options]\n  wield --version\n\n"@
        + tool_list_text(tools)
}

fn push_padded16(out: &mut String, s: &str)
    ensures
        final(out)@ == old(out)@ + padded16(s@),
{
    push_str(out, s);
    let n = chars_of(s).len();
    let mut k: usize = n;
    let ghost base = old(out)@ + s@;
    while k < 16
        invariant
            n == s@.len(),
            n <= k <= 16 || (k == n && n >= 16),
            out@ == base + Seq::new((k - n) as nat, |i: int| ' '),
        decreases 16 - k,
    {
        push_str(out, " ");
        proof {
            reveal_strlit(" ");
        }
        assert(out@ =~= base + Seq::new((k + 1 - n) as nat, |i: int| ' '));
        k += 1;
    }
    proof {
        if n >= 16 {
            assert(out@ =~= old(out)@ + s@);
        } else {
            assert(k == 16);
        }
    }
}

/// The list of the registered tools.
pub fn tool_list(registry: &Registry) -> (s: String)
    ensures
        s@ == tool_list_text(registry@),
{
    let tools = registry.list();
    let mut out = String::new();
    push_str(&mut out, "Available tools:\n");
    let ghost start = out@;
    let mut k: usize = 0;
    while k < tools.len()
        invariant
            k <= tools@.len(),
            tools@ == registry@,
            out@ == start + tool_lines(tools@.take(k as int)),
        decreases tools.len() - k,
    {
        let t = &tools[k];
        push_str(&mut out, "  ");
        push_padded16(&mut out, t.id.as_str());
        push_str(&mut out, "  ");
        push_str(&mut out, t.title.as_str());
        push_str(&mut out, "\n");
        assert(tools@.take(k + 1).drop_last() =~= tools@.take(k as int));
        assert(out@ =~= start + tool_lines(tools@.take(k + 1)));
        k += 1;
    }
    assert(tools@.take(k as int) =~= tools@);
    push_str(&mut out, "\nRun `wield <tool> --help` for a tool's arguments.\n");
    assert(out@ =~= tool_list_text(registry@));
    out
}

/// The text of `wield --help`.
pub fn usage(registry: &Registry) -> (s: String)
    ensures
        s@ == usage_text(registry@),
{
    let mut out = String::new();
    push_str(&mut out, "wield ");
    push_str(&mut out, crate::version());
    push_str(
        &mut out,
        " \u{2014} portal-native Linux utility hub\n\nUsage:\n  wield <tool> [<file>] [options]\n  wield --version\n\n",
    );
    let list = tool_list(registry);
    push_str(&mut out, list.as_str());
    out
}

// ---------------------------------------------------------------------------
// Printing a finished run

/// What is written for a rendered text: nothing when it is empty, else the
/// text without trailing whitespace and with one newline.
pub open spec fn printed(text: Seq<char>) -> Seq<char> {
    if text.len() == 0 {
        seq![]
    } else {
        trim_end(text) + "\n"@
    }
}

fn printed_text(text: &str) -> (s: String)
    ensures
        s@ == printed(text@),
{
    if text.is_empty() {
        proof {
            assert(text@.len() == 0);
        }
        String::new()
    } else {
        let mut s = trim_end_str(text);
        push_str(&mut s, "\n");
        s
    }
}

/// What is written for an outcome, and the exit code: its rendered stdout
/// and stderr, each printed as by [`printed`].
pub fn written(outcome: ToolOutcome) -> (r: Rendered)
    ensures
        r.stdout@ == printed(render_spec(outcome@).0),
        r.stderr@ == printed(render_spec(outcome@).1),
        r.code == render_spec(outcome@).2,
{
    let rendered = render(outcome);
    Rendered {
        stdout: printed_text(rendered.stdout.as_str()),
        stderr: printed_text(rendered.stderr.as_str()),
        code: rendered.code,
    }
}

// ---------------------------------------------------------------------------
// The command line

/// What the command line does next.
#[derive(Debug)]
pub enum CliStep<'a> {
    /// Write `stdout` and `stderr` exactly as they are, and exit with `code`.
    Exit(Rendered),
    /// Run the tool with these arguments, then write its outcome (see
    /// [`written`]).
    Run { descriptor: &'a Descriptor, args: ArgMap },
}

/// A token that asks for help.
pub open spec fn is_help_flag(t: Seq<char>) -> bool {
    t == "--help"@ || t == "-h"@
}

/// A token that asks for the version.
pub open spec fn is_version_flag(t: Seq<char>) -> bool {
    t == "--version"@ || t == "-V"@
}

/// Some token asks for help.
pub open spec fn asks_help(tokens: Seq<Seq<char>>) -> bool {
    exists|j: int| 0 <= j < tokens.len() && is_help_flag(#[trigger] tokens[j])
}

/// The detail of a validation failure on the command line: the problems
/// joined by `"; "`.
pub open spec fn validation_text(errs: Seq<(Seq<char>, Seq<char>)>) -> Seq<char> {
    joined(error_texts(errs), "; "@)
}

/// The step exits, writing `out` and `err`, with `code`.
pub open spec fn exits_with(s: CliStep, out: Seq<char>, err: Seq<char>, code: i32) -> bool {
    s matches CliStep::Exit(r) && r.stdout@ == out && r.stderr@ == err && r.code == code
}

/// What an invocation of the tool `d` with `rest` after its id does: help
/// when asked for; otherwise a usage error, a validation failure, or the run.
pub open spec fn tool_step<F: Fn(&str) -> Option<FloatNum>>(
    s: CliStep,
    d: Descriptor,
    rest: Seq<Seq<char>>,
    parse_float: F,
) -> bool {
    if asks_help(rest) {
        exits_with(s, help_spec(d) + "\n"@, seq![], 0)
    } else {
        exists|surface: CliSurface|
            is_surface_of(surface, d) && match parse_args_spec(surface, rest, parse_float) {
                Err(msg) => exits_with(s, seq![], msg + "\n"@, 2),
                Ok(m) => if arg_errors(d.args@, m).len() > 0 {
                    exits_with(s, seq![], printed(validation_text(arg_errors(d.args@, m))), 1)
                } else {
                    s matches CliStep::Run { descriptor, args } && *descriptor == d && args@ == m
                },
            }
    }
}

fn exit(stdout: String, stderr: String, code: i32) -> (s: CliStep<'static>)
    ensures
        exits_with(s, stdout@, stderr@, code),
{
    CliStep::Exit(Rendered { stdout, stderr, code })
}

fn asks_help_exec(tokens: &[String]) -> (b: bool)
    ensures
        b == asks_help(views(tokens@)),
{
    let ghost toks = views(tokens@);
    let mut j: usize = 0;
    while j < tokens.len()
        invariant
            j <= tokens@.len(),
            toks == views(tokens@),
            forall|q: int| 0 <= q < j ==> !is_help_flag(#[trigger] toks[q]),
        decreases tokens.len() - j,
    {
        let t = tokens[j].as_str();
        if str_eq(t, "--help") || str_eq(t, "-h") {
            assert(is_help_flag(toks[j as int]));
            return true;
        }
        j += 1;
    }
    false
}

fn validation_message(errors: &Vec<crate::error::ValidationError>) -> (s: String)
    ensures
        s@ == validation_text(validation_error_views(errors@)),
{
    let ghost texts = error_texts(validation_error_views(errors@));
    let mut out = String::new();
    if errors.len() == 0 {
        assert(texts.len() == 0);
        return out;
    }
    let first = errors[0].to_message();
    push_str(&mut out, first.as_str());
    assert(texts.take(1).len() == 1);
    assert(joined(texts.take(1), "; "@) == texts[0]);
    let mut k: usize = 1;
    while k < errors.len()
        invariant
            1 <= k <= errors@.len(),
            texts == error_texts(validation_error_views(errors@)),
            out@ == joined(texts.take(k as int), "; "@),
        decreases errors.len() - k,
    {
        let m = errors[k].to_message();
        push_str(&mut out, "; ");
        push_str(&mut out, m.as_str());
        assert(texts.take(k + 1).drop_last() =~= texts.take(k as int));
        assert(texts.take(k + 1).last() == texts[k as int]);
        k += 1;
    }
    assert(texts.take(k as int) =~= texts);
    out
}

/// What `wield` does with the tokens after its own name: no token lists
/// the tools; `--version`/`-V` prints the version; `--help`/`-h` the
/// usage; an unknown tool id is a usage error (exit 2); a tool id followed
/// by `--help`/`-h` anywhere prints the tool's help; otherwise the tokens
/// are parsed (a usage error exits 2) and validated (a failure exits 1)
/// before the tool runs. `parse_float` reads a number the way the platform
/// does.
pub fn cli_step<'a, F: Fn(&str) -> Option<FloatNum>>(
    registry: &'a Registry,
    args: &[String],
    parse_float: F,
) -> (s: CliStep<'a>)
    requires
        forall|x: &str| call_requires(parse_float, (x,)),
        deterministic(parse_float),
    ensures
        views(args@).len() == 0 ==> exits_with(s, tool_list_text(registry@), seq![], 0),
        views(args@).len() > 0 && is_version_flag(views(args@)[0]) ==> exits_with(
            s,
            "wield "@ + "0.1.0"@ + "\n"@,
            seq![],
            0,
        ),
        views(args@).len() > 0 && is_help_flag(views(args@)[0]) ==> exits_with(s, usage_text(registry@), seq![], 0),
        views(args@).len() > 0 && !is_version_flag(views(args@)[0]) && !is_help_flag(views(args@)[0])
            && !has_id(registry@, views(args@)[0]) ==> exits_with(
            s,
            seq![],
            "unknown tool: "@ + views(args@)[0] + "\n\n"@ + tool_list_text(registry@),
            2,
        ),
        views(args@).len() > 0 && !is_version_flag(views(args@)[0]) && !is_help_flag(views(args@)[0])
            && has_id(registry@, views(args@)[0]) ==> tool_step(
            s,
            tool_named(registry@, views(args@)[0]),
            views(args@).drop_first(),
            parse_float,
        ),
{
    let ghost toks = views(args@);
    if args.len() == 0 {
        return exit(tool_list(registry), String::new(), 0);
    }
    assert(toks[0] == args@[0]@);
    let first = args[0].as_str();
    if str_eq(first, "--version") || str_eq(first, "-V") {
        let mut out = String::new();
        push_str(&mut out, "wield ");
        push_str(&mut out, crate::version());
        push_str(&mut out, "\n");
        proof {
            reveal_strlit("--version");
            reveal_strlit("-V");
            reveal_strlit("--help");
            reveal_strlit("-h");
            assert(!is_help_flag(toks[0])) by {
                assert("--version"@.len() != "--help"@.len());
                assert("--version"@.len() != "-h"@.len());
                assert("-V"@.len() != "--help"@.len());
                assert("-V"@[1] != "-h"@[1]);
            }
        }
        return exit(out, String::new(), 0);
    }
    if str_eq(first, "--help") || str_eq(first, "-h") {
        return exit(usage(registry), String::new(), 0);
    }
    let descriptor = match registry.get(first) {
        Some(d) => d,
        None => {
            let mut err = String::new();
            push_str(&mut err, "unknown tool: ");
            push_str(&mut err, first);
            push_str(&mut err, "\n\n");
            let list = tool_list(registry);
            push_str(&mut err, list.as_str());
            return exit(String::new(), err, 2);
        },
    };
    let rest = vstd::slice::slice_subrange(args, 1, args.len());
    assert(views(rest@) =~= toks.drop_first());
    if asks_help_exec(rest) {
        let mut out = help_text(descriptor);
        push_str(&mut out, "\n");
        return exit(out, String::new(), 0);
    }
    let surface = CliSurface::from_descriptor(descriptor);
    match parse_args(&surface, rest, parse_float) {
        Err(e) => {
            let mut err = e.0;
            push_str(&mut err, "\n");
            exit(String::new(), err, 2)
        },
        Ok(map) => match validate_args(descriptor.args.as_slice(), &map) {
            Err(errors) => {
                let detail = validation_message(&errors);
                exit(String::new(), printed_text(detail.as_str()), 1)
            },
            Ok(_) => CliStep::Run { descriptor, args: map },
        },
    }
}

} // verus!

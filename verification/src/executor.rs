//! The decisions of the execution pipeline: what a request fails with
//! before anything runs, what a command is run with, and what its result
//! becomes; batches over several input files and splits into several
//! output files are summarised here too. The runs themselves (processes,
//! files, portals) are carried out by the caller between these steps.

use crate::args::{
    arg_errors, effective_args, joined, lookup, map_insert, validate_args, ArgMap, ArgValue,
    ValueView,
};
use crate::availability::{first_unmet, unmet, AvailabilityView};
use crate::command::{fresh_token, is_uuid_text, temp_path, BinaryResolver, CommandResult, OutputPlan};
use crate::descriptor::{Capability, CommandSpec, Descriptor, OutputDir, OutputSpec, ValueKind};
use crate::error::{DescriptorError, ValidationError};
use crate::outcome::{failed, hint_for_stderr, stderr_hint, OutcomeView, Stage, ToolOutcome};
use crate::path::{file_name_of, join_paths, parent_of, path_file_name, path_join, path_parent};
use crate::template::{
    argv_spec, compute_output_path, fault_message, opt_view, output_dir_spec, output_name_spec,
    output_path_spec, render_argv, render_output_name, resolve_output_dir,
};
use crate::text::{
    chars_eq, chars_lt, chars_of, dec_int, dec_nat, i64_to_string, lemma_seq_lt_irrefl,
    lemma_seq_lt_total, lemma_seq_lt_trans, push_str, seq_lt, usize_to_string,
    views,
};
use crate::validate::{debug_escape, descriptor_errors, push_debug_escaped, validate_descriptor};
use crate::time::duration_debug;
use vstd::prelude::*;

verus! {

// ---------------------------------------------------------------------------
// Before anything runs

/// The display texts of a list of (location or field, message) pairs.
pub open spec fn error_texts(errs: Seq<(Seq<char>, Seq<char>)>) -> Seq<Seq<char>> {
    Seq::new(errs.len(), |i: int| errs[i].0 + ": "@ + errs[i].1)
}

/// The detail of a validation failure: one error per line.
pub open spec fn validation_detail(errs: Seq<(Seq<char>, Seq<char>)>) -> Seq<char> {
    joined(error_texts(errs), "\n"@)
}

fn push_error_lines(out: &mut String, texts: &Vec<String>)
    ensures
        final(out)@ == old(out)@ + joined(views(texts@), "\n"@),
{
    let ghost vs = views(texts@);
    if texts.len() == 0 {
        assert(joined(vs, "\n"@) =~= Seq::<char>::empty());
        assert(out@ =~= old(out)@ + joined(vs, "\n"@));
        return;
    }
    push_str(out, texts[0].as_str());
    assert(vs.take(1).len() == 1);
    let mut k: usize = 1;
    while k < texts.len()
        invariant
            1 <= k <= texts@.len(),
            vs == views(texts@),
            out@ == old(out)@ + joined(vs.take(k as int), "\n"@),
        decreases texts.len() - k,
    {
        push_str(out, "\n");
        push_str(out, texts[k].as_str());
        assert(vs.take(k + 1).drop_last() =~= vs.take(k as int));
        assert(vs.take(k + 1).last() == texts@[k as int]@);
        assert(out@ =~= old(out)@ + joined(vs.take(k + 1), "\n"@));
        k += 1;
    }
    assert(vs.take(k as int) =~= vs);
}

fn descriptor_detail(errors: &Vec<DescriptorError>) -> (s: String)
    ensures
        s@ == validation_detail(Seq::new(errors@.len(), |i: int| (errors@[i].at@, errors@[i].message@))),
{
    let mut texts: Vec<String> = Vec::new();
    let mut i: usize = 0;
    while i < errors.len()
        invariant
            i <= errors@.len(),
            texts@.len() == i,
            forall|q: int| 0 <= q < i ==> #[trigger] texts@[q]@ == errors@[q].at@ + ": "@ + errors@[q].message@,
        decreases errors.len() - i,
    {
        texts.push(errors[i].to_message());
        i += 1;
    }
    let mut s = String::new();
    push_error_lines(&mut s, &texts);
    assert(views(texts@) =~= error_texts(Seq::new(errors@.len(), |i: int| (errors@[i].at@, errors@[i].message@))));
    assert(s@ =~= validation_detail(Seq::new(errors@.len(), |i: int| (errors@[i].at@, errors@[i].message@))));
    s
}

fn argument_detail(errors: &Vec<ValidationError>) -> (s: String)
    ensures
        s@ == validation_detail(Seq::new(errors@.len(), |i: int| (errors@[i].field@, errors@[i].message@))),
{
    let mut texts: Vec<String> = Vec::new();
    let mut i: usize = 0;
    while i < errors.len()
        invariant
            i <= errors@.len(),
            texts@.len() == i,
            forall|q: int| 0 <= q < i ==> #[trigger] texts@[q]@ == errors@[q].field@ + ": "@ + errors@[q].message@,
        decreases errors.len() - i,
    {
        texts.push(errors[i].to_message());
        i += 1;
    }
    let mut s = String::new();
    push_error_lines(&mut s, &texts);
    assert(views(texts@) =~= error_texts(Seq::new(errors@.len(), |i: int| (errors@[i].field@, errors@[i].message@))));
    assert(s@ =~= validation_detail(Seq::new(errors@.len(), |i: int| (errors@[i].field@, errors@[i].message@))));
    s
}

/// What a request fails with before anything runs, if anything: an invalid
/// descriptor, then invalid arguments (both as a validation failure listing
/// every problem, one per line), then the first unmet requirement (as
/// unavailable, with its fix).
pub open spec fn preflight_failure(
    d: Descriptor,
    args: Seq<(Seq<char>, ValueView)>,
    bins: Set<Seq<char>>,
    portals: Map<Seq<char>, u32>,
) -> Option<OutcomeView> {
    if descriptor_errors(d).len() > 0 {
        Some(
            OutcomeView::Failed {
                stage: Stage::Validation,
                detail: validation_detail(descriptor_errors(d)),
                hint: None,
            },
        )
    } else if arg_errors(d.args@, args).len() > 0 {
        Some(
            OutcomeView::Failed {
                stage: Stage::Validation,
                detail: validation_detail(arg_errors(d.args@, args)),
                hint: None,
            },
        )
    } else {
        match unmet(bins, portals, d.requires) {
            Some((reason, fix)) => Some(OutcomeView::Unavailable { reason, fix: Some(fix) }),
            None => None,
        }
    }
}

/// A valid request for a tool that needs a desktop portal is refused as
/// unavailable when the portal is missing, or older than needed (naming
/// both versions), and passes the check when the portal is there at the
/// needed version or newer.
pub proof fn law_portal_gating(
    d: Descriptor,
    args: Seq<(Seq<char>, ValueView)>,
    bins: Set<Seq<char>>,
    portals: Map<Seq<char>, u32>,
)
    requires
        descriptor_errors(d).len() == 0,
        arg_errors(d.args@, args).len() == 0,
    ensures
        d.requires is Portal && !portals.contains_key(d.requires->iface@) ==> (
        preflight_failure(d, args, bins, portals) == Some(
            OutcomeView::Unavailable {
                reason: "the "@ + d.requires->iface@ + " desktop portal is not available"@,
                fix: Some("this tool needs a desktop environment with XDG Desktop Portal support"@),
            },
        )),
        d.requires is Portal && portals.contains_key(d.requires->iface@)
            && portals[d.requires->iface@] < d.requires->min_ver ==> (preflight_failure(d, args, bins, portals) == Some(
            OutcomeView::Unavailable {
                reason: "the "@ + d.requires->iface@ + " desktop portal is version "@ + dec_nat(
                    portals[d.requires->iface@] as nat,
                ) + ", but this tool needs version "@ + dec_nat(d.requires->min_ver as nat),
                fix: Some(
                    "update your desktop environment to one that provides "@ + d.requires->iface@ + " portal v"@
                        + dec_nat(d.requires->min_ver as nat) + " or newer"@,
                ),
            },
        )),
        d.requires is Portal && portals.contains_key(d.requires->iface@)
            && portals[d.requires->iface@] >= d.requires->min_ver ==> preflight_failure(d, args, bins, portals) is None,
{
}

/// Checks a request before it runs. `view` holds the binaries that can be
/// found and the portal versions. `Ok` holds the values the tool runs with.
pub fn preflight(descriptor: &Descriptor, args: &ArgMap, view: &AvailabilityView) -> (r: Result<
    ArgMap,
    ToolOutcome,
>)
    ensures
        r matches Err(o) ==> preflight_failure(*descriptor, args@, view.binaries@, view.portals@)
            == Some(o@),
        r matches Ok(m) ==> preflight_failure(*descriptor, args@, view.binaries@, view.portals@) is None
            && m@ == effective_args(descriptor.args@, args@),
{
    match validate_descriptor(descriptor) {
        Err(errors) => {
            let detail = descriptor_detail(&errors);
            assert(Seq::new(errors@.len(), |i: int| (errors@[i].at@, errors@[i].message@))
                =~= descriptor_errors(*descriptor));
            return Err(failed(Stage::Validation, detail));
        },
        Ok(()) => {},
    }
    let effective = match validate_args(descriptor.args.as_slice(), args) {
        Err(errors) => {
            let detail = argument_detail(&errors);
            assert(Seq::new(errors@.len(), |i: int| (errors@[i].field@, errors@[i].message@))
                =~= arg_errors(descriptor.args@, args@));
            return Err(failed(Stage::Validation, detail));
        },
        Ok(m) => m,
    };
    match first_unmet(view, &descriptor.requires) {
        Some((reason, fix)) => Err(ToolOutcome::Unavailable { reason, fix: Some(fix) }),
        None => Ok(effective),
    }
}

/// What a capability that cannot be routed fails with: a portal tool when
/// no portal runner is configured, and a native tool, which this pipeline
/// does not run.
pub open spec fn unrouted(capability: Capability, has_portal_runner: bool) -> Option<OutcomeView> {
    match capability {
        Capability::Command(_) => None,
        Capability::Portal { .. } => if has_portal_runner {
            None
        } else {
            Some(
                OutcomeView::Failed {
                    stage: Stage::Portal,
                    detail: "this build has no portal runner configured"@,
                    hint: None,
                },
            )
        },
        Capability::Native { .. } => Some(
            OutcomeView::Failed {
                stage: Stage::Native,
                detail: "native execution is implemented in P4"@,
                hint: None,
            },
        ),
    }
}

/// The failure of a capability that cannot be routed, if it cannot.
pub fn unrouted_outcome(capability: &Capability, has_portal_runner: bool) -> (r: Option<ToolOutcome>)
    ensures
        r matches Some(o) ==> unrouted(*capability, has_portal_runner) == Some(o@),
        r is None ==> unrouted(*capability, has_portal_runner) is None,
{
    match capability {
        Capability::Command(_) => None,
        Capability::Portal { .. } => {
            if has_portal_runner {
                None
            } else {
                Some(failed(Stage::Portal, "this build has no portal runner configured".to_owned()))
            }
        },
        Capability::Native { .. } => Some(
            failed(Stage::Native, "native execution is implemented in P4".to_owned()),
        ),
    }
}

// ---------------------------------------------------------------------------
// Running one command

/// The first value in name order that is a list of paths, with its name:
/// a request over several input files, run once per file.
pub open spec fn batch_of(m: Seq<(Seq<char>, ValueView)>) -> Option<(Seq<char>, Seq<Seq<char>>)>
    decreases m.len(),
{
    if m.len() == 0 {
        None
    } else {
        match m[0].1 {
            ValueView::Paths(ps) => Some((m[0].0, ps)),
            _ => batch_of(m.drop_first()),
        }
    }
}

/// The name and paths of the first list-of-paths value, in name order.
pub fn batch_input(effective: &ArgMap) -> (r: Option<(String, Vec<String>)>)
    ensures
        r matches Some(x) ==> batch_of(effective@) == Some((x.0@, views(x.1@))),
        r is None ==> batch_of(effective@) is None,
{
    let mut i: usize = 0;
    assert(effective@.skip(0) =~= effective@);
    while i < effective.len()
        invariant
            i <= effective@.len(),
            batch_of(effective@) == batch_of(effective@.skip(i as int)),
        decreases effective@.len() - i,
    {
        let (name, value) = effective.entry(i);
        let ghost rest = effective@.skip(i as int);
        assert(rest[0] == effective@[i as int]);
        match value {
            ArgValue::Paths(ps) => {
                let mut copy: Vec<String> = Vec::new();
                let mut k: usize = 0;
                while k < ps.len()
                    invariant
                        k <= ps@.len(),
                        copy@.len() == k,
                        forall|q: int| 0 <= q < k ==> #[trigger] copy@[q]@ == ps@[q]@,
                    decreases ps.len() - k,
                {
                    copy.push(ps[k].clone());
                    k += 1;
                }
                assert(views(copy@) =~= views(ps@));
                return Some((name.clone(), copy));
            },
            _ => {},
        }
        assert(rest.drop_first() =~= effective@.skip(i + 1));
        i += 1;
    }
    None
}

/// What a command is run with: its output plan (for a file output), its
/// argv, and its working directory (the input file's directory).
#[derive(Debug, Clone)]
pub struct CommandPlan {
    pub output: Option<OutputPlan>,
    pub argv: Vec<String>,
    pub cwd: Option<String>,
}

/// The directory of the input file, when the input is a single path.
pub open spec fn input_dir(m: Seq<(Seq<char>, ValueView)>) -> Option<Seq<char>> {
    match lookup(m, "input"@) {
        Some(ValueView::Path(p)) => path_parent(p),
        _ => None,
    }
}

/// The directory of the input file, when the input is a single path.
pub fn input_directory(effective: &ArgMap) -> (r: Option<String>)
    ensures
        r matches Some(d) ==> input_dir(effective@) == Some(d@),
        r is None ==> input_dir(effective@) is None,
{
    match effective.get("input") {
        Some(ArgValue::Path(p)) => parent_of(p.as_str()),
        _ => None,
    }
}

/// What planning a command with `token` gives: an output path that cannot
/// be computed fails at the output stage, an argv that cannot be rendered
/// at the command stage; otherwise the plan holds the output plan, the
/// rendered argv and the input's directory.
pub open spec fn planned(
    output: OutputSpec,
    command: CommandSpec,
    effective: Seq<(Seq<char>, ValueView)>,
    token: Seq<char>,
    r: Result<CommandPlan, ToolOutcome>,
) -> bool {
    &&& output_path_spec(output, effective) matches Err(e) ==> r matches Err(o) && o@ == (
    OutcomeView::Failed { stage: Stage::Output, detail: fault_message(e), hint: None })
    &&& output_path_spec(output, effective) matches Ok(p) ==> {
        let temp = match p {
            Some(f) => Some(temp_path(f, token)),
            None => None,
        };
        &&& argv_spec(command.args@, effective, temp) matches Err(e) ==> r matches Err(o) && o@
            == (OutcomeView::Failed { stage: Stage::Command, detail: fault_message(e), hint: None })
        &&& argv_spec(command.args@, effective, temp) matches Ok(a) ==> r matches Ok(plan) && (
        match p {
            Some(f) => plan.output matches Some(op) && op.final_path@ == f && op.temp@ == temp_path(
                f,
                token,
            ),
            None => plan.output is None,
        }) && views(plan.argv@) == a && opt_text_of(plan.cwd) == input_dir(effective)
    }
}

/// Where a command's output goes and what it is run with, or what the
/// request fails with (see [`planned`]). `token` makes the temporary output
/// name unique.
pub fn plan_command(output: &OutputSpec, command: &CommandSpec, effective: &ArgMap, token: &str) -> (r:
    Result<CommandPlan, ToolOutcome>)
    ensures
        planned(*output, *command, effective@, token@, r),
{
    let path = match compute_output_path(output, effective) {
        Ok(p) => p,
        Err(e) => {
            return Err(failed(Stage::Output, e.message()));
        },
    };
    let plan = match path {
        Some(p) => Some(OutputPlan::for_final_with(p, token)),
        None => None,
    };
    let argv = match &plan {
        Some(op) => render_argv(command.args.as_slice(), effective, Some(op.temp.as_str())),
        None => render_argv(command.args.as_slice(), effective, None),
    };
    let argv = match argv {
        Ok(a) => a,
        Err(e) => {
            return Err(failed(Stage::Command, e.message()));
        },
    };
    let cwd = input_directory(effective);
    Ok(CommandPlan { output: plan, argv, cwd })
}

/// Plans a command as a run does, with a fresh random token (a UUID in its
/// hyphenated form) in the temporary output name.
pub fn plan_fresh_command(output: &OutputSpec, command: &CommandSpec, effective: &ArgMap) -> (r:
    Result<CommandPlan, ToolOutcome>)
    ensures
        exists|t: Seq<char>| is_uuid_text(t) && #[trigger] planned(*output, *command, effective@, t, r),
{
    let token = fresh_token();
    let r = plan_command(output, command, effective, token.as_str());
    assert(planned(*output, *command, effective@, token@, r));
    r
}

/// The text of an optional string.
pub open spec fn opt_text_of(o: Option<String>) -> Option<Seq<char>> {
    match o {
        Some(s) => Some(s@),
        None => None,
    }
}

/// An unavailable binary: not installed, and how to fix that.
pub fn unavailable_binary(binary: &str) -> (o: ToolOutcome)
    ensures
        o@ == (OutcomeView::Unavailable {
            reason: binary@ + " is not installed"@,
            fix: Some("install "@ + binary@ + " or add it to your PATH"@),
        }),
{
    let mut reason = String::new();
    push_str(&mut reason, binary);
    push_str(&mut reason, " is not installed");
    let mut fix = String::new();
    push_str(&mut fix, "install ");
    push_str(&mut fix, binary);
    push_str(&mut fix, " or add it to your PATH");
    ToolOutcome::Unavailable { reason, fix: Some(fix) }
}

/// How a command that exited unsuccessfully is described.
pub open spec fn exit_detail(code: Option<i32>) -> Seq<char> {
    "exited with "@ + match code {
        Some(c) => dec_int(c as int),
        None => "signal"@,
    }
}

/// What a command's result becomes when it did not succeed; `None` for a
/// success, whose meaning depends on the kind of run.
pub open spec fn failure_of(result: CommandResult, command: CommandSpec) -> Option<OutcomeView> {
    match result {
        CommandResult::Success { .. } => None,
        CommandResult::NonZeroExit { code, stderr_tail } => Some(
            OutcomeView::Failed {
                stage: Stage::Command,
                detail: exit_detail(code),
                hint: stderr_hint(stderr_tail@),
            },
        ),
        CommandResult::Timeout => Some(
            OutcomeView::Failed {
                stage: Stage::Command,
                detail: "timed out after "@ + duration_debug(command.timeout@.0, command.timeout@.1),
                hint: None,
            },
        ),
        CommandResult::Cancelled => Some(OutcomeView::Cancelled),
        CommandResult::SpawnFailed { detail } => Some(
            OutcomeView::Failed {
                stage: Stage::Command,
                detail: detail@,
                hint: Some("could not start "@ + command.binary@),
            },
        ),
        CommandResult::OutputMissing => Some(
            OutcomeView::Failed {
                stage: Stage::Output,
                detail: "expected output file was not created"@,
                hint: None,
            },
        ),
    }
}

/// The outcome of an unsuccessful command run.
pub fn failure_outcome(result: &CommandResult, command: &CommandSpec) -> (r: Option<ToolOutcome>)
    ensures
        r matches Some(o) ==> failure_of(*result, *command) == Some(o@),
        r is None ==> failure_of(*result, *command) is None,
{
    match result {
        CommandResult::Success { .. } => None,
        CommandResult::NonZeroExit { code, stderr_tail } => {
            let mut detail = String::new();
            push_str(&mut detail, "exited with ");
            match code {
                Some(c) => {
                    let t = i64_to_string(*c as i64);
                    push_str(&mut detail, t.as_str());
                },
                None => push_str(&mut detail, "signal"),
            }
            proof {
                reveal_strlit("signal");
            }
            assert(detail@ =~= exit_detail(*code));
            Some(ToolOutcome::Failed {
                stage: Stage::Command,
                detail,
                hint: hint_for_stderr(stderr_tail.as_str()),
            })
        },
        CommandResult::Timeout => {
            let mut detail = String::new();
            push_str(&mut detail, "timed out after ");
            let t = command.timeout.debug_text();
            push_str(&mut detail, t.as_str());
            Some(failed(Stage::Command, detail))
        },
        CommandResult::Cancelled => Some(ToolOutcome::Cancelled),
        CommandResult::SpawnFailed { detail } => {
            let mut hint = String::new();
            push_str(&mut hint, "could not start ");
            push_str(&mut hint, command.binary.as_str());
            Some(ToolOutcome::Failed { stage: Stage::Command, detail: detail.clone(), hint: Some(hint) })
        },
        CommandResult::OutputMissing => Some(
            failed(Stage::Output, "expected output file was not created".to_owned()),
        ),
    }
}

/// What a single-file command run's result becomes: the produced file on
/// success, a failure when it produced none.
pub open spec fn command_outcome_of(result: CommandResult, command: CommandSpec) -> OutcomeView {
    match result {
        CommandResult::Success { output_file: Some(p) } => OutcomeView::File { path: p@ },
        CommandResult::Success { output_file: None } => OutcomeView::Failed {
            stage: Stage::Output,
            detail: "command produced no output"@,
            hint: None,
        },
        _ => failure_of(result, command)->Some_0,
    }
}

/// The outcome of a single-file command run.
pub fn command_outcome(result: &CommandResult, command: &CommandSpec) -> (o: ToolOutcome)
    ensures
        o@ == command_outcome_of(*result, *command),
{
    match result {
        CommandResult::Success { output_file: Some(p) } => ToolOutcome::File { path: p.clone() },
        CommandResult::Success { output_file: None } => failed(
            Stage::Output,
            "command produced no output".to_owned(),
        ),
        _ => match failure_outcome(result, command) {
            Some(o) => o,
            None => failed(Stage::Output, "command produced no output".to_owned()),
        },
    }
}

// ---------------------------------------------------------------------------
// Batches: one run per input file

/// The name a batch shows for an input file: its file name, else the
/// whole path.
pub open spec fn shown_name(p: Seq<char>) -> Seq<char> {
    match path_file_name(p) {
        Some(n) => n,
        None => p,
    }
}

/// The name a batch shows for an input file.
pub fn shown_name_of(p: &str) -> (s: String)
    ensures
        s@ == shown_name(p@),
{
    match file_name_of(p) {
        Some(n) => n,
        None => p.to_owned(),
    }
}

/// The progress message before the file at `index` of `total` runs.
pub open spec fn batch_message_text(index: nat, total: nat, name: Seq<char>) -> Seq<char> {
    "Converting "@ + dec_nat(index + 1) + " of "@ + dec_nat(total) + ": "@ + name
}

/// The progress message before the file at `index` of `total` runs.
pub fn batch_message(index: usize, total: usize, name: &str) -> (s: String)
    requires
        index < total,
    ensures
        s@ == batch_message_text(index as nat, total as nat, name@),
{
    let mut s = String::new();
    push_str(&mut s, "Converting ");
    let a = usize_to_string(index + 1);
    push_str(&mut s, a.as_str());
    push_str(&mut s, " of ");
    let b = usize_to_string(total);
    push_str(&mut s, b.as_str());
    push_str(&mut s, ": ");
    push_str(&mut s, name);
    s
}

/// The values one file of a batch runs with: the batch's values with the
/// list of paths replaced by that one path.
pub fn single_input(effective: &ArgMap, arg_name: &str, path: &str) -> (r: ArgMap)
    ensures
        r@ == map_insert(effective@, arg_name@, ValueView::Path(path@)),
{
    let mut r = effective.clone();
    r.insert(arg_name.to_owned(), ArgValue::Path(path.to_owned()));
    r
}

/// A short account of an outcome that is not a produced file.
pub open spec fn summary_of(o: OutcomeView) -> Seq<char> {
    match o {
        OutcomeView::Failed { detail, hint, .. } => match hint {
            Some(h) => detail + " \u{2014} "@ + h,
            None => detail,
        },
        OutcomeView::Unavailable { reason, .. } => reason,
        OutcomeView::Value { kind, data } => "Value { kind: "@ + kind_debug(kind) + ", data: "@
            + quoted_debug(data) + " }"@,
        OutcomeView::File { path } => "File { path: "@ + quoted_debug(path) + " }"@,
        OutcomeView::Report { title, lines } => "Report { title: "@ + quoted_debug(title)
            + ", lines: ["@ + joined(Seq::new(lines.len(), |i: int| quoted_debug(lines[i])), ", "@)
            + "] }"@,
        OutcomeView::Cancelled => "Cancelled"@,
    }
}

/// `{:?}` of a value kind.
pub open spec fn kind_debug(k: ValueKind) -> Seq<char> {
    match k {
        ValueKind::Color => "Color"@,
        ValueKind::Text => "Text"@,
    }
}

/// `{:?}` of a string: quoted and escaped.
pub open spec fn quoted_debug(s: Seq<char>) -> Seq<char> {
    "\""@ + debug_escape(s) + "\""@
}

fn push_quoted_debug(out: &mut String, s: &str)
    ensures
        final(out)@ == old(out)@ + quoted_debug(s@),
{
    push_str(out, "\"");
    push_debug_escaped(out, s);
    push_str(out, "\"");
}

/// A short account of an outcome.
pub fn outcome_summary(o: &ToolOutcome) -> (s: String)
    ensures
        s@ == summary_of(o@),
{
    let mut s = String::new();
    match o {
        ToolOutcome::Failed { detail, hint, .. } => {
            push_str(&mut s, detail.as_str());
            match hint {
                Some(h) => {
                    push_str(&mut s, " \u{2014} ");
                    push_str(&mut s, h.as_str());
                },
                None => {},
            }
        },
        ToolOutcome::Unavailable { reason, .. } => push_str(&mut s, reason.as_str()),
        ToolOutcome::Value { kind, data } => {
            push_str(&mut s, "Value { kind: ");
            match kind {
                ValueKind::Color => push_str(&mut s, "Color"),
                ValueKind::Text => push_str(&mut s, "Text"),
            }
            push_str(&mut s, ", data: ");
            push_quoted_debug(&mut s, data.as_str());
            push_str(&mut s, " }");
        },
        ToolOutcome::File { path } => {
            push_str(&mut s, "File { path: ");
            push_quoted_debug(&mut s, path.as_str());
            push_str(&mut s, " }");
        },
        ToolOutcome::Report { title, lines } => {
            push_str(&mut s, "Report { title: ");
            push_quoted_debug(&mut s, title.as_str());
            push_str(&mut s, ", lines: [");
            let ghost items = Seq::new(lines@.len(), |i: int| quoted_debug(lines@[i]@));
            let ghost start = s@;
            let mut k: usize = 0;
            while k < lines.len()
                invariant
                    k <= lines@.len(),
                    items == Seq::new(lines@.len(), |i: int| quoted_debug(lines@[i]@)),
                    s@ == start + joined(items.take(k as int), ", "@),
                decreases lines.len() - k,
            {
                if k > 0 {
                    push_str(&mut s, ", ");
                }
                push_quoted_debug(&mut s, lines[k].as_str());
                assert(items.take(k + 1).drop_last() =~= items.take(k as int));
                assert(items.take(k + 1).last() == items[k as int]);
                if k == 0 {
                    assert(items.take(1).len() == 1);
                }
                assert(s@ =~= start + joined(items.take(k + 1), ", "@));
                k += 1;
            }
            assert(items.take(k as int) =~= items);
            push_str(&mut s, "] }");
            proof {
                let lv = views(lines@);
                assert(items =~= Seq::new(lv.len(), |i: int| quoted_debug(lv[i])));
            }
        },
        ToolOutcome::Cancelled => push_str(&mut s, "Cancelled"),
    }
    assert(s@ =~= summary_of(o@));
    s
}

/// The report line of one file of a batch.
pub open spec fn batch_line(name: Seq<char>, o: OutcomeView) -> Seq<char> {
    match o {
        OutcomeView::File { path } => "\u{2713} "@ + name + " \u{2192} "@ + path,
        _ => "\u{2717} "@ + name + ": "@ + summary_of(o),
    }
}

/// How many outcomes are produced files.
pub open spec fn files_made(os: Seq<OutcomeView>) -> nat
    decreases os.len(),
{
    if os.len() == 0 {
        0
    } else {
        files_made(os.drop_last()) + if os.last() is File {
            1nat
        } else {
            0nat
        }
    }
}

/// The outcomes as values.
pub open spec fn outcome_views(os: Seq<ToolOutcome>) -> Seq<OutcomeView> {
    Seq::new(os.len(), |i: int| os[i]@)
}

/// A batch's outcome: cancelled as soon as one run was; otherwise a report
/// titled with how many of the files were converted, with one line per
/// file.
pub open spec fn batch_summary(names: Seq<Seq<char>>, os: Seq<OutcomeView>) -> OutcomeView {
    if exists|i: int| 0 <= i < os.len() && #[trigger] os[i] is Cancelled {
        OutcomeView::Cancelled
    } else {
        OutcomeView::Report {
            title: dec_nat(files_made(os)) + " of "@ + dec_nat(names.len()) + " converted"@,
            lines: Seq::new(os.len(), |i: int| batch_line(names[i], os[i])),
        }
    }
}

/// The outcome of a batch, from each file's shown name and outcome.
pub fn summarize_batch(names: &Vec<String>, outcomes: &Vec<ToolOutcome>) -> (o: ToolOutcome)
    requires
        names@.len() == outcomes@.len(),
    ensures
        o@ == batch_summary(views(names@), outcome_views(outcomes@)),
{
    let ghost os = outcome_views(outcomes@);
    let mut lines: Vec<String> = Vec::new();
    let mut succeeded: usize = 0;
    let mut i: usize = 0;
    while i < outcomes.len()
        invariant
            i <= outcomes@.len(),
            names@.len() == outcomes@.len(),
            os == outcome_views(outcomes@),
            forall|q: int| 0 <= q < i ==> !(#[trigger] os[q] is Cancelled),
            succeeded as nat == files_made(os.take(i as int)),
            succeeded <= i,
            lines@.len() == i,
            forall|q: int| 0 <= q < i ==> #[trigger] lines@[q]@ == batch_line(names@[q]@, os[q]),
        decreases outcomes.len() - i,
    {
        assert(os.take(i + 1).drop_last() =~= os.take(i as int));
        assert(os[i as int] == outcomes@[i as int]@);
        let mut line = String::new();
        match &outcomes[i] {
            ToolOutcome::Cancelled => {
                assert(os[i as int] is Cancelled);
                return ToolOutcome::Cancelled;
            },
            ToolOutcome::File { path } => {
                succeeded = succeeded + 1;
                push_str(&mut line, "\u{2713} ");
                push_str(&mut line, names[i].as_str());
                push_str(&mut line, " \u{2192} ");
                push_str(&mut line, path.as_str());
            },
            other => {
                push_str(&mut line, "\u{2717} ");
                push_str(&mut line, names[i].as_str());
                push_str(&mut line, ": ");
                let sm = outcome_summary(other);
                push_str(&mut line, sm.as_str());
            },
        }
        assert(line@ =~= batch_line(names@[i as int]@, os[i as int]));
        lines.push(line);
        i += 1;
    }
    assert(os.take(i as int) =~= os);
    let mut title = String::new();
    let a = usize_to_string(succeeded);
    push_str(&mut title, a.as_str());
    push_str(&mut title, " of ");
    let b = usize_to_string(names.len());
    push_str(&mut title, b.as_str());
    push_str(&mut title, " converted");
    let o = ToolOutcome::Report { title, lines };
    assert(views(lines@) =~= Seq::new(os.len(), |q: int| batch_line(views(names@)[q], os[q])));
    o
}

/// What a batch does next.
#[derive(Debug, Clone, PartialEq)]
pub enum BatchStep {
    /// Run the file at this index.
    Next(usize),
    /// The batch is over, with this outcome.
    Done(ToolOutcome),
}

/// The next step of a batch over `total` files, after the runs whose shown
/// names and outcomes are given, and knowing whether the batch has been
/// cancelled: a cancelled run ends it as cancelled; after the last file
/// comes the summary; a cancellation before the next file ends it as
/// cancelled; otherwise the next file runs.
pub fn batch_step(total: usize, names: &Vec<String>, outcomes: &Vec<ToolOutcome>, cancelled: bool) -> (s:
    BatchStep)
    requires
        names@.len() == outcomes@.len(),
        outcomes@.len() <= total,
    ensures
        outcomes@.len() > 0 && outcomes@.last() is Cancelled ==> s == BatchStep::Done(ToolOutcome::Cancelled),
        !(outcomes@.len() > 0 && outcomes@.last() is Cancelled) && outcomes@.len() == total ==> (s matches BatchStep::Done(o)
            && o@ == batch_summary(views(names@), outcome_views(outcomes@))),
        !(outcomes@.len() > 0 && outcomes@.last() is Cancelled) && outcomes@.len() < total && cancelled ==> s
            == BatchStep::Done(ToolOutcome::Cancelled),
        !(outcomes@.len() > 0 && outcomes@.last() is Cancelled) && outcomes@.len() < total && !cancelled ==> s
            == BatchStep::Next(outcomes@.len() as usize),
{
    let done = outcomes.len();
    if done > 0 && matches!(outcomes[done - 1], ToolOutcome::Cancelled) {
        BatchStep::Done(ToolOutcome::Cancelled)
    } else if done == total {
        BatchStep::Done(summarize_batch(names, outcomes))
    } else if cancelled {
        BatchStep::Done(ToolOutcome::Cancelled)
    } else {
        BatchStep::Next(done)
    }
}

// ---------------------------------------------------------------------------
// Splits: one run, several output files

/// Where a split writes: the output directory, the prefix of each
/// produced file's final name, and the fresh scratch directory the command
/// is given.
#[derive(Debug, Clone)]
pub struct SplitPaths {
    pub destination: String,
    pub prefix: String,
    pub scratch: String,
}

/// The scratch directory of a split inside `destination`.
pub open spec fn scratch_dir(destination: Seq<char>, token: Seq<char>) -> Seq<char> {
    path_join(destination, ".wield-tmp-"@ + token + "-split"@)
}

/// What planning a split with `token` gives: the destination directory,
/// the output name prefix and the scratch directory, or the output-stage
/// failure of the first that cannot be computed.
pub open spec fn split_planned(
    name_template: Seq<char>,
    dir: OutputDir,
    effective: Seq<(Seq<char>, ValueView)>,
    token: Seq<char>,
    r: Result<SplitPaths, ToolOutcome>,
) -> bool {
    &&& output_dir_spec(dir, effective) matches Err(e) ==> r matches Err(o) && o@ == (
    OutcomeView::Failed { stage: Stage::Output, detail: fault_message(e), hint: None })
    &&& output_dir_spec(dir, effective) matches Ok(d) ==> (output_name_spec(
        name_template,
        effective,
    ) matches Err(e) ==> r matches Err(o) && o@ == (OutcomeView::Failed {
        stage: Stage::Output,
        detail: fault_message(e),
        hint: None,
    })) && (output_name_spec(name_template, effective) matches Ok(n) ==> r matches Ok(p)
        && p.destination@ == d && p.prefix@ == n && p.scratch@ == scratch_dir(d, token))
}

/// Where a split writes, or what it fails with at the output stage (see
/// [`split_planned`]).
pub fn plan_split(name_template: &str, dir: &OutputDir, effective: &ArgMap, token: &str) -> (r: Result<
    SplitPaths,
    ToolOutcome,
>)
    ensures
        split_planned(name_template@, *dir, effective@, token@, r),
{
    let destination = match resolve_output_dir(dir, effective) {
        Ok(d) => d,
        Err(e) => {
            return Err(failed(Stage::Output, e.message()));
        },
    };
    let prefix = match render_output_name(name_template, effective) {
        Ok(n) => n,
        Err(e) => {
            return Err(failed(Stage::Output, e.message()));
        },
    };
    let mut name = String::new();
    push_str(&mut name, ".wield-tmp-");
    push_str(&mut name, token);
    push_str(&mut name, "-split");
    let scratch = join_paths(destination.as_str(), name.as_str());
    assert(name@ =~= ".wield-tmp-"@ + token@ + "-split"@);
    Ok(SplitPaths { destination, prefix, scratch })
}

/// Plans a split as a run does, with a fresh random token (a UUID in its
/// hyphenated form) in the scratch directory's name.
pub fn plan_fresh_split(name_template: &str, dir: &OutputDir, effective: &ArgMap) -> (r: Result<
    SplitPaths,
    ToolOutcome,
>)
    ensures
        exists|t: Seq<char>| is_uuid_text(t) && #[trigger] split_planned(name_template@, *dir, effective@, t, r),
{
    let token = fresh_token();
    let r = plan_split(name_template, dir, effective, token.as_str());
    assert(split_planned(name_template@, *dir, effective@, token@, r));
    r
}

/// A command's argv, or its rendering failure at the command stage.
pub fn command_argv(command: &CommandSpec, effective: &ArgMap, output: Option<&str>) -> (r: Result<
    Vec<String>,
    ToolOutcome,
>)
    ensures
        argv_spec(command.args@, effective@, opt_view(output)) matches Ok(a) ==> r matches Ok(v)
            && views(v@) == a,
        argv_spec(command.args@, effective@, opt_view(output)) matches Err(e) ==> r matches Err(o)
            && o@ == (OutcomeView::Failed { stage: Stage::Command, detail: fault_message(e), hint: None }),
{
    match render_argv(command.args.as_slice(), effective, output) {
        Ok(v) => Ok(v),
        Err(e) => Err(failed(Stage::Command, e.message())),
    }
}

/// The final path of the produced file at `index` (counting from zero).
pub open spec fn split_target_path(destination: Seq<char>, prefix: Seq<char>, index: nat) -> Seq<char> {
    path_join(destination, prefix + "-"@ + dec_nat(index + 1) + ".pdf"@)
}

/// The final path of the produced file at `index`.
pub fn split_target(destination: &str, prefix: &str, index: usize) -> (s: String)
    requires
        index < usize::MAX,
    ensures
        s@ == split_target_path(destination@, prefix@, index as nat),
{
    let mut name = String::new();
    push_str(&mut name, prefix);
    push_str(&mut name, "-");
    let n = usize_to_string(index + 1);
    push_str(&mut name, n.as_str());
    push_str(&mut name, ".pdf");
    join_paths(destination, name.as_str())
}

/// The report line of the produced file at `index`: moved to `target`, or
/// the error that stopped the move.
pub open spec fn split_line_text(index: nat, target: Seq<char>, moved: Result<(), Seq<char>>) -> Seq<char> {
    match moved {
        Ok(()) => "\u{2713} page "@ + dec_nat(index + 1) + " \u{2192} "@ + target,
        Err(e) => "\u{2717} page "@ + dec_nat(index + 1) + ": "@ + e,
    }
}

/// The report line of the produced file at `index`.
pub fn split_line(index: usize, target: &str, moved: &Result<(), String>) -> (s: String)
    requires
        index < usize::MAX,
    ensures
        s@ == split_line_text(
            index as nat,
            target@,
            match moved {
                Ok(()) => Ok(()),
                Err(e) => Err(e@),
            },
        ),
{
    let mut s = String::new();
    let n = usize_to_string(index + 1);
    match moved {
        Ok(()) => {
            push_str(&mut s, "\u{2713} page ");
            push_str(&mut s, n.as_str());
            push_str(&mut s, " \u{2192} ");
            push_str(&mut s, target);
        },
        Err(e) => {
            push_str(&mut s, "\u{2717} page ");
            push_str(&mut s, n.as_str());
            push_str(&mut s, ": ");
            push_str(&mut s, e.as_str());
        },
    }
    s
}

/// A split's outcome: a report of its lines, or a failure when the command
/// produced no files.
pub open spec fn split_summary(lines: Seq<Seq<char>>) -> OutcomeView {
    if lines.len() == 0 {
        OutcomeView::Failed {
            stage: Stage::Output,
            detail: "command produced no output files"@,
            hint: None,
        }
    } else {
        OutcomeView::Report {
            title: "Split into "@ + dec_nat(lines.len()) + " files"@,
            lines,
        }
    }
}

/// The outcome of a split from its report lines.
pub fn split_report(lines: Vec<String>) -> (o: ToolOutcome)
    ensures
        o@ == split_summary(views(lines@)),
{
    if lines.len() == 0 {
        return failed(Stage::Output, "command produced no output files".to_owned());
    }
    let mut title = String::new();
    push_str(&mut title, "Split into ");
    let n = usize_to_string(lines.len());
    push_str(&mut title, n.as_str());
    push_str(&mut title, " files");
    ToolOutcome::Report { title, lines }
}

/// Path `a` orders before path `b` (by code point, which is the order of
/// `PathBuf` for the entries of one directory), equal paths in the
/// order they were listed in.
pub open spec fn path_before(keys: Seq<Seq<char>>, a: int, b: int) -> bool {
    seq_lt(keys[a], keys[b]) || (keys[a] == keys[b] && a < b)
}

/// Some entry of `order` is `i`.
pub open spec fn lists(order: Seq<usize>, i: int) -> bool {
    exists|k: int| 0 <= k < order.len() && order[k] == i
}

/// `order` lists every index of `keys` once, in path order.
pub open spec fn is_path_order(keys: Seq<Seq<char>>, order: Seq<usize>) -> bool {
    &&& forall|k: int| 0 <= k < order.len() ==> #[trigger] order[k] < keys.len()
    &&& forall|i: int| 0 <= i < keys.len() ==> #[trigger] lists(order, i)
    &&& forall|a: int, b: int| 0 <= a < b < order.len() ==> path_before(keys, #[trigger] order[a] as int, #[trigger] order[b] as int)
}

proof fn lemma_path_order(keys: Seq<Seq<char>>, a: int, b: int, c: int)
    ensures
        a != b ==> path_before(keys, a, b) || path_before(keys, b, a),
        !(path_before(keys, a, b) && path_before(keys, b, a)),
        path_before(keys, a, b) && path_before(keys, b, c) ==> path_before(keys, a, c),
{
    lemma_seq_lt_irrefl(keys[a]);
    lemma_seq_lt_total(keys[a], keys[b]);
    if path_before(keys, a, b) && path_before(keys, b, c) {
        if seq_lt(keys[a], keys[b]) && seq_lt(keys[b], keys[c]) {
            lemma_seq_lt_trans(keys[a], keys[b], keys[c]);
        }
    }
}

/// The entries in path order.
pub fn sort_paths(paths: &Vec<String>) -> (r: Vec<String>)
    ensures
        exists|order: Seq<usize>|
            is_path_order(views(paths@), order) && views(r@) == order.map_values(
                |i: usize| paths@[i as int]@,
            ),
{
    let ghost keys = views(paths@);
    let mut chars: Vec<Vec<char>> = Vec::new();
    let mut i: usize = 0;
    while i < paths.len()
        invariant
            i <= paths@.len(),
            chars@.len() == i,
            forall|q: int| 0 <= q < i ==> #[trigger] chars@[q]@ == paths@[q]@,
        decreases paths.len() - i,
    {
        chars.push(chars_of(paths[i].as_str()));
        i += 1;
    }
    let mut order: Vec<usize> = Vec::new();
    let mut i: usize = 0;
    while i < paths.len()
        invariant
            i <= paths@.len(),
            keys == views(paths@),
            chars@.len() == paths@.len(),
            forall|q: int| 0 <= q < chars@.len() ==> #[trigger] chars@[q]@ == paths@[q]@,
            forall|k: int| 0 <= k < order@.len() ==> #[trigger] order@[k] < i,
            forall|j: int| 0 <= j < i ==> #[trigger] lists(order@, j),
            forall|a: int, b: int| 0 <= a < b < order@.len() ==> path_before(keys, #[trigger] order@[a] as int, #[trigger] order@[b] as int),
        decreases paths.len() - i,
    {
        let mut p: usize = 0;
        while p < order.len() && !(chars_lt(&chars[i], &chars[order[p]]) || (chars_eq(&chars[i], &chars[order[p]]) && i < order[p]))
            invariant
                p <= order@.len(),
                i < paths@.len(),
                keys == views(paths@),
                chars@.len() == paths@.len(),
                forall|q: int| 0 <= q < chars@.len() ==> #[trigger] chars@[q]@ == paths@[q]@,
                forall|k: int| 0 <= k < order@.len() ==> #[trigger] order@[k] < i,
                forall|k: int| 0 <= k < p ==> !path_before(keys, i as int, #[trigger] order@[k] as int),
            decreases order@.len() - p,
        {
            p += 1;
        }
        let ghost old_order = order@;
        proof {
            assert forall|k: int| 0 <= k < p implies path_before(keys, #[trigger] old_order[k] as int, i as int) by {
                lemma_path_order(keys, old_order[k] as int, i as int, 0);
            }
            assert forall|k: int| p <= k < old_order.len() implies path_before(keys, i as int, #[trigger] old_order[k] as int) by {
                if k > p {
                    lemma_path_order(keys, i as int, old_order[p as int] as int, old_order[k] as int);
                }
            }
        }
        order.insert(p, i);
        proof {
            assert forall|a: int, b: int| 0 <= a < b < order@.len() implies path_before(keys, #[trigger] order@[a] as int, #[trigger] order@[b] as int) by {
                if a < p && b > p {
                    assert(order@[b] == old_order[b - 1]);
                } else if a == p {
                    assert(order@[b] == old_order[b - 1]);
                } else if a > p {
                    assert(order@[a] == old_order[a - 1]);
                    assert(order@[b] == old_order[b - 1]);
                }
            }
            assert forall|j: int| 0 <= j < i + 1 implies #[trigger] lists(order@, j) by {
                if j < i {
                    assert(lists(old_order, j));
                    let k = choose|k: int| 0 <= k < old_order.len() && old_order[k] == j;
                    if k < p {
                        assert(order@[k] == j);
                    } else {
                        assert(order@[k + 1] == j);
                    }
                } else {
                    assert(order@[p as int] == i);
                }
            }
        }
        i += 1;
    }
    let mut out: Vec<String> = Vec::new();
    let mut k: usize = 0;
    while k < order.len()
        invariant
            k <= order@.len(),
            is_path_order(keys, order@),
            keys == views(paths@),
            out@.len() == k,
            forall|q: int| 0 <= q < k ==> #[trigger] out@[q]@ == paths@[order@[q] as int]@,
        decreases order.len() - k,
    {
        out.push(paths[order[k]].clone());
        k += 1;
    }
    assert(views(out@) =~= order@.map_values(|i: usize| paths@[i as int]@));
    out
}

// ---------------------------------------------------------------------------
// The executor's configuration

/// What the pipeline runs with: where binaries are found, the runner of
/// portal tools (if any), and what the machine offers.
#[derive(Debug, Clone)]
pub struct Executor<P> {
    pub resolver: BinaryResolver,
    pub portal: Option<P>,
    pub availability: AvailabilityView,
}

impl<P> Executor<P> {
    /// An executor with no portal runner and nothing known to be available.
    pub fn new(resolver: BinaryResolver) -> (e: Self)
        ensures
            e.resolver == resolver,
            e.portal is None,
            e.availability.binaries@ == Set::<Seq<char>>::empty(),
            e.availability.portals@ == Map::<Seq<char>, u32>::empty(),
    {
        Executor { resolver, portal: None, availability: AvailabilityView::default() }
    }

    /// The same executor, running portal tools with `portal`.
    pub fn with_portal(self, portal: P) -> (e: Self)
        ensures
            e.resolver == self.resolver,
            e.portal == Some(portal),
            e.availability == self.availability,
    {
        Executor { resolver: self.resolver, portal: Some(portal), availability: self.availability }
    }

    /// The same executor, with what the machine offers.
    pub fn with_availability(self, availability: AvailabilityView) -> (e: Self)
        ensures
            e.resolver == self.resolver,
            e.portal == self.portal,
            e.availability == availability,
    {
        Executor { resolver: self.resolver, portal: self.portal, availability }
    }
}

} // verus!

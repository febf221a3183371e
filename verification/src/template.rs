//! Command-template rendering: placeholder extraction, output names and
//! paths, and argv rendering.

use crate::args::{display_of, gate_holds, gate_open, lookup, ArgMap, ArgValue, ValueView};
use crate::descriptor::{CommandArg, OutputDir, OutputSpec};
use crate::path::{file_stem_of, join_paths, parent_of, path_file_stem, path_join, path_parent};
use crate::text::{
    chars_eq, chars_of, find_char_from, find_from, lemma_find_from, lemma_find_from_skip,
    push_str, replace_all, replace_all_chars, string_from, views,
};
use vstd::prelude::*;

verus! {

/// Why a template could not be rendered.
#[derive(Debug, Clone, PartialEq, Eq)]
pub enum TemplateError {
    MalformedPlaceholder(String),
    UnresolvedInOutputName(String),
    MissingInputArg,
    NonUtf8Path(String),
}

/// The mathematical content of a [`TemplateError`].
pub enum TemplateFault {
    Malformed(Seq<char>),
    Unresolved(Seq<char>),
    MissingInput,
    NonUtf8(Seq<char>),
}

impl View for TemplateError {
    type V = TemplateFault;

    open spec fn view(&self) -> TemplateFault {
        match self {
            TemplateError::MalformedPlaceholder(t) => TemplateFault::Malformed(t@),
            TemplateError::UnresolvedInOutputName(n) => TemplateFault::Unresolved(n@),
            TemplateError::MissingInputArg => TemplateFault::MissingInput,
            TemplateError::NonUtf8Path(p) => TemplateFault::NonUtf8(p@),
        }
    }
}

/// The message of a template error.
pub open spec fn fault_message(f: TemplateFault) -> Seq<char> {
    match f {
        TemplateFault::Malformed(t) => "malformed placeholder in "@ + t,
        TemplateFault::Unresolved(n) => "unresolved placeholder in output name: "@ + n,
        TemplateFault::MissingInput => "input argument is missing"@,
        TemplateFault::NonUtf8(p) => "path is not valid UTF-8: "@ + p,
    }
}

impl TemplateError {
    /// The error's message (its `Display` text).
    pub fn message(&self) -> (m: String)
        ensures
            m@ == fault_message(self@),
    {
        let mut m = String::new();
        match self {
            TemplateError::MalformedPlaceholder(t) => {
                push_str(&mut m, "malformed placeholder in ");
                push_str(&mut m, t.as_str());
            },
            TemplateError::UnresolvedInOutputName(n) => {
                push_str(&mut m, "unresolved placeholder in output name: ");
                push_str(&mut m, n.as_str());
            },
            TemplateError::MissingInputArg => {
                push_str(&mut m, "input argument is missing");
            },
            TemplateError::NonUtf8Path(p) => {
                push_str(&mut m, "path is not valid UTF-8: ");
                push_str(&mut m, p.as_str());
            },
        }
        proof {
            reveal_strlit("malformed placeholder in ");
            reveal_strlit("unresolved placeholder in output name: ");
            reveal_strlit("input argument is missing");
            reveal_strlit("path is not valid UTF-8: ");
        }
        m
    }
}

// ---------------------------------------------------------------------------
// Placeholders

pub open spec fn name_start(c: char) -> bool {
    ('a' <= c && c <= 'z') || c == '_'
}

pub open spec fn name_char(c: char) -> bool {
    ('a' <= c && c <= 'z') || ('0' <= c && c <= '9') || c == '_'
}

/// A placeholder name: a lower-case ASCII letter or `_`, then lower-case
/// ASCII letters, digits and `_`.
pub open spec fn valid_name(n: Seq<char>) -> bool {
    n.len() > 0 && name_start(n[0]) && forall|i: int| 1 <= i < n.len() ==> name_char(#[trigger] n[i])
}

/// The placeholder names of a template in order of appearance, or `None`
/// when a `{` has no closing `}` or encloses an invalid name.
pub open spec fn placeholders_of(t: Seq<char>) -> Option<Seq<Seq<char>>>
    decreases t.len(),
{
    if t.len() == 0 {
        Some(seq![])
    } else if t[0] != '{' {
        placeholders_of(t.drop_first())
    } else {
        match find_from(t, '}', 1) {
            None => None,
            Some(c) => {
                proof {
                    lemma_find_from(t, '}', 1);
                }
                let name = t.subrange(1, c);
                if !valid_name(name) {
                    None
                } else {
                    match placeholders_of(t.skip(c + 1)) {
                        Some(rest) => Some(seq![name] + rest),
                        None => None,
                    }
                }
            },
        }
    }
}

/// `{name}`.
pub open spec fn braced(n: Seq<char>) -> Seq<char> {
    seq!['{'] + n + seq!['}']
}

fn valid_name_exec(t: &[char], from: usize, to: usize) -> (r: bool)
    requires
        from <= to <= t@.len(),
    ensures
        r == valid_name(t@.subrange(from as int, to as int)),
{
    let ghost n = t@.subrange(from as int, to as int);
    if from == to {
        return false;
    }
    let c0 = t[from];
    assert(n[0] == c0);
    if !(('a' <= c0 && c0 <= 'z') || c0 == '_') {
        return false;
    }
    let mut k = from + 1;
    while k < to
        invariant
            from < k <= to <= t@.len(),
            n == t@.subrange(from as int, to as int),
            forall|i: int| 1 <= i < k - from ==> name_char(#[trigger] n[i]),
        decreases to - k,
    {
        let c = t[k];
        assert(n[k - from] == c);
        if !(('a' <= c && c <= 'z') || ('0' <= c && c <= '9') || c == '_') {
            return false;
        }
        k += 1;
    }
    true
}

fn placeholders_from(t: &[char], i: usize) -> (r: Option<Vec<Vec<char>>>)
    requires
        i <= t@.len(),
    ensures
        r matches Some(v) ==> placeholders_of(t@.skip(i as int)) == Some(v@.map_values(|x: Vec<char>| x@)),
        r is None ==> placeholders_of(t@.skip(i as int)) is None,
    decreases t@.len() - i,
{
    let ghost s = t@.skip(i as int);
    if i == t.len() {
        assert(s.len() == 0);
        let v: Vec<Vec<char>> = Vec::new();
        assert(v@.map_values(|x: Vec<char>| x@) =~= Seq::<Seq<char>>::empty());
        return Some(v);
    }
    assert(s[0] == t@[i as int]);
    if t[i] != '{' {
        assert(s.drop_first() =~= t@.skip(i + 1));
        return placeholders_from(t, i + 1);
    }
    let close = find_char_from(t, '}', i + 1);
    proof {
        lemma_find_from_skip(t@, '}', i as int, 1);
        lemma_find_from(t@, '}', i + 1);
    }
    match close {
        None => None,
        Some(c) => {
            let ghost cc = c - i;
            assert(s.subrange(1, cc) =~= t@.subrange(i + 1, c as int));
            if !valid_name_exec(t, i + 1, c) {
                return None;
            }
            assert(s.skip(cc + 1) =~= t@.skip(c + 1));
            match placeholders_from(t, c + 1) {
                None => None,
                Some(rest) => {
                    let mut name: Vec<char> = Vec::new();
                    let mut k = i + 1;
                    while k < c
                        invariant
                            i + 1 <= k <= c < t@.len(),
                            name@ == t@.subrange(i + 1, k as int),
                        decreases c - k,
                    {
                        name.push(t[k]);
                        k += 1;
                        assert(name@ =~= t@.subrange(i + 1, k as int));
                    }
                    let mut out: Vec<Vec<char>> = Vec::new();
                    out.push(name);
                    let mut j: usize = 0;
                    while j < rest.len()
                        invariant
                            j <= rest@.len(),
                            out@.len() == j + 1,
                            out@[0]@ == t@.subrange(i + 1, c as int),
                            forall|q: int| 0 <= q < j ==> #[trigger] out@[q + 1]@ == rest@[q]@,
                        decreases rest@.len() - j,
                    {
                        out.push(rest[j].clone());
                        j += 1;
                    }
                    assert forall|q: int| 1 <= q < out@.len() implies #[trigger] out@[q]@ == rest@[q - 1]@ by {
                        assert(out@[(q - 1) + 1]@ == rest@[q - 1]@);
                    }
                    assert(out@.map_values(|x: Vec<char>| x@) =~= seq![t@.subrange(i + 1, c as int)]
                        + rest@.map_values(|x: Vec<char>| x@));
                    Some(out)
                },
            }
        },
    }
}

/// The placeholder names of `template`, in order of appearance.
pub fn placeholders(template: &str) -> (r: Result<Vec<String>, TemplateError>)
    ensures
        r matches Ok(v) ==> placeholders_of(template@) == Some(views(v@)),
        r matches Err(e) ==> placeholders_of(template@) is None && e@ == TemplateFault::Malformed(
            template@,
        ),
{
    let t = chars_of(template);
    assert(t@.skip(0) =~= t@);
    match placeholders_from(&t, 0) {
        None => Err(TemplateError::MalformedPlaceholder(template.to_owned())),
        Some(names) => {
            let mut out: Vec<String> = Vec::new();
            let mut j: usize = 0;
            while j < names.len()
                invariant
                    j <= names@.len(),
                    out@.len() == j,
                    forall|q: int| 0 <= q < j ==> #[trigger] out@[q]@ == names@[q]@,
                decreases names@.len() - j,
            {
                out.push(string_from(&names[j]));
                j += 1;
            }
            assert(views(out@) =~= names@.map_values(|x: Vec<char>| x@));
            Ok(out)
        },
    }
}

// ---------------------------------------------------------------------------
// Resolving placeholders

/// The input path: the `input` path, or the first of a list of input paths.
pub open spec fn input_path(m: Seq<(Seq<char>, ValueView)>) -> Option<Seq<char>> {
    match lookup(m, "input"@) {
        Some(ValueView::Path(p)) => Some(p),
        Some(ValueView::Paths(ps)) => if ps.len() > 0 {
            Some(ps[0])
        } else {
            None
        },
        _ => None,
    }
}

/// The text a placeholder resolves to: `Ok(None)` when it has no value (the
/// segment is dropped), `Err` for `output`/`output_dir` with no output path.
pub open spec fn resolve_spec(
    name: Seq<char>,
    m: Seq<(Seq<char>, ValueView)>,
    out: Option<Seq<char>>,
) -> Result<Option<Seq<char>>, TemplateFault> {
    if name == "output"@ || name == "output_dir"@ {
        match out {
            None => Err(TemplateFault::Unresolved(name)),
            Some(p) => Ok(Some(p)),
        }
    } else if name == "input"@ {
        match lookup(m, "input"@) {
            Some(ValueView::Path(p)) => Ok(Some(p)),
            _ => Ok(None),
        }
    } else if name == "input_stem"@ {
        match input_path(m) {
            None => Ok(None),
            Some(p) => Ok(path_file_stem(p)),
        }
    } else if name == "input_dir"@ {
        match input_path(m) {
            None => Ok(None),
            Some(p) => Ok(
                Some(
                    match path_parent(p) {
                        Some(d) => d,
                        None => Seq::<char>::empty(),
                    },
                ),
            ),
        }
    } else {
        match lookup(m, name) {
            None => Ok(None),
            Some(v) => Ok(display_of(v)),
        }
    }
}

/// The text of an optional string.
pub open spec fn opt_view(o: Option<&str>) -> Option<Seq<char>> {
    match o {
        Some(s) => Some(s@),
        None => None,
    }
}

/// The input path of `effective`.
pub fn input_path_of(effective: &ArgMap) -> (r: Option<String>)
    ensures
        r matches Some(p) ==> input_path(effective@) == Some(p@),
        r is None ==> input_path(effective@) is None,
{
    proof {
        reveal_strlit("input");
    }
    match effective.get("input") {
        Some(ArgValue::Path(p)) => Some(p.clone()),
        Some(ArgValue::Paths(ps)) => {
            if ps.len() > 0 {
                Some(ps[0].clone())
            } else {
                None
            }
        },
        _ => None,
    }
}

fn is_word(s: &str, w: &str) -> (r: bool)
    ensures
        r == (s@ == w@),
{
    let a = chars_of(s);
    let b = chars_of(w);
    chars_eq(&a, &b)
}

/// The text a placeholder resolves to.
pub fn resolve(name: &str, effective: &ArgMap, output_path: Option<&str>) -> (r: Result<
    Option<String>,
    TemplateError,
>)
    ensures
        r matches Ok(Some(s)) ==> resolve_spec(name@, effective@, opt_view(output_path))
            == Ok::<Option<Seq<char>>, TemplateFault>(Some(s@)),
        r matches Ok(None) ==> resolve_spec(name@, effective@, opt_view(output_path))
            == Ok::<Option<Seq<char>>, TemplateFault>(None),
        r matches Err(e) ==> resolve_spec(name@, effective@, opt_view(output_path))
            == Err::<Option<Seq<char>>, TemplateFault>(e@),
{
    proof {
        reveal_strlit("output");
        reveal_strlit("output_dir");
        reveal_strlit("input");
        reveal_strlit("input_stem");
        reveal_strlit("input_dir");
    }
    if is_word(name, "output") || is_word(name, "output_dir") {
        return match output_path {
            None => Err(TemplateError::UnresolvedInOutputName(name.to_owned())),
            Some(p) => Ok(Some(p.to_owned())),
        };
    }
    if is_word(name, "input") {
        return match effective.get("input") {
            Some(ArgValue::Path(p)) => Ok(Some(p.clone())),
            _ => Ok(None),
        };
    }
    if is_word(name, "input_stem") {
        return match input_path_of(effective) {
            None => Ok(None),
            Some(p) => Ok(file_stem_of(p.as_str())),
        };
    }
    if is_word(name, "input_dir") {
        return match input_path_of(effective) {
            None => Ok(None),
            Some(p) => match parent_of(p.as_str()) {
                Some(d) => Ok(Some(d)),
                None => Ok(Some(String::new())),
            },
        };
    }
    match effective.get(name) {
        None => Ok(None),
        Some(v) => Ok(v.as_display_string()),
    }
}

// ---------------------------------------------------------------------------
// Rendering

/// Substitutes each token in turn: every `{token}` becomes its text; the
/// first token without text yields `Ok(None)`, the first failing one `Err`.
pub open spec fn substitute(
    acc: Seq<char>,
    tokens: Seq<Seq<char>>,
    m: Seq<(Seq<char>, ValueView)>,
    out: Option<Seq<char>>,
) -> Result<Option<Seq<char>>, TemplateFault>
    decreases tokens.len(),
{
    if tokens.len() == 0 {
        Ok(Some(acc))
    } else {
        match resolve_spec(tokens[0], m, out) {
            Err(e) => Err(e),
            Ok(None) => Ok(None),
            Ok(Some(r)) => substitute(
                replace_all(acc, braced(tokens[0]), r),
                tokens.drop_first(),
                m,
                out,
            ),
        }
    }
}

/// Like [`substitute`] for an output name: a token without text, and the
/// `output` token, are errors.
pub open spec fn substitute_name(
    acc: Seq<char>,
    tokens: Seq<Seq<char>>,
    m: Seq<(Seq<char>, ValueView)>,
) -> Result<Seq<char>, TemplateFault>
    decreases tokens.len(),
{
    if tokens.len() == 0 {
        Ok(acc)
    } else if tokens[0] == "output"@ {
        Err(TemplateFault::Unresolved(tokens[0]))
    } else {
        match resolve_spec(tokens[0], m, None) {
            Err(e) => Err(e),
            Ok(None) => Err(TemplateFault::Unresolved(tokens[0])),
            Ok(Some(r)) => substitute_name(
                replace_all(acc, braced(tokens[0]), r),
                tokens.drop_first(),
                m,
            ),
        }
    }
}

/// The rendered output name of a name template.
pub open spec fn output_name_spec(t: Seq<char>, m: Seq<(Seq<char>, ValueView)>) -> Result<
    Seq<char>,
    TemplateFault,
> {
    match placeholders_of(t) {
        None => Err(TemplateFault::Malformed(t)),
        Some(tokens) => substitute_name(t, tokens, m),
    }
}

fn braced_exec(n: &str) -> (r: Vec<char>)
    ensures
        r@ == braced(n@),
{
    let c = chars_of(n);
    let mut r: Vec<char> = Vec::new();
    r.push('{');
    let mut k: usize = 0;
    while k < c.len()
        invariant
            k <= c@.len(),
            r@ == seq!['{'] + c@.take(k as int),
        decreases c@.len() - k,
    {
        r.push(c[k]);
        k += 1;
        assert(r@ =~= seq!['{'] + c@.take(k as int));
    }
    r.push('}');
    assert(c@.take(k as int) =~= c@);
    assert(r@ =~= braced(n@));
    r
}

/// Renders an output-file name: every placeholder must resolve, and
/// `{output}` may not appear.
pub fn render_output_name(name_template: &str, effective: &ArgMap) -> (r: Result<
    String,
    TemplateError,
>)
    ensures
        r matches Ok(s) ==> output_name_spec(name_template@, effective@) == Ok::<
            Seq<char>,
            TemplateFault,
        >(s@),
        r matches Err(e) ==> output_name_spec(name_template@, effective@) == Err::<
            Seq<char>,
            TemplateFault,
        >(e@),
{
    let tokens = match placeholders(name_template) {
        Ok(t) => t,
        Err(e) => return Err(e),
    };
    let ghost toks = views(tokens@);
    let mut acc = chars_of(name_template);
    let mut i: usize = 0;
    proof {
        reveal_strlit("output");
        assert(toks.skip(0) =~= toks);
    }
    while i < tokens.len()
        invariant
            toks == views(tokens@),
            placeholders_of(name_template@) == Some(toks),
            i <= tokens@.len(),
            substitute_name(name_template@, toks, effective@) == substitute_name(
                acc@,
                toks.skip(i as int),
                effective@,
            ),
        decreases tokens@.len() - i,
    {
        let ghost rest = toks.skip(i as int);
        assert(rest[0] == tokens@[i as int]@);
        assert(rest.drop_first() =~= toks.skip(i + 1));
        if is_word(tokens[i].as_str(), "output") {
            return Err(TemplateError::UnresolvedInOutputName(tokens[i].clone()));
        }
        match resolve(tokens[i].as_str(), effective, None) {
            Err(e) => return Err(e),
            Ok(None) => return Err(TemplateError::UnresolvedInOutputName(tokens[i].clone())),
            Ok(Some(value)) => {
                let pat = braced_exec(tokens[i].as_str());
                let rep = chars_of(value.as_str());
                acc = replace_all_chars(&acc, &pat, &rep);
            },
        }
        i += 1;
    }
    assert(toks.skip(i as int).len() == 0);
    Ok(string_from(&acc))
}

/// The rendered argv entries of one command segment.
pub open spec fn segment_argv(
    seg: CommandArg,
    m: Seq<(Seq<char>, ValueView)>,
    out: Option<Seq<char>>,
) -> Result<Seq<Seq<char>>, TemplateFault> {
    if seg.when matches Some(when) && !gate_holds(when, m) {
        Ok(seq![])
    } else {
        let t = seg.template@;
        match placeholders_of(t) {
            None => Err(TemplateFault::Malformed(t)),
            Some(tokens) => {
                let spread = tokens.len() == 1 && t == braced(tokens[0]) && tokens[0] != "output"@
                    && tokens[0] != "output_dir"@;
                match lookup(m, tokens[0]) {
                    Some(ValueView::Paths(ps)) if spread => Ok(ps),
                    _ => match substitute(t, tokens, m, out) {
                        Err(e) => Err(e),
                        Ok(None) => Ok(seq![]),
                        Ok(Some(s)) => Ok(seq![s]),
                    },
                }
            },
        }
    }
}

/// The argv of a command: the segments' entries in order; the first
/// failing segment's error.
pub open spec fn argv_spec(
    segs: Seq<CommandArg>,
    m: Seq<(Seq<char>, ValueView)>,
    out: Option<Seq<char>>,
) -> Result<Seq<Seq<char>>, TemplateFault>
    decreases segs.len(),
{
    if segs.len() == 0 {
        Ok(seq![])
    } else {
        match segment_argv(segs[0], m, out) {
            Err(e) => Err(e),
            Ok(a) => match argv_spec(segs.drop_first(), m, out) {
                Err(e) => Err(e),
                Ok(b) => Ok(a + b),
            },
        }
    }
}


/// `prefix` in front of a successful result.
pub open spec fn prefixed(prefix: Seq<Seq<char>>, r: Result<Seq<Seq<char>>, TemplateFault>) -> Result<
    Seq<Seq<char>>,
    TemplateFault,
> {
    match r {
        Ok(b) => Ok(prefix + b),
        Err(e) => Err(e),
    }
}

fn substitute_exec(
    template: &str,
    tokens: &Vec<String>,
    effective: &ArgMap,
    output_path: Option<&str>,
) -> (r: Result<Option<String>, TemplateError>)
    ensures
        r matches Ok(Some(s)) ==> substitute(template@, views(tokens@), effective@, opt_view(output_path))
            == Ok::<Option<Seq<char>>, TemplateFault>(Some(s@)),
        r matches Ok(None) ==> substitute(template@, views(tokens@), effective@, opt_view(output_path))
            == Ok::<Option<Seq<char>>, TemplateFault>(None),
        r matches Err(e) ==> substitute(template@, views(tokens@), effective@, opt_view(output_path))
            == Err::<Option<Seq<char>>, TemplateFault>(e@),
{
    let ghost toks = views(tokens@);
    let ghost out = opt_view(output_path);
    let mut acc = chars_of(template);
    let mut i: usize = 0;
    assert(toks.skip(0) =~= toks);
    while i < tokens.len()
        invariant
            toks == views(tokens@),
            out == opt_view(output_path),
            i <= tokens@.len(),
            substitute(template@, toks, effective@, out) == substitute(
                acc@,
                toks.skip(i as int),
                effective@,
                out,
            ),
        decreases tokens@.len() - i,
    {
        let ghost rest = toks.skip(i as int);
        assert(rest[0] == tokens@[i as int]@);
        assert(rest.drop_first() =~= toks.skip(i + 1));
        match resolve(tokens[i].as_str(), effective, output_path) {
            Err(e) => return Err(e),
            Ok(None) => return Ok(None),
            Ok(Some(value)) => {
                let pat = braced_exec(tokens[i].as_str());
                let rep = chars_of(value.as_str());
                acc = replace_all_chars(&acc, &pat, &rep);
            },
        }
        i += 1;
    }
    assert(toks.skip(i as int).len() == 0);
    Ok(Some(string_from(&acc)))
}

/// The argv entries of one command segment.
pub fn render_segment(seg: &CommandArg, effective: &ArgMap, output_path: Option<&str>) -> (r: Result<
    Vec<String>,
    TemplateError,
>)
    ensures
        r matches Ok(v) ==> segment_argv(*seg, effective@, opt_view(output_path)) == Ok::<
            Seq<Seq<char>>,
            TemplateFault,
        >(views(v@)),
        r matches Err(e) ==> segment_argv(*seg, effective@, opt_view(output_path)) == Err::<
            Seq<Seq<char>>,
            TemplateFault,
        >(e@),
{
    if let Some(when) = &seg.when {
        if !gate_open(when, effective) {
            let v: Vec<String> = Vec::new();
            assert(views(v@) =~= Seq::<Seq<char>>::empty());
            return Ok(v);
        }
    }
    let tokens = match placeholders(seg.template.as_str()) {
        Ok(t) => t,
        Err(e) => return Err(e),
    };
    proof {
        reveal_strlit("output");
        reveal_strlit("output_dir");
    }
    if tokens.len() == 1 && !is_word(tokens[0].as_str(), "output") && !is_word(
        tokens[0].as_str(),
        "output_dir",
    ) {
        let t = chars_of(seg.template.as_str());
        let b = braced_exec(tokens[0].as_str());
        if chars_eq(&t, &b) {
            if let Some(ArgValue::Paths(ps)) = effective.get(tokens[0].as_str()) {
                let v = crate::text::copy_strings(ps);
                assert(views(v@) =~= views(ps@));
                return Ok(v);
            }
        }
    }
    match substitute_exec(seg.template.as_str(), &tokens, effective, output_path) {
        Err(e) => Err(e),
        Ok(None) => {
            let v: Vec<String> = Vec::new();
            assert(views(v@) =~= Seq::<Seq<char>>::empty());
            Ok(v)
        },
        Ok(Some(s)) => {
            let mut v: Vec<String> = Vec::new();
            v.push(s);
            assert(views(v@) =~= seq![v@[0]@]);
            Ok(v)
        },
    }
}

/// Renders a command's argv: gated segments whose gate fails are left out,
/// a bare placeholder of a list of paths spreads into one entry per path,
/// and a segment with a placeholder that has no value is left out.
pub fn render_argv(args: &[CommandArg], effective: &ArgMap, output_path: Option<&str>) -> (r: Result<
    Vec<String>,
    TemplateError,
>)
    ensures
        r matches Ok(v) ==> argv_spec(args@, effective@, opt_view(output_path)) == Ok::<
            Seq<Seq<char>>,
            TemplateFault,
        >(views(v@)),
        r matches Err(e) ==> argv_spec(args@, effective@, opt_view(output_path)) == Err::<
            Seq<Seq<char>>,
            TemplateFault,
        >(e@),
{
    let ghost out = opt_view(output_path);
    let mut rendered: Vec<String> = Vec::new();
    let mut i: usize = 0;
    assert(args@.skip(0) =~= args@);
    assert(views(rendered@) + Seq::<Seq<char>>::empty() =~= Seq::<Seq<char>>::empty());
    assert(prefixed(views(rendered@), argv_spec(args@, effective@, out)) == argv_spec(
        args@,
        effective@,
        out,
    )) by {
        match argv_spec(args@, effective@, out) {
            Ok(b) => {
                assert(views(rendered@) + b =~= b);
            },
            Err(_) => {},
        }
    }
    while i < args.len()
        invariant
            out == opt_view(output_path),
            i <= args@.len(),
            argv_spec(args@, effective@, out) == prefixed(
                views(rendered@),
                argv_spec(args@.skip(i as int), effective@, out),
            ),
        decreases args@.len() - i,
    {
        let ghost rest = args@.skip(i as int);
        assert(rest[0] == args@[i as int]);
        assert(rest.drop_first() =~= args@.skip(i + 1));
        let part = render_segment(&args[i], effective, output_path);
        match part {
            Err(e) => return Err(e),
            Ok(v) => {
                let ghost before = views(rendered@);
                let mut k: usize = 0;
                while k < v.len()
                    invariant
                        k <= v@.len(),
                        views(rendered@) == before + views(v@).take(k as int),
                    decreases v@.len() - k,
                {
                    let ghost old_r = rendered@;
                    let x = v[k].clone();
                    assert(x@ == v@[k as int]@);
                    rendered.push(x);
                    k += 1;
                    assert(views(old_r).len() == old_r.len());
                    assert(before.len() + k - 1 == old_r.len());
                    assert forall|j: int| 0 <= j < rendered@.len() implies #[trigger] views(rendered@)[j]
                        == (before + views(v@).take(k as int))[j] by {
                        if j < old_r.len() {
                            assert(rendered@[j] == old_r[j]);
                            assert(views(old_r)[j] == (before + views(v@).take(k - 1))[j]);
                        } else {
                            assert(j == old_r.len());
                            assert(rendered@[j] == x);
                            assert((before + views(v@).take(k as int))[j] == views(v@)[k - 1]);
                        }
                    }
                    assert(views(rendered@) =~= before + views(v@).take(k as int));
                }
                assert(views(v@).take(k as int) =~= views(v@));
                proof {
                    match argv_spec(args@.skip(i + 1), effective@, out) {
                        Ok(b) => {
                            assert(before + (views(v@) + b) =~= views(rendered@) + b);
                        },
                        Err(_) => {},
                    }
                }
            },
        }
        i += 1;
    }
    proof {
        assert(args@.skip(i as int).len() == 0);
        assert(views(rendered@) + Seq::<Seq<char>>::empty() =~= views(rendered@));
    }
    Ok(rendered)
}

/// The output path a descriptor's output spec computes.
pub open spec fn output_path_spec(output: OutputSpec, m: Seq<(Seq<char>, ValueView)>) -> Result<
    Option<Seq<char>>,
    TemplateFault,
> {
    match output {
        OutputSpec::File { name, dir } => match output_name_spec(name@, m) {
            Err(e) => Err(e),
            Ok(n) => match output_dir_spec(dir, m) {
                Err(e) => Err(e),
                Ok(d) => Ok(Some(path_join(d, n))),
            },
        },
        _ => Ok(None),
    }
}

/// The directory an output goes to: the fixed one, or the input's parent
/// (the empty path when it has none).
pub open spec fn output_dir_spec(dir: OutputDir, m: Seq<(Seq<char>, ValueView)>) -> Result<
    Seq<char>,
    TemplateFault,
> {
    match dir {
        OutputDir::Fixed(p) => Ok(p@),
        OutputDir::SameAsInput => match input_path(m) {
            None => Err(TemplateFault::MissingInput),
            Some(i) => Ok(
                match path_parent(i) {
                    Some(d) => d,
                    None => Seq::<char>::empty(),
                },
            ),
        },
    }
}

/// The directory an output goes to.
pub fn resolve_output_dir(dir: &OutputDir, effective: &ArgMap) -> (r: Result<String, TemplateError>)
    ensures
        r matches Ok(s) ==> output_dir_spec(*dir, effective@) == Ok::<Seq<char>, TemplateFault>(
            s@,
        ),
        r matches Err(e) ==> output_dir_spec(*dir, effective@) == Err::<Seq<char>, TemplateFault>(
            e@,
        ),
{
    match dir {
        OutputDir::Fixed(p) => Ok(p.clone()),
        OutputDir::SameAsInput => match input_path_of(effective) {
            None => Err(TemplateError::MissingInputArg),
            Some(i) => match parent_of(i.as_str()) {
                Some(d) => Ok(d),
                None => Ok(String::new()),
            },
        },
    }
}

/// The path of a `File` output; `None` for every other output kind.
pub fn compute_output_path(output: &OutputSpec, effective: &ArgMap) -> (r: Result<
    Option<String>,
    TemplateError,
>)
    ensures
        r matches Ok(Some(s)) ==> output_path_spec(*output, effective@) == Ok::<
            Option<Seq<char>>,
            TemplateFault,
        >(Some(s@)),
        r matches Ok(None) ==> output_path_spec(*output, effective@) == Ok::<
            Option<Seq<char>>,
            TemplateFault,
        >(None),
        r matches Err(e) ==> output_path_spec(*output, effective@) == Err::<
            Option<Seq<char>>,
            TemplateFault,
        >(e@),
{
    match output {
        OutputSpec::File { name, dir } => {
            let n = match render_output_name(name.as_str(), effective) {
                Ok(n) => n,
                Err(e) => return Err(e),
            };
            let d = match resolve_output_dir(dir, effective) {
                Ok(d) => d,
                Err(e) => return Err(e),
            };
            Ok(Some(join_paths(d.as_str(), n.as_str())))
        },
        _ => Ok(None),
    }
}

} // verus!

//! The pure-data tool descriptor model.

use crate::time::Duration;
use crate::float::FloatNum;
use crate::text::{chars_of, find_char_from, find_from, lemma_find_from, push_str};
use vstd::prelude::*;

verus! {

/// A complete tool description: identity, arguments, requirements, output
/// and how the tool is executed.
#[derive(Debug, Clone, PartialEq)]
pub struct Descriptor {
    pub id: ToolId,
    pub title: String,
    pub keywords: Vec<String>,
    pub category: Category,
    pub args: Vec<ArgSpec>,
    pub requires: Requires,
    pub output: OutputSpec,
    pub capability: Capability,
}

/// A namespaced tool id such as `image.convert`: at least two `.`-separated
/// segments, each a lower-case ASCII letter followed by lower-case ASCII
/// letters and digits.
#[derive(Debug, Clone, PartialEq, Eq, Hash)]
pub struct ToolId(String);

/// The pieces of `s` between occurrences of `sep` (`str::split`).
pub open spec fn split_on(s: Seq<char>, sep: char) -> Seq<Seq<char>>
    decreases s.len(),
{
    match find_from(s, sep, 0) {
        None => seq![s],
        Some(k) => {
            proof {
                lemma_find_from(s, sep, 0);
            }
            seq![s.take(k)] + split_on(s.skip(k + 1), sep)
        },
    }
}

pub open spec fn is_lower(c: char) -> bool {
    'a' <= c && c <= 'z'
}

pub open spec fn is_digit(c: char) -> bool {
    '0' <= c && c <= '9'
}

/// One segment of a tool id.
pub open spec fn valid_segment(s: Seq<char>) -> bool {
    &&& s.len() > 0
    &&& is_lower(s[0])
    &&& forall|i: int| 1 <= i < s.len() ==> is_lower(#[trigger] s[i]) || is_digit(s[i])
}

/// What `ToolId::parse` accepts.
pub open spec fn valid_tool_id(s: Seq<char>) -> bool {
    let segments = split_on(s, '.');
    segments.len() >= 2 && forall|i: int| 0 <= i < segments.len() ==> valid_segment(
        #[trigger] segments[i],
    )
}

fn valid_segment_exec(s: &[char], from: usize, to: usize) -> (r: bool)
    requires
        from <= to <= s@.len(),
    ensures
        r == valid_segment(s@.subrange(from as int, to as int)),
{
    let ghost seg = s@.subrange(from as int, to as int);
    if from == to {
        return false;
    }
    if !('a' <= s[from] && s[from] <= 'z') {
        assert(seg[0] == s@[from as int]);
        return false;
    }
    let mut k = from + 1;
    while k < to
        invariant
            from < k <= to <= s@.len(),
            seg == s@.subrange(from as int, to as int),
            forall|i: int| 1 <= i < k - from ==> is_lower(#[trigger] seg[i]) || is_digit(seg[i]),
        decreases to - k,
    {
        let c = s[k];
        assert(seg[k - from] == c);
        if !(('a' <= c && c <= 'z') || ('0' <= c && c <= '9')) {
            return false;
        }
        k += 1;
    }
    assert(seg[0] == s@[from as int]);
    true
}

impl ToolId {
    /// Accepts a namespaced tool id, and rejects anything else with
    /// `invalid namespaced tool id: <value>`.
    pub fn parse(value: &str) -> (r: Result<Self, String>)
        ensures
            r matches Ok(id) ==> valid_tool_id(value@) && id@ == value@,
            r matches Err(msg) ==> !valid_tool_id(value@) && msg@ == "invalid namespaced tool id: "@
                + value@,
    {
        let s = chars_of(value);
        let ghost segs = split_on(s@, '.');
        let mut start: usize = 0;
        let mut count: usize = 0;
        let mut all_valid = true;
        proof {
            assert(s@.skip(0) =~= s@);
        }
        loop
            invariant
                s@ == value@,
                segs == split_on(s@, '.'),
                start <= s@.len(),
                count <= start,
                ({
                    let rest = split_on(s@.skip(start as int), '.');
                    &&& segs.len() == count + rest.len()
                    &&& forall|i: int| 0 <= i < rest.len() ==> segs[count + i] == #[trigger] rest[i]
                }),
                all_valid == (forall|i: int| 0 <= i < count ==> valid_segment(#[trigger] segs[i])),
            decreases s@.len() - start,
        {
            let ghost t = s@.skip(start as int);
            let found = find_char_from(&s, '.', start);
            proof {
                lemma_find_from(s@, '.', start as int);
                lemma_find_from(t, '.', 0);
            }
            match found {
                None => {
                    proof {
                        assert(find_from(t, '.', 0) is None) by {
                            if let Some(k) = find_from(t, '.', 0) {
                                assert(t[k] == s@[start + k]);
                            }
                        }
                        assert(split_on(t, '.') == seq![t]);
                        assert(t =~= s@.subrange(start as int, s@.len() as int));
                    }
                    let v = valid_segment_exec(&s, start, s.len());
                    let ok = all_valid && v && count >= 1;
                    proof {
                        let rest = split_on(t, '.');
                        assert(rest[0] == t);
                        assert(segs[count + 0] == rest[0]);
                        assert(segs.len() == count + 1);
                        assert(segs[count as int] == t);
                        if ok {
                            assert forall|i: int| 0 <= i < segs.len() implies valid_segment(
                                #[trigger] segs[i],
                            ) by {
                                if i < count {
                                } else {
                                    assert(i == count);
                                }
                            }
                        } else if !all_valid {
                            let i = choose|i: int| 0 <= i < count && !valid_segment(segs[i]);
                            assert(!valid_segment(segs[i]));
                        } else if !v {
                            assert(!valid_segment(segs[count as int]));
                        }
                    }
                    proof {
                        assert(segs == split_on(value@, '.'));
                        if ok {
                            assert(segs.len() >= 2);
                            assert(forall|i: int| 0 <= i < segs.len() ==> valid_segment(#[trigger] segs[i]));
                            assert(valid_tool_id(value@));
                        } else {
                            assert(!valid_tool_id(value@));
                        }
                    }
                    if ok {
                        return Ok(ToolId(value.to_owned()));
                    } else {
                        let mut msg = String::new();
                        push_str(&mut msg, "invalid namespaced tool id: ");
                        push_str(&mut msg, value);
                        proof {
                            reveal_strlit("invalid namespaced tool id: ");
                        }
                        return Err(msg);
                    }
                },
                Some(k) => {
                    proof {
                        let kk = k - start;
                        assert(find_from(t, '.', 0) == Some(kk)) by {
                            let f = find_from(t, '.', 0);
                            assert(t[kk] == s@[k as int]);
                            if let Some(j) = f {
                                assert(t[j] == s@[start + j]);
                                if j < kk {
                                    assert(s@[start + j] != '.');
                                }
                            }
                        }
                        assert(t.take(kk) =~= s@.subrange(start as int, k as int));
                        assert(t.skip(kk + 1) =~= s@.skip(k + 1));
                        let rest = split_on(t, '.');
                        assert(rest == seq![t.take(kk)] + split_on(s@.skip(k + 1), '.'));
                        assert(segs[count as int] == rest[0]);
                    }
                    let v = valid_segment_exec(&s, start, k);
                    proof {
                        let rest = split_on(s@.skip(k + 1), '.');
                        let rest0 = split_on(t, '.');
                        assert forall|i: int| 0 <= i < rest.len() implies segs[count + 1 + i]
                            == #[trigger] rest[i] by {
                            assert(rest0[i + 1] == rest[i]);
                        }
                    }
                    assert(k < s.len());
                    all_valid = all_valid && v;
                    count += 1;
                    start = k + 1;
                },
            }
        }
    }

    /// The id as text.
    pub fn as_str(&self) -> (r: &str)
        ensures
            r@ == self@,
    {
        self.0.as_str()
    }
}

impl View for ToolId {
    type V = Seq<char>;

    closed spec fn view(&self) -> Seq<char> {
        self.0@
    }
}

impl AsRef<str> for ToolId {
    /// The id as text.
    fn as_ref(&self) -> (r: &str)
        ensures
            r@ == self@,
    {
        self.0.as_str()
    }
}

/// The palette group a tool belongs to.
#[derive(Debug, Clone, PartialEq, Eq, Hash)]
pub enum Category {
    Capture,
    Convert,
    Desktop,
}

/// One argument a tool takes.
#[derive(Debug, Clone, PartialEq)]
pub struct ArgSpec {
    pub name: String,
    pub label: String,
    pub help: Option<String>,
    pub arg_type: ArgType,
    pub default: Option<ArgValueLiteral>,
    pub required: bool,
    pub when: Option<When>,
}

/// The type of an argument, with its constraints.
#[derive(Debug, Clone, PartialEq)]
pub enum ArgType {
    File { filters: Vec<FileFilter>, multiple: bool },
    Dir,
    Str,
    Int { range: Option<[i64; 2]>, step: Option<i64> },
    Float { range: Option<[FloatNum; 2]> },
    Bool,
    Enum { options: Vec<String> },
    Text,
}

/// A named group of file extensions offered by a file picker.
#[derive(Debug, Clone, PartialEq)]
pub struct FileFilter {
    pub label: String,
    pub extensions: Vec<String>,
}

/// A visibility gate: the argument (or command segment) applies only when
/// `arg` holds one of `in_values`; with no `in_values`, as soon as `arg`
/// holds any value.
#[derive(Debug, Clone, PartialEq)]
pub struct When {
    pub arg: String,
    pub in_values: Vec<ArgValueLiteral>,
}

/// A constant argument value written in a descriptor.
#[derive(Debug, Clone, PartialEq)]
pub enum ArgValueLiteral {
    Str(String),
    Int(i64),
    Float(FloatNum),
    Bool(bool),
}

/// What must be present on the machine for a tool to run.
#[derive(Debug, PartialEq)]
pub enum Requires {
    Nothing,
    Portal { iface: String, min_ver: u32 },
    Binary(String),
    All(Vec<Requires>),
}

/// The content of a requirement.
pub enum RequiresView {
    Nothing,
    Portal { iface: Seq<char>, min_ver: u32 },
    Binary(Seq<char>),
    All(Seq<RequiresView>),
}

/// The content of a requirement: its names as text, `All` entry by entry.
pub open spec fn requires_view(r: Requires) -> RequiresView
    decreases r,
{
    match r {
        Requires::Nothing => RequiresView::Nothing,
        Requires::Portal { iface, min_ver } => RequiresView::Portal { iface: iface@, min_ver },
        Requires::Binary(b) => RequiresView::Binary(b@),
        Requires::All(all) => RequiresView::All(requires_views(all@)),
    }
}

/// The contents of a list of requirements, in order.
pub open spec fn requires_views(list: Seq<Requires>) -> Seq<RequiresView>
    decreases list,
{
    if list.len() == 0 {
        seq![]
    } else {
        requires_views(list.drop_last()).push(requires_view(list.last()))
    }
}

/// A copy of `r`: the same requirement, entry by entry.
fn copy_requires(r: &Requires) -> (c: Requires)
    ensures
        requires_view(c) == requires_view(*r),
    decreases r,
{
    match r {
        Requires::Nothing => Requires::Nothing,
        Requires::Portal { iface, min_ver } => Requires::Portal {
            iface: iface.clone(),
            min_ver: *min_ver,
        },
        Requires::Binary(b) => Requires::Binary(b.clone()),
        Requires::All(all) => {
            let mut out: Vec<Requires> = Vec::new();
            let mut i: usize = 0;
            while i < all.len()
                invariant
                    i <= all.len(),
                    *r == Requires::All(*all),
                    requires_views(out@) == requires_views(all@.take(i as int)),
                decreases all.len() - i,
            {
                proof {
                    assert(decreases_to!(*r => (*r)->All_0));
                    assert(decreases_to!((*r)->All_0 => ((*r)->All_0)@));
                    assert(decreases_to!(((*r)->All_0)@ => ((*r)->All_0)@[i as int]));
                }
                let c = copy_requires(&all[i]);
                let ghost before = out@;
                out.push(c);
                proof {
                    assert(out@.drop_last() =~= before);
                    assert(all@.take(i + 1).drop_last() =~= all@.take(i as int));
                    assert(all@.take(i + 1).last() == all@[i as int]);
                }
                i += 1;
            }
            assert(all@.take(i as int) =~= all@);
            Requires::All(out)
        },
    }
}

impl Clone for Requires {
    fn clone(&self) -> Self {
        copy_requires(self)
    }
}

/// What a tool produces.
#[derive(Debug, Clone, PartialEq)]
pub enum OutputSpec {
    Value(ValueKind),
    File { name: String, dir: OutputDir },
    /// The command is given a fresh, empty scratch directory (through the
    /// `{output_dir}` placeholder); `name` is the template of the prefix of
    /// each produced file's final name.
    Directory { name: String, dir: OutputDir },
    Report,
}

/// What a value outcome holds.
#[derive(Debug, Clone, PartialEq)]
pub enum ValueKind {
    Color,
    Text,
}

/// Where an output file goes.
#[derive(Debug, Clone, PartialEq)]
pub enum OutputDir {
    SameAsInput,
    Fixed(String),
}

/// How a tool is executed.
#[derive(Debug, Clone, PartialEq)]
pub enum Capability {
    Command(CommandSpec),
    Portal { adapter: String },
    Native { id: NativeId },
}

/// The id of a native tool implementation.
#[derive(Debug, Clone, PartialEq, Eq, Hash)]
pub struct NativeId(pub String);

/// An external command: its binary, argument templates, progress parser,
/// time limit, success rule, and whether several input files go to one
/// invocation.
#[derive(Debug, Clone, PartialEq)]
pub struct CommandSpec {
    pub binary: String,
    pub args: Vec<CommandArg>,
    pub progress: ProgressSpec,
    pub timeout: Duration,
    pub success: SuccessSpec,
    pub combine_inputs: bool,
}

/// One argv segment template, optionally gated.
#[derive(Debug, Clone, PartialEq)]
pub struct CommandArg {
    pub template: String,
    pub when: Option<When>,
}

impl CommandArg {
    /// An ungated segment.
    pub fn from_template(template: &str) -> (r: Self)
        ensures
            r.template@ == template@,
            r.when is None,
    {
        CommandArg { template: template.to_owned(), when: None }
    }
}

impl vstd::std_specs::convert::FromSpecImpl<&str> for CommandArg {
    open spec fn obeys_from_spec() -> bool {
        false
    }

    open spec fn from_spec(v: &str) -> Self {
        CommandArg { template: arbitrary(), when: None }
    }
}

impl vstd::std_specs::convert::FromSpecImpl<String> for CommandArg {
    open spec fn obeys_from_spec() -> bool {
        false
    }

    open spec fn from_spec(v: String) -> Self {
        CommandArg { template: v, when: None }
    }
}

impl From<&str> for CommandArg {
    fn from(template: &str) -> Self {
        CommandArg { template: template.to_owned(), when: None }
    }
}

impl From<String> for CommandArg {
    fn from(template: String) -> Self {
        CommandArg { template, when: None }
    }
}

/// How progress is read from a running command.
#[derive(Debug, Clone, PartialEq)]
pub enum ProgressSpec {
    Untracked,
    /// ffmpeg's `-progress pipe:2 -nostats` stderr report, measured against
    /// the `Duration:` line of its banner on the same stream.
    FfmpegDuration,
}

/// When a command run counts as a success.
#[derive(Debug, Clone, PartialEq)]
pub enum SuccessSpec {
    ExitZero,
}

} // verus!

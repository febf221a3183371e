//! Typed builders for tool descriptors; a descriptor is validated when it
//! is built.

use crate::descriptor::{
    valid_tool_id, ArgSpec, ArgType, ArgValueLiteral, Capability, Category, CommandArg,
    CommandSpec, Descriptor, NativeId, OutputSpec, ProgressSpec, Requires, SuccessSpec, ToolId,
    When,
};
use crate::error::{descriptor_error_views, DescriptorError};
use crate::validate::{descriptor_errors, validate_descriptor};
use crate::time::Duration;
use vstd::prelude::*;

verus! {

/// Builds one [`ArgSpec`]: optional, without help, default or gate unless
/// set.
#[derive(Debug, Clone)]
pub struct ArgSpecBuilder {
    pub spec: ArgSpec,
}

impl ArgSpecBuilder {
    /// A spec named `name`, shown as `label`, of type `arg_type`.
    pub fn new(name: &str, label: &str, arg_type: ArgType) -> (b: Self)
        ensures
            b.spec.name@ == name@,
            b.spec.label@ == label@,
            b.spec.help is None,
            b.spec.arg_type == arg_type,
            b.spec.default is None,
            !b.spec.required,
            b.spec.when is None,
    {
        ArgSpecBuilder {
            spec: ArgSpec {
                name: name.to_owned(),
                label: label.to_owned(),
                help: None,
                arg_type,
                default: None,
                required: false,
                when: None,
            },
        }
    }

    /// The help text shown under the argument.
    pub fn help(self, help: &str) -> (b: Self)
        ensures
            b.spec == (ArgSpec { help: b.spec.help, ..self.spec }),
            b.spec.help matches Some(h) && h@ == help@,
    {
        let mut b = self;
        b.spec.help = Some(help.to_owned());
        b
    }

    /// The value used when none is supplied.
    pub fn default(self, value: ArgValueLiteral) -> (b: Self)
        ensures
            b.spec == (ArgSpec { default: Some(value), ..self.spec }),
    {
        let mut b = self;
        b.spec.default = Some(value);
        b
    }

    /// Whether a value must be supplied.
    pub fn required(self, required: bool) -> (b: Self)
        ensures
            b.spec == (ArgSpec { required, ..self.spec }),
    {
        let mut b = self;
        b.spec.required = required;
        b
    }

    /// Visible only when `arg` holds one of `in_values`.
    pub fn when(self, arg: &str, in_values: Vec<ArgValueLiteral>) -> (b: Self)
        ensures
            b.spec == (ArgSpec { when: b.spec.when, ..self.spec }),
            b.spec.when matches Some(w) && w.arg@ == arg@ && w.in_values == in_values,
    {
        let mut b = self;
        b.spec.when = Some(When { arg: arg.to_owned(), in_values });
        b
    }

    /// Visible once `arg` has any value (a gate with no values).
    pub fn when_set(self, arg: &str) -> (b: Self)
        ensures
            b.spec == (ArgSpec { when: b.spec.when, ..self.spec }),
            b.spec.when matches Some(w) && w.arg@ == arg@ && w.in_values@.len() == 0,
    {
        let mut b = self;
        b.spec.when = Some(When { arg: arg.to_owned(), in_values: Vec::new() });
        b
    }

    /// The spec.
    pub fn build(self) -> (a: ArgSpec)
        ensures
            a == self.spec,
    {
        self.spec
    }
}

/// Builds a [`CommandSpec`]: untracked progress, success on exit status
/// zero, a time limit of 300 seconds unless set, and separate runs for several
/// input files.
#[derive(Debug, Clone)]
pub struct CommandSpecBuilder {
    pub binary: String,
    pub args: Vec<CommandArg>,
    pub timeout: Duration,
}

impl CommandSpecBuilder {
    /// A command that runs `binary`, with no arguments yet.
    pub fn new(binary: &str) -> (b: Self)
        ensures
            b.binary@ == binary@,
            b.args@.len() == 0,
            b.timeout@ == (300u64, 0u32),
    {
        CommandSpecBuilder { binary: binary.to_owned(), args: Vec::new(), timeout: Duration::from_secs(300) }
    }

    /// An ungated segment.
    pub fn arg(self, template: &str) -> (b: Self)
        ensures
            b.binary == self.binary,
            b.timeout == self.timeout,
            b.args@.len() == self.args@.len() + 1,
            b.args@.take(self.args@.len() as int) == self.args@,
            b.args@.last().template@ == template@,
            b.args@.last().when is None,
    {
        let mut b = self;
        b.args.push(CommandArg::from_template(template));
        assert(b.args@.take(self.args@.len() as int) =~= self.args@);
        b
    }

    /// A segment emitted only when `arg` holds one of `in_values`.
    pub fn arg_when(self, template: &str, arg: &str, in_values: Vec<ArgValueLiteral>) -> (b: Self)
        ensures
            b.binary == self.binary,
            b.timeout == self.timeout,
            b.args@.len() == self.args@.len() + 1,
            b.args@.take(self.args@.len() as int) == self.args@,
            b.args@.last().template@ == template@,
            b.args@.last().when matches Some(w) && w.arg@ == arg@ && w.in_values == in_values,
    {
        let mut b = self;
        b.args.push(
            CommandArg { template: template.to_owned(), when: Some(When { arg: arg.to_owned(), in_values }) },
        );
        assert(b.args@.take(self.args@.len() as int) =~= self.args@);
        b
    }

    /// A segment emitted once `arg` has any value; paired option segments
    /// share the same `arg`.
    pub fn arg_when_set(self, template: &str, arg: &str) -> (b: Self)
        ensures
            b.binary == self.binary,
            b.timeout == self.timeout,
            b.args@.len() == self.args@.len() + 1,
            b.args@.take(self.args@.len() as int) == self.args@,
            b.args@.last().template@ == template@,
            b.args@.last().when matches Some(w) && w.arg@ == arg@ && w.in_values@.len() == 0,
    {
        let mut b = self;
        b.args.push(
            CommandArg {
                template: template.to_owned(),
                when: Some(When { arg: arg.to_owned(), in_values: Vec::new() }),
            },
        );
        assert(b.args@.take(self.args@.len() as int) =~= self.args@);
        b
    }

    /// The time limit.
    pub fn timeout(self, timeout: Duration) -> (b: Self)
        ensures
            b.binary == self.binary,
            b.args == self.args,
            b.timeout == timeout,
    {
        let mut b = self;
        b.timeout = timeout;
        b
    }

    /// The command spec.
    pub fn build(self) -> (c: CommandSpec)
        ensures
            c.binary == self.binary,
            c.args == self.args,
            c.progress == ProgressSpec::Untracked,
            c.timeout == self.timeout,
            c.success == SuccessSpec::ExitZero,
            !c.combine_inputs,
    {
        CommandSpec {
            binary: self.binary,
            args: self.args,
            progress: ProgressSpec::Untracked,
            timeout: self.timeout,
            success: SuccessSpec::ExitZero,
            combine_inputs: false,
        }
    }
}

/// Builds a [`Descriptor`]; `build` validates it.
#[derive(Debug, Clone)]
pub struct DescriptorBuilder {
    pub id: ToolId,
    pub title: String,
    pub category: Category,
    pub keywords: Vec<String>,
    pub args: Vec<ArgSpec>,
    pub requires: Requires,
    pub output: Option<OutputSpec>,
    pub capability: Option<Capability>,
}

/// The problems a builder has before its descriptor is assembled: no
/// output, no capability.
pub open spec fn missing_parts(b: DescriptorBuilder) -> Seq<(Seq<char>, Seq<char>)> {
    (if b.output is None {
        seq![("output"@, "output was not set"@)]
    } else {
        seq![]
    }) + (if b.capability is None {
        seq![("capability"@, "capability was not set (call .command()/.portal()/.native())"@)]
    } else {
        seq![]
    })
}

/// The descriptor a complete builder assembles.
pub open spec fn assembled(b: DescriptorBuilder) -> Descriptor {
    Descriptor {
        id: b.id,
        title: b.title,
        keywords: b.keywords,
        category: b.category,
        args: b.args,
        requires: b.requires,
        output: b.output->Some_0,
        capability: b.capability->Some_0,
    }
}

impl DescriptorBuilder {
    /// A builder for a tool with this id, title and category, with no
    /// requirements; the id must be a valid namespaced id.
    pub fn new(id: &str, title: &str, category: Category) -> (b: Self)
        requires
            valid_tool_id(id@),
        ensures
            b.id@ == id@,
            b.title@ == title@,
            b.category == category,
            b.keywords@.len() == 0,
            b.args@.len() == 0,
            b.requires == Requires::Nothing,
            b.output is None,
            b.capability is None,
    {
        let tool_id = match ToolId::parse(id) {
            Ok(t) => t,
            Err(_) => {
                assert(false);
                ToolId::parse("x.y").unwrap()
            },
        };
        DescriptorBuilder {
            id: tool_id,
            title: title.to_owned(),
            category,
            keywords: Vec::new(),
            args: Vec::new(),
            requires: Requires::Nothing,
            output: None,
            capability: None,
        }
    }

    /// One more search keyword.
    pub fn keyword(self, keyword: &str) -> (b: Self)
        ensures
            b == (DescriptorBuilder { keywords: b.keywords, ..self }),
            b.keywords@.len() == self.keywords@.len() + 1,
            b.keywords@.take(self.keywords@.len() as int) == self.keywords@,
            b.keywords@.last()@ == keyword@,
    {
        let mut b = self;
        b.keywords.push(keyword.to_owned());
        assert(b.keywords@.take(self.keywords@.len() as int) =~= self.keywords@);
        b
    }

    /// More search keywords, in order.
    pub fn keywords(self, keywords: &[&str]) -> (b: Self)
        ensures
            b == (DescriptorBuilder { keywords: b.keywords, ..self }),
            b.keywords@.len() == self.keywords@.len() + keywords@.len(),
            b.keywords@.take(self.keywords@.len() as int) == self.keywords@,
            forall|i: int| 0 <= i < keywords@.len() ==> #[trigger] b.keywords@[self.keywords@.len() + i]@ == keywords@[i]@,
    {
        let mut b = self;
        let n = b.keywords.len();
        let mut i: usize = 0;
        while i < keywords.len()
            invariant
                i <= keywords@.len(),
                n == self.keywords@.len(),
                b == (DescriptorBuilder { keywords: b.keywords, ..self }),
                b.keywords@.len() == n + i,
                b.keywords@.take(n as int) == self.keywords@,
                forall|q: int| 0 <= q < i ==> #[trigger] b.keywords@[n + q]@ == keywords@[q]@,
            decreases keywords.len() - i,
        {
            b.keywords.push(keywords[i].to_owned());
            assert(b.keywords@.take(n as int) =~= self.keywords@);
            i += 1;
        }
        b
    }

    /// One more argument.
    pub fn arg(self, arg: ArgSpec) -> (b: Self)
        ensures
            b == (DescriptorBuilder { args: b.args, ..self }),
            b.args@ == self.args@.push(arg),
    {
        let mut b = self;
        b.args.push(arg);
        b
    }

    /// What the tool needs to be available.
    pub fn requirement(self, req: Requires) -> (b: Self)
        ensures
            b == (DescriptorBuilder { requires: req, ..self }),
    {
        let mut b = self;
        b.requires = req;
        b
    }

    /// What the tool produces.
    pub fn output(self, output: OutputSpec) -> (b: Self)
        ensures
            b == (DescriptorBuilder { output: Some(output), ..self }),
    {
        let mut b = self;
        b.output = Some(output);
        b
    }

    /// Runs an external command.
    pub fn command(self, command: CommandSpecBuilder) -> (b: Self)
        ensures
            b == (DescriptorBuilder { capability: b.capability, ..self }),
            b.capability matches Some(Capability::Command(c)) && c.binary == command.binary
                && c.args == command.args && c.timeout == command.timeout && c.progress
                == ProgressSpec::Untracked && c.success == SuccessSpec::ExitZero && !c.combine_inputs,
    {
        let mut b = self;
        b.capability = Some(Capability::Command(command.build()));
        b
    }

    /// Runs a portal adapter.
    pub fn portal(self, adapter: &str) -> (b: Self)
        ensures
            b == (DescriptorBuilder { capability: b.capability, ..self }),
            b.capability matches Some(Capability::Portal { adapter: a }) && a@ == adapter@,
    {
        let mut b = self;
        b.capability = Some(Capability::Portal { adapter: adapter.to_owned() });
        b
    }

    /// Runs a native tool.
    pub fn native(self, id: &str) -> (b: Self)
        ensures
            b == (DescriptorBuilder { capability: b.capability, ..self }),
            b.capability matches Some(Capability::Native { id: n }) && n.0@ == id@,
    {
        let mut b = self;
        b.capability = Some(Capability::Native { id: NativeId(id.to_owned()) });
        b
    }

    /// The descriptor, when output and capability are set and it validates;
    /// otherwise the missing parts, or else every validation problem.
    pub fn build(self) -> (r: Result<Descriptor, Vec<DescriptorError>>)
        ensures
            missing_parts(self).len() > 0 ==> (r matches Err(e) && descriptor_error_views(e@)
                == missing_parts(self)),
            missing_parts(self).len() == 0 && descriptor_errors(assembled(self)).len() > 0
                ==> (r matches Err(e) && descriptor_error_views(e@) == descriptor_errors(
                assembled(self),
            )),
            missing_parts(self).len() == 0 && descriptor_errors(assembled(self)).len() == 0
                ==> (r matches Ok(d) && d == assembled(self)),
            r matches Ok(d) ==> descriptor_errors(d).len() == 0,
    {
        let ghost me = self;
        let mut missing: Vec<DescriptorError> = Vec::new();
        if self.output.is_none() {
            missing.push(
                DescriptorError { at: "output".to_owned(), message: "output was not set".to_owned() },
            );
        }
        if self.capability.is_none() {
            missing.push(
                DescriptorError {
                    at: "capability".to_owned(),
                    message: "capability was not set (call .command()/.portal()/.native())".to_owned(),
                },
            );
        }
        proof {
            reveal_strlit("output");
            reveal_strlit("output was not set");
            reveal_strlit("capability");
            reveal_strlit("capability was not set (call .command()/.portal()/.native())");
        }
        assert(descriptor_error_views(missing@) =~= missing_parts(me));
        if missing.len() > 0 {
            return Err(missing);
        }
        let (output, capability) = match (self.output, self.capability) {
            (Some(o), Some(c)) => (o, c),
            _ => {
                assert(false);
                return Err(missing);
            },
        };
        let descriptor = Descriptor {
            id: self.id,
            title: self.title,
            keywords: self.keywords,
            category: self.category,
            args: self.args,
            requires: self.requires,
            output,
            capability,
        };
        match validate_descriptor(&descriptor) {
            Err(errors) => Err(errors),
            Ok(()) => Ok(descriptor),
        }
    }
}

} // verus!

//! Console commands: metadata, the handler that travels with it until
//! registration, and the arguments a handler receives.
use vstd::prelude::*;
use vstd::string::*;

use crate::convar::{ConVarFlags, ConVarValue};
use crate::permissions::PermissionLevel;

verus! {

/// `parts` joined with `sep` between neighbours.
pub open spec fn joined(parts: Seq<Seq<char>>, sep: Seq<char>) -> Seq<char>
    decreases parts.len(),
{
    if parts.len() == 0 {
        Seq::empty()
    } else if parts.len() == 1 {
        parts[0]
    } else {
        joined(parts.drop_last(), sep) + sep + parts.last()
    }
}

/// The views of a sequence of string slices.
pub open spec fn str_views(v: Seq<&str>) -> Seq<Seq<char>> {
    v.map_values(|t: &str| t@)
}

/// Joins `parts` with `sep`.
pub fn join_strs(parts: &[&str], sep: &str) -> (r: String)
    ensures
        r@ == joined(str_views(parts@), sep@),
{
    let mut out = String::new();
    let mut i: usize = 0;
    while i < parts.len()
        invariant
            i <= parts@.len(),
            out@ == joined(str_views(parts@.take(i as int)), sep@),
        decreases parts.len() - i,
    {
        let ghost before = str_views(parts@.take(i as int));
        if i > 0 {
            out.append(sep);
        }
        out.append(parts[i]);
        proof {
            let now = str_views(parts@.take(i + 1));
            assert(now.drop_last() =~= before);
            assert(now.last() == parts@[i as int]@);
            if i == 0 {
                assert(now =~= seq![parts@[0]@]);
            }
        }
        i = i + 1;
    }
    assert(parts@.take(parts@.len() as int) =~= parts@);
    out
}

/// The arguments of one command invocation.
#[derive(Debug, Clone)]
pub struct CommandArgs<'a> {
    raw: &'a str,
    args: Vec<&'a str>,
}

impl<'a> CommandArgs<'a> {
    /// The raw command text.
    pub closed spec fn raw_spec(&self) -> Seq<char> {
        self.raw@
    }

    /// The arguments, command name excluded.
    pub closed spec fn args_spec(&self) -> Seq<Seq<char>> {
        str_views(self.args@)
    }

    /// Arguments `args` of the command text `raw`.
    pub fn new(raw: &'a str, args: Vec<&'a str>) -> (r: Self)
        ensures
            r.raw_spec() == raw@,
            r.args_spec() == str_views(args@),
    {
        CommandArgs { raw, args }
    }

    /// The raw command text.
    pub fn raw(&self) -> (r: &str)
        ensures
            r@ == self.raw_spec(),
    {
        self.raw
    }

    /// The number of arguments.
    pub fn len(&self) -> (r: usize)
        ensures
            r == self.args_spec().len(),
    {
        self.args.len()
    }

    /// Whether there are no arguments.
    pub fn is_empty(&self) -> (r: bool)
        ensures
            r == (self.args_spec().len() == 0),
    {
        self.args.len() == 0
    }

    /// Argument `index`, if there is one.
    pub fn get(&self, index: usize) -> (r: Option<&str>)
        ensures
            index < self.args_spec().len() ==> (r matches Some(s) && s@ == self.args_spec()[index as int]),
            index >= self.args_spec().len() ==> r is None,
    {
        if index < self.args.len() {
            Some(self.args[index])
        } else {
            None
        }
    }

    /// Argument `index`, or `default` if there is none.
    pub fn get_or(&self, index: usize, default: &'a str) -> (r: &str)
        ensures
            index < self.args_spec().len() ==> r@ == self.args_spec()[index as int],
            index >= self.args_spec().len() ==> r@ == default@,
    {
        if index < self.args.len() {
            self.args[index]
        } else {
            default
        }
    }

    /// Argument `index` parsed as a `T`.
    pub fn parse<T: ConVarValue>(&self, index: usize) -> (r: Option<T>)
        ensures
            index >= self.args_spec().len() ==> r is None,
            index < self.args_spec().len() ==> match T::parse_spec(self.args_spec()[index as int]) {
                Some(v) => r matches Some(x) && x@ == v,
                None => r is None,
            },
    {
        match self.get(index) {
            Some(s) => T::parse(s),
            None => None,
        }
    }

    /// Argument `index` parsed as a `T`, or `default`.
    pub fn parse_or<T: ConVarValue>(&self, index: usize, default: T) -> (r: T)
        ensures
            index >= self.args_spec().len() ==> r@ == default@,
            index < self.args_spec().len() ==> match T::parse_spec(self.args_spec()[index as int]) {
                Some(v) => r@ == v,
                None => r@ == default@,
            },
    {
        match self.parse(index) {
            Some(v) => v,
            None => default,
        }
    }

    /// The arguments.
    pub fn as_slice(&self) -> (r: &[&'a str])
        ensures
            str_views(r@) == self.args_spec(),
    {
        self.args.as_slice()
    }

    /// The arguments, as owned strings.
    pub fn iter(&self) -> (r: Vec<String>)
        ensures
            r@.map_values(|s: String| s@) == self.args_spec(),
    {
        let mut out: Vec<String> = Vec::new();
        let mut i: usize = 0;
        while i < self.args.len()
            invariant
                i <= self.args@.len(),
                out@.map_values(|s: String| s@) == str_views(self.args@.take(i as int)),
            decreases self.args.len() - i,
        {
            out.push(self.args[i].to_owned());
            proof {
                assert(str_views(self.args@.take(i + 1)) =~= str_views(self.args@.take(i as int)).push(
                    self.args@[i as int]@,
                ));
            }
            i = i + 1;
            assert(out@.map_values(|s: String| s@) =~= str_views(self.args@.take(i as int)));
        }
        assert(self.args@.take(self.args@.len() as int) =~= self.args@);
        out
    }

    /// All arguments joined with `separator`.
    pub fn join(&self, separator: &str) -> (r: String)
        ensures
            r@ == joined(self.args_spec(), separator@),
    {
        join_strs(self.args.as_slice(), separator)
    }

    /// The arguments from `start` on, joined with `separator`.
    pub fn join_from(&self, start: usize, separator: &str) -> (r: String)
        ensures
            r@ == joined(
                if start <= self.args_spec().len() {
                    self.args_spec().skip(start as int)
                } else {
                    Seq::empty()
                },
                separator@,
            ),
    {
        if start > self.args.len() {
            return String::new();
        }
        let mut rest: Vec<&str> = Vec::new();
        let mut i: usize = start;
        while i < self.args.len()
            invariant
                start <= i <= self.args@.len(),
                rest@ == self.args@.subrange(start as int, i as int),
            decreases self.args.len() - i,
        {
            rest.push(self.args[i]);
            i = i + 1;
            assert(rest@ =~= self.args@.subrange(start as int, i as int));
        }
        assert(str_views(rest@) =~= self.args_spec().skip(start as int));
        join_strs(rest.as_slice(), separator)
    }
}

/// Abstract metadata of a command.
pub struct CmdModel {
    pub name: Seq<char>,
    pub description: Seq<char>,
    pub flags: ConVarFlags,
    pub permission: PermissionLevel,
}

/// Metadata of a registered command; its handler is stored elsewhere.
#[derive(Debug)]
pub struct ConCommandMeta {
    /// The command name.
    pub name: String,
    /// Description.
    pub description: String,
    /// Flags.
    pub flags: ConVarFlags,
    /// Required permission tier.
    pub required_permission: PermissionLevel,
}

impl View for ConCommandMeta {
    type V = CmdModel;

    open spec fn view(&self) -> CmdModel {
        CmdModel {
            name: self.name@,
            description: self.description@,
            flags: self.flags,
            permission: self.required_permission,
        }
    }
}

impl ConCommandMeta {
    /// The command name.
    pub fn name(&self) -> (r: &str)
        ensures
            r@ == self@.name,
    {
        self.name.as_str()
    }

    /// The description.
    pub fn get_description(&self) -> (r: &str)
        ensures
            r@ == self@.description,
    {
        self.description.as_str()
    }

    /// The flags.
    pub fn get_flags(&self) -> (r: ConVarFlags)
        ensures
            r == self@.flags,
    {
        self.flags
    }

    /// The required permission tier.
    pub fn get_required_permission(&self) -> (r: PermissionLevel)
        ensures
            r == self@.permission,
    {
        self.required_permission
    }
}

/// A command: its metadata together with a handler of type `H`.
pub struct ConCommand<H> {
    name: String,
    description: String,
    flags: ConVarFlags,
    required_permission: PermissionLevel,
    handler: H,
}

impl<H> ConCommand<H> {
    /// The metadata of the command.
    pub closed spec fn meta(&self) -> CmdModel {
        CmdModel {
            name: self.name@,
            description: self.description@,
            flags: self.flags,
            permission: self.required_permission,
        }
    }

    /// The handler of the command.
    pub closed spec fn handler_spec(&self) -> H {
        self.handler
    }

    /// A command named `name` running `handler`, with no description or
    /// flags, at tier `User`.
    pub fn new(name: &str, handler: H) -> (r: Self)
        ensures
            r.meta() == (CmdModel {
                name: name@,
                description: Seq::<char>::empty(),
                flags: ConVarFlags(0),
                permission: PermissionLevel::User,
            }),
            r.handler_spec() == handler,
    {
        ConCommand {
            name: name.to_owned(),
            description: String::new(),
            flags: ConVarFlags::none(),
            required_permission: PermissionLevel::User,
            handler,
        }
    }

    /// The command with description `desc`.
    pub fn description(self, desc: &str) -> (r: Self)
        ensures
            r.meta() == (CmdModel { description: desc@, ..self.meta() }),
            r.handler_spec() == self.handler_spec(),
    {
        let mut c = self;
        c.description = desc.to_owned();
        c
    }

    /// The command with flags `flags`.
    pub fn flags(self, flags: ConVarFlags) -> (r: Self)
        ensures
            r.meta() == (CmdModel { flags: flags, ..self.meta() }),
            r.handler_spec() == self.handler_spec(),
    {
        let mut c = self;
        c.flags = flags;
        c
    }

    /// The command with required tier `level`.
    pub fn permission(self, level: PermissionLevel) -> (r: Self)
        ensures
            r.meta() == (CmdModel { permission: level, ..self.meta() }),
            r.handler_spec() == self.handler_spec(),
    {
        let mut c = self;
        c.required_permission = level;
        c
    }

    /// The command name.
    pub fn name(&self) -> (r: &str)
        ensures
            r@ == self.meta().name,
    {
        self.name.as_str()
    }

    /// The description.
    pub fn get_description(&self) -> (r: &str)
        ensures
            r@ == self.meta().description,
    {
        self.description.as_str()
    }

    /// The flags.
    pub fn get_flags(&self) -> (r: ConVarFlags)
        ensures
            r == self.meta().flags,
    {
        self.flags
    }

    /// The required permission tier.
    pub fn get_required_permission(&self) -> (r: PermissionLevel)
        ensures
            r == self.meta().permission,
    {
        self.required_permission
    }

    /// The handler.
    pub fn handler(&self) -> (r: &H)
        ensures
            *r == self.handler_spec(),
    {
        &self.handler
    }

    /// Splits the command into its metadata and its handler.
    pub fn split(self) -> (r: (ConCommandMeta, H))
        ensures
            r.0@ == self.meta(),
            r.1 == self.handler_spec(),
    {
        (
            ConCommandMeta {
                name: self.name,
                description: self.description,
                flags: self.flags,
                required_permission: self.required_permission,
            },
            self.handler,
        )
    }
}

} // verus!

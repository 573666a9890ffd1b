//! The console: registry, handler store, permissions, aliases and the
//! pending work of the execution pipeline, with the pipeline's decisions.
//!
//! A host drives one pass per tick: `intake` for each input line,
//! `take_queue`, then `dispatch` for each queued invocation. Where
//! `dispatch` answers `Run`, the host takes the handler with
//! `begin_command`, runs it, and always returns it with `finish_command`,
//! saying whether it failed. `flush` then hands out the outputs.
use vstd::prelude::*;
use vstd::string::*;

use crate::aliases::CommandAliases;
use crate::concommand::{joined, CommandArgs, ConCommand, ConCommandMeta};
use crate::convar::{ConVar, ConVarFlags, ConVarValue, VarModel, VarState, CHEAT_BIT};
use crate::events::{ChangeModel, ConVarChangedEvent, ConsoleOutputEvent, ConsoleOutputLevel, OutputModel};
use crate::permissions::{ConsolePermissions, PermissionLevel};
use crate::registry::{
    lists_exactly, names_of, selects, state_description, state_set_string, state_value_text, CommandHandlers,
    ConEntry, ConVarMeta, ConsoleRegistry, EntryModel, Selection,
};
use crate::tokenizer::{error_text, split_commands, split_spec, tokenize, tokenize_spec, views};

verus! {

/// `a` followed by `b`.
pub fn cat(a: &str, b: &str) -> (r: String)
    ensures
        r@ == a@ + b@,
{
    let mut s = String::from_str(a);
    s.append(b);
    s
}

/// The name of the variable that enables unsafe mode.
pub open spec fn sv_cheats_name() -> Seq<char> {
    "sv_cheats"@
}

/// Unsafe mode is on: `sv_cheats` is an integer variable with a nonzero value.
pub open spec fn cheats_on(reg: Map<Seq<char>, EntryModel>) -> bool {
    match reg.get(sv_cheats_name()) {
        Some(EntryModel::Var(VarState::Int(m))) => m.value != 0,
        _ => false,
    }
}

/// The access gate: why an entry with `flags` and tier `required` may not be
/// changed or run, or `None` if it may. The unsafe-mode gate comes first.
pub open spec fn gate(cheats: bool, current: PermissionLevel, flags: ConVarFlags, required: PermissionLevel) -> Option<Seq<char>> {
    if flags.has_bit(CHEAT_BIT) && !cheats {
        Some("Requires sv_cheats to be enabled"@)
    } else if current.rank() < required.rank() {
        Some(
            "Insufficient permission (requires "@ + required.name_spec() + ", have "@
                + current.name_spec() + ")"@,
        )
    } else {
        None
    }
}

/// Abstract queued invocation.
pub struct QueuedModel {
    pub raw: Seq<char>,
    pub name: Seq<char>,
    pub args: Seq<Seq<char>>,
}

/// A tokenized invocation waiting to be resolved.
pub struct QueuedCommand {
    /// The text it came from.
    pub raw: String,
    /// The command or variable name.
    pub name: String,
    /// The arguments.
    pub args: Vec<String>,
}

impl View for QueuedCommand {
    type V = QueuedModel;

    open spec fn view(&self) -> QueuedModel {
        QueuedModel { raw: self.raw@, name: self.name@, args: views(self.args@) }
    }
}

/// What the host is to do after `dispatch`.
pub enum Dispatch {
    /// Nothing: the pipeline handled the invocation itself.
    Done,
    /// Run the handler of the command, with these arguments.
    Run(QueuedCommand),
}

/// The invocation queued for text `s`, if it tokenizes.
pub open spec fn queued_for(s: Seq<char>) -> Seq<QueuedModel> {
    match tokenize_spec(s) {
        Ok(ts) => seq![QueuedModel { raw: s, name: ts[0], args: ts.drop_first() }],
        Err(_) => Seq::empty(),
    }
}

/// The echo of a sub-command.
pub open spec fn echo_line(s: Seq<char>) -> OutputModel {
    OutputModel { level: ConsoleOutputLevel::Command, message: "$ "@ + s }
}

/// The outputs of intake for one sub-command: its echo, then a parse error
/// if it does not tokenize.
pub open spec fn intake_step_out(s: Seq<char>) -> Seq<OutputModel> {
    seq![echo_line(s)] + match tokenize_spec(s) {
        Ok(_) => Seq::empty(),
        Err(e) => seq![OutputModel { level: ConsoleOutputLevel::Error, message: "Parse error: "@ + error_text(e) }],
    }
}

/// The outputs of intake for sub-commands `subs`, in order.
pub open spec fn intake_out(subs: Seq<Seq<char>>) -> Seq<OutputModel>
    decreases subs.len(),
{
    if subs.len() == 0 {
        Seq::empty()
    } else {
        intake_out(subs.drop_last()) + intake_step_out(subs.last())
    }
}

/// The invocations queued by intake for sub-commands `subs`, in order.
pub open spec fn intake_queue(subs: Seq<Seq<char>>) -> Seq<QueuedModel>
    decreases subs.len(),
{
    if subs.len() == 0 {
        Seq::empty()
    } else {
        intake_queue(subs.drop_last()) + queued_for(subs.last())
    }
}

/// `"name" = "value"`.
pub open spec fn assign_text(name: Seq<char>, value: Seq<char>) -> Seq<char> {
    "\""@ + name + "\" = \""@ + value + "\""@
}

/// The text an alias expands to, with the invocation's arguments appended.
pub open spec fn alias_expansion(exp: Seq<char>, args: Seq<Seq<char>>) -> Seq<char> {
    if args.len() == 0 {
        exp
    } else {
        exp + " "@ + joined(args, " "@)
    }
}

/// A script line is run: once trimmed, it is not empty and starts with
/// neither `//` nor `#`.
pub open spec fn script_runs(line: Seq<char>) -> bool {
    let t = crate::text::trim(line);
    t.len() > 0 && !crate::trie::has_prefix(t, "//"@) && !crate::trie::has_prefix(t, "#"@)
}

/// The echo of one script line, if it is run.
pub open spec fn script_step_out(line: Seq<char>) -> Seq<OutputModel> {
    if script_runs(line) {
        seq![echo_line(crate::text::trim(line))]
    } else {
        Seq::empty()
    }
}

/// The invocation queued for one script line, if it is run and tokenizes.
pub open spec fn script_step_queue(line: Seq<char>) -> Seq<QueuedModel> {
    if script_runs(line) {
        queued_for(crate::text::trim(line))
    } else {
        Seq::empty()
    }
}

/// The echoes of the script lines `ls`, in order.
pub open spec fn script_out(ls: Seq<Seq<char>>) -> Seq<OutputModel>
    decreases ls.len(),
{
    if ls.len() == 0 {
        Seq::empty()
    } else {
        script_out(ls.drop_last()) + script_step_out(ls.last())
    }
}

/// The invocations queued for the script lines `ls`, in order.
pub open spec fn script_queue(ls: Seq<Seq<char>>) -> Seq<QueuedModel>
    decreases ls.len(),
{
    if ls.len() == 0 {
        Seq::empty()
    } else {
        script_queue(ls.drop_last()) + script_step_queue(ls.last())
    }
}

/// `r` lists every alias of `m` with its expansion, each once.
pub open spec fn alias_listing(m: Map<Seq<char>, Seq<char>>, r: Seq<(String, String)>) -> bool {
    &&& forall|a: int| 0 <= a < r.len() ==> m.contains_key((#[trigger] r[a]).0@) && r[a].1@ == m[r[a].0@]
    &&& forall|k: Seq<char>| m.contains_key(k) ==> exists|a: int| 0 <= a < r.len() && (#[trigger] r[a]).0@ == k
    &&& forall|a: int, b: int| 0 <= a < b < r.len() ==> (#[trigger] r[a]).0@ != (#[trigger] r[b]).0@
}

/// The error reported when changing variable `name` is refused for `why`.
pub open spec fn denial_line(name: Seq<char>, why: Seq<char>) -> OutputModel {
    OutputModel { level: ConsoleOutputLevel::Error, message: "Cannot set '"@ + name + "': "@ + why }
}

/// An information line.
pub open spec fn info_line(m: Seq<char>) -> OutputModel {
    OutputModel { level: ConsoleOutputLevel::Info, message: m }
}

/// What `help name` prints for entry `e`.
pub open spec fn help_lines(name: Seq<char>, e: Option<EntryModel>) -> Seq<OutputModel> {
    match e {
        None => seq![OutputModel { level: ConsoleOutputLevel::Warn, message: "Unknown command or variable: "@ + name }],
        Some(entry) => {
            let d = crate::registry::entry_description(entry);
            let first = info_line(name + " - "@ + if d.len() == 0 {
                "No description"@
            } else {
                d
            });
            match entry {
                EntryModel::Var(st) => seq![
                    first,
                    info_line("  Current: "@ + state_value_text(st)),
                    info_line("  Default: "@ + crate::registry::state_default_text(st)),
                ],
                EntryModel::Cmd(_) => seq![first],
            }
        },
    }
}

/// The prefix `cvarlist` filters by: its first argument, or empty.
pub open spec fn cvar_prefix(args: &CommandArgs) -> Seq<char> {
    if args.args_spec().len() > 0 {
        args.args_spec()[0]
    } else {
        Seq::empty()
    }
}

/// The line `cvarlist` prints for variable `st` named `name`.
pub open spec fn cvar_text(name: Seq<char>, st: VarState) -> Seq<char> {
    name + (if crate::registry::state_modified(st) {
        "*"@
    } else {
        Seq::<char>::empty()
    }) + " = \""@ + state_value_text(st) + "\""@
}

/// The lines `cvarlist` prints for variables `r`: those that are visible and
/// whose names start with `prefix`.
pub open spec fn cvar_lines(r: Seq<(String, &ConVarMeta)>, prefix: Seq<char>) -> Seq<OutputModel>
    decreases r.len(),
{
    if r.len() == 0 {
        Seq::empty()
    } else {
        let x = r.last();
        cvar_lines(r.drop_last(), prefix) + if crate::trie::has_prefix(x.0@, prefix) && !crate::registry::state_flags(
            x.1@,
        ).has_bit(crate::convar::HIDDEN_BIT) {
            seq![info_line(cvar_text(x.0@, x.1@))]
        } else {
            Seq::empty()
        }
    }
}

/// The line `find` prints for entry `e` named `name`.
pub open spec fn find_text(name: Seq<char>, e: EntryModel) -> Seq<char> {
    (if e is Var {
        "[var] "@
    } else {
        "[cmd] "@
    }) + name + if crate::registry::entry_description(e).len() > 0 {
        " - "@ + crate::registry::entry_description(e)
    } else {
        Seq::<char>::empty()
    }
}

/// The lines `find` prints for results `r`.
pub open spec fn find_lines(r: Seq<(String, &ConEntry)>) -> Seq<OutputModel> {
    r.map_values(|x: (String, &ConEntry)| OutputModel { level: ConsoleOutputLevel::Info, message: find_text(x.0@, x.1@) })
}

/// The line `differences` prints for variable `st` named `name`.
pub open spec fn diff_text(name: Seq<char>, st: VarState) -> Seq<char> {
    name + " = \""@ + state_value_text(st) + "\" (default: \""@ + crate::registry::state_default_text(st) + "\")"@
}

/// The lines `differences` prints for variables `r`.
pub open spec fn diff_lines(r: Seq<(String, &ConVarMeta)>) -> Seq<OutputModel> {
    r.map_values(|x: (String, &ConVarMeta)| OutputModel { level: ConsoleOutputLevel::Info, message: diff_text(x.0@, x.1@) })
}

/// Whether `s` starts with `p`.
pub fn starts_with(s: &str, p: &str) -> (r: bool)
    ensures
        r == crate::trie::has_prefix(s@, p@),
{
    let sc = crate::text::chars_of(s);
    let pc = crate::text::chars_of(p);
    if pc.len() > sc.len() {
        return false;
    }
    let mut i: usize = 0;
    while i < pc.len()
        invariant
            sc@ == s@,
            pc@ == p@,
            pc@.len() <= sc@.len(),
            i <= pc@.len(),
            forall|t: int| 0 <= t < i ==> sc@[t] == pc@[t],
        decreases pc.len() - i,
    {
        if sc[i] != pc[i] {
            assert(s@.subrange(0, p@.len() as int)[i as int] != p@[i as int]);
            return false;
        }
        i = i + 1;
    }
    assert(s@.subrange(0, p@.len() as int) =~= p@);
    true
}

/// The console: registry, handlers, permissions, aliases and pending work.
pub struct Console<H> {
    registry: ConsoleRegistry,
    handlers: CommandHandlers<H>,
    permissions: ConsolePermissions,
    aliases: CommandAliases,
    queue: Vec<QueuedCommand>,
    outputs: Vec<ConsoleOutputEvent>,
    changes: Vec<ConVarChangedEvent>,
    clear_console: bool,
}

impl<H> Console<H> {
    /// The registry's entries.
    pub closed spec fn reg(&self) -> Map<Seq<char>, EntryModel> {
        self.registry@
    }

    /// The stored handlers.
    pub closed spec fn handler_map(&self) -> Map<Seq<char>, H> {
        self.handlers@
    }

    /// The current permission tier.
    pub closed spec fn level(&self) -> PermissionLevel {
        self.permissions.current_level
    }

    /// The aliases.
    pub closed spec fn alias_map(&self) -> Map<Seq<char>, Seq<char>> {
        self.aliases@
    }

    /// The invocations waiting for the next pass.
    pub closed spec fn pending(&self) -> Seq<QueuedModel> {
        self.queue@.map_values(|q: QueuedCommand| q@)
    }

    /// The outputs not yet handed out.
    pub closed spec fn out(&self) -> Seq<OutputModel> {
        self.outputs@.map_values(|o: ConsoleOutputEvent| o@)
    }

    /// The change records not yet handed out.
    pub closed spec fn changed(&self) -> Seq<ChangeModel> {
        self.changes@.map_values(|c: ConVarChangedEvent| c@)
    }

    /// Whether clearing the display was asked for.
    pub closed spec fn clear_requested(&self) -> bool {
        self.clear_console
    }

    /// The parts of the console are well formed.
    pub closed spec fn wf(&self) -> bool {
        self.registry.wf() && self.handlers.wf() && self.aliases.wf()
    }

    /// `other` differs from `self` at most in outputs.
    pub open spec fn same_but_out(&self, other: &Self) -> bool {
        &&& other.reg() == self.reg()
        &&& other.handler_map() == self.handler_map()
        &&& other.level() == self.level()
        &&& other.alias_map() == self.alias_map()
        &&& other.pending() == self.pending()
        &&& other.changed() == self.changed()
        &&& other.clear_requested() == self.clear_requested()
        &&& other.wf() == self.wf()
    }

    /// An empty console acting at tier `Server`.
    pub fn new() -> (r: Self)
        ensures
            r.wf(),
            r.reg() == Map::<Seq<char>, EntryModel>::empty(),
            r.handler_map() == Map::<Seq<char>, H>::empty(),
            r.level() == PermissionLevel::Server,
            r.alias_map() == Map::<Seq<char>, Seq<char>>::empty(),
            r.pending() == Seq::<QueuedModel>::empty(),
            r.out() == Seq::<OutputModel>::empty(),
            r.changed() == Seq::<ChangeModel>::empty(),
            !r.clear_requested(),
    {
        let r = Console {
            registry: ConsoleRegistry::new(),
            handlers: CommandHandlers::new(),
            permissions: ConsolePermissions::default(),
            aliases: CommandAliases::new(),
            queue: Vec::new(),
            outputs: Vec::new(),
            changes: Vec::new(),
            clear_console: false,
        };
        assert(r.pending() =~= Seq::<QueuedModel>::empty());
        assert(r.out() =~= Seq::<OutputModel>::empty());
        assert(r.changed() =~= Seq::<ChangeModel>::empty());
        r
    }

    /// The registry.
    pub fn registry(&self) -> (r: &ConsoleRegistry)
        ensures
            r@ == self.reg(),
            self.wf() ==> r.wf(),
    {
        &self.registry
    }

    /// The handler store.
    pub fn handlers(&self) -> (r: &CommandHandlers<H>)
        ensures
            r@ == self.handler_map(),
            self.wf() ==> r.wf(),
    {
        &self.handlers
    }

    /// The aliases.
    pub fn aliases(&self) -> (r: &CommandAliases)
        ensures
            r@ == self.alias_map(),
            self.wf() ==> r.wf(),
    {
        &self.aliases
    }

    /// The current permission tier.
    pub fn permission_level(&self) -> (r: PermissionLevel)
        ensures
            r == self.level(),
    {
        self.permissions.current_level
    }

    /// Acts at tier `level` from now on.
    pub fn set_permission_level(&mut self, level: PermissionLevel)
        ensures
            final(self).level() == level,
            final(self).reg() == old(self).reg(),
            final(self).handler_map() == old(self).handler_map(),
            final(self).alias_map() == old(self).alias_map(),
            final(self).pending() == old(self).pending(),
            final(self).out() == old(self).out(),
            final(self).changed() == old(self).changed(),
            final(self).clear_requested() == old(self).clear_requested(),
            final(self).wf() == old(self).wf(),
    {
        self.permissions.current_level = level;
    }

    /// Registers a variable; returns whether its name was new.
    pub fn register_var<T: ConVarValue>(&mut self, cvar: ConVar<T>) -> (r: bool)
        requires
            old(self).wf(),
        ensures
            final(self).wf(),
            (r, final(self).reg()) == crate::registry::register_var_spec::<T>(old(self).reg(), cvar@),
            final(self).handler_map() == old(self).handler_map(),
    {
        self.registry.register_var(cvar)
    }

    /// Registers a command and stores its handler; returns whether its name
    /// was new.
    pub fn register_cmd(&mut self, cmd: ConCommand<H>) -> (r: bool)
        requires
            old(self).wf(),
        ensures
            final(self).wf(),
            r == !old(self).reg().contains_key(cmd.meta().name),
            final(self).reg() == old(self).reg().insert(cmd.meta().name, EntryModel::Cmd(cmd.meta())),
            final(self).handler_map() == old(self).handler_map().insert(cmd.meta().name, cmd.handler_spec()),
    {
        let (name, handler, is_new) = self.registry.register_cmd(cmd);
        self.handlers.register(name.as_str(), handler);
        is_new
    }

    /// The value of variable `name`, if it holds a `T`.
    pub fn get<T: ConVarValue>(&self, name: &str) -> (r: Option<T>)
        requires
            self.wf(),
        ensures
            match self.reg().get(name@) {
                Some(EntryModel::Var(st)) => match T::unerase(st) {
                    Some(m) => r matches Some(x) && x@ == m.value,
                    None => r is None,
                },
                _ => r is None,
            },
    {
        self.registry.get(name)
    }

    /// The value of variable `name` as text.
    pub fn get_string(&self, name: &str) -> (r: Option<String>)
        requires
            self.wf(),
        ensures
            match self.reg().get(name@) {
                Some(EntryModel::Var(st)) => r matches Some(s) && s@ == state_value_text(st),
                _ => r is None,
            },
    {
        self.registry.get_string(name)
    }

    /// Sets variable `name` to `value`, as the registry does; not gated.
    pub fn set<T: ConVarValue>(&mut self, name: &str, value: T) -> (r: bool)
        requires
            old(self).wf(),
        ensures
            final(self).wf(),
            final(self).handler_map() == old(self).handler_map(),
            match old(self).reg().get(name@) {
                Some(EntryModel::Var(st)) => match T::unerase(st) {
                    Some(m) => if m.flags.has_bit(crate::convar::READ_ONLY_BIT) {
                        !r && final(self).reg() == old(self).reg()
                    } else {
                        r && final(self).reg() == old(self).reg().insert(
                            name@,
                            EntryModel::Var(
                                T::erase(VarModel { value: T::clamp_spec(value@, m.min, m.max), ..m }),
                            ),
                        )
                    },
                    None => !r && final(self).reg() == old(self).reg(),
                },
                _ => !r && final(self).reg() == old(self).reg(),
            },
    {
        self.registry.set(name, value)
    }

    /// Sets variable `name` from text, as the registry does; not gated.
    pub fn set_string(&mut self, name: &str, value: &str) -> (r: bool)
        requires
            old(self).wf(),
        ensures
            final(self).wf(),
            final(self).handler_map() == old(self).handler_map(),
            match old(self).reg().get(name@) {
                Some(EntryModel::Var(st)) => {
                    let (ok, st2) = state_set_string(st, value@);
                    r == ok && final(self).reg() == if ok {
                        old(self).reg().insert(name@, EntryModel::Var(st2))
                    } else {
                        old(self).reg()
                    }
                },
                _ => !r && final(self).reg() == old(self).reg(),
            },
    {
        self.registry.set_string(name, value)
    }

    /// Whether an entry is named `name`.
    pub fn contains(&self, name: &str) -> (r: bool)
        requires
            self.wf(),
        ensures
            r == self.reg().contains_key(name@),
    {
        self.registry.contains(name)
    }

    /// The entry named `name`.
    pub fn get_entry(&self, name: &str) -> (r: Option<&ConEntry>)
        requires
            self.wf(),
        ensures
            match self.reg().get(name@) {
                Some(e) => r matches Some(x) && x@ == e,
                None => r is None,
            },
    {
        self.registry.get_entry(name)
    }

    /// The number of entries.
    pub fn len(&self) -> (r: usize)
        requires
            self.wf(),
        ensures
            r == self.reg().len(),
    {
        self.registry.len()
    }

    /// Whether there are no entries.
    pub fn is_empty(&self) -> (r: bool)
        requires
            self.wf(),
        ensures
            r == (self.reg().len() == 0),
    {
        self.registry.is_empty()
    }

    /// Every variable, each once.
    pub fn vars(&self) -> (r: Vec<(String, &ConVarMeta)>)
        requires
            self.wf(),
        ensures
            lists_exactly(self.reg(), names_of(r@), |e: EntryModel| selects(Selection::Vars, e)),
            forall|a: int| 0 <= a < r@.len() ==> self.reg()[(#[trigger] r@[a]).0@] == EntryModel::Var(r@[a].1@),
    {
        self.registry.vars()
    }

    /// Every command, each once.
    pub fn cmds(&self) -> (r: Vec<(String, &ConCommandMeta)>)
        requires
            self.wf(),
        ensures
            lists_exactly(self.reg(), names_of(r@), |e: EntryModel| selects(Selection::Cmds, e)),
            forall|a: int| 0 <= a < r@.len() ==> self.reg()[(#[trigger] r@[a]).0@] == EntryModel::Cmd(r@[a].1@),
    {
        self.registry.cmds()
    }

    /// Every variable whose value differs from its default, each once.
    pub fn modified_vars(&self) -> (r: Vec<(String, &ConVarMeta)>)
        requires
            self.wf(),
        ensures
            lists_exactly(self.reg(), names_of(r@), |e: EntryModel| selects(Selection::ModifiedVars, e)),
            forall|a: int| 0 <= a < r@.len() ==> self.reg()[(#[trigger] r@[a]).0@] == EntryModel::Var(r@[a].1@),
    {
        self.registry.modified_vars()
    }

    /// Every variable flagged `ARCHIVE`, each once.
    pub fn archive_vars(&self) -> (r: Vec<(String, &ConVarMeta)>)
        requires
            self.wf(),
        ensures
            lists_exactly(self.reg(), names_of(r@), |e: EntryModel| selects(Selection::ArchiveVars, e)),
            forall|a: int| 0 <= a < r@.len() ==> self.reg()[(#[trigger] r@[a]).0@] == EntryModel::Var(r@[a].1@),
    {
        self.registry.archive_vars()
    }

    /// The entries whose names start with `prefix`, each once.
    pub fn prefix_iter(&self, prefix: &str) -> (r: Vec<(String, &ConEntry)>)
        requires
            self.wf(),
        ensures
            forall|a: int|
                0 <= a < r@.len() ==> self.reg().contains_key((#[trigger] r@[a]).0@) && crate::trie::has_prefix(
                    r@[a].0@,
                    prefix@,
                ) && r@[a].1@ == self.reg()[r@[a].0@],
            forall|k: Seq<char>|
                self.reg().contains_key(k) && crate::trie::has_prefix(k, prefix@) ==> exists|a: int|
                    0 <= a < r@.len() && (#[trigger] r@[a]).0@ == k,
            forall|a: int, b: int| 0 <= a < b < r@.len() ==> (#[trigger] r@[a]).0@ != (#[trigger] r@[b]).0@,
    {
        self.registry.prefix_iter(prefix)
    }

    /// The visible entries whose name or description contains `query`,
    /// ignoring case, sorted by name.
    pub fn search(&self, query: &str) -> (r: Vec<(String, &ConEntry)>)
        requires
            self.wf(),
        ensures
            crate::registry::search_result(self.reg(), query@, r@),
    {
        self.registry.search(query)
    }

    /// Makes `name` an alias of `command`.
    pub fn add_alias(&mut self, name: &str, command: &str)
        requires
            old(self).wf(),
        ensures
            final(self).wf(),
            final(self).alias_map() == old(self).alias_map().insert(name@, command@),
            final(self).reg() == old(self).reg(),
    {
        self.aliases.add(name, command);
    }

    /// Decides the access gate for an entry with `flags` and tier `required`.
    pub fn check_access(&self, flags: ConVarFlags, required: PermissionLevel) -> (r: Result<(), String>)
        requires
            self.wf(),
        ensures
            match gate(cheats_on(self.reg()), self.level(), flags, required) {
                Some(m) => r matches Err(s) && s@ == m,
                None => r is Ok,
            },
    {
        if flags.contains(ConVarFlags::cheat()) {
            let cheats = match self.registry.get::<i32>("sv_cheats") {
                Some(v) => v,
                None => 0,
            };
            if cheats == 0 {
                return Err(String::from_str("Requires sv_cheats to be enabled"));
            }
        }
        if !self.permissions.has_permission(required) {
            let mut m = cat("Insufficient permission (requires ", required.name());
            m.append(", have ");
            m.append(self.permissions.current_level.name());
            m.append(")");
            return Err(m);
        }
        Ok(())
    }

    /// Stage one of a pass: splits `line` into sub-commands, echoes each,
    /// and queues each that tokenizes; one that does not gets a parse error.
    pub fn intake(&mut self, line: &str)
        requires
            old(self).wf(),
        ensures
            final(self).out() == old(self).out() + intake_out(split_spec(line@)),
            final(self).pending() == old(self).pending() + intake_queue(split_spec(line@)),
            final(self).reg() == old(self).reg(),
            final(self).handler_map() == old(self).handler_map(),
            final(self).level() == old(self).level(),
            final(self).alias_map() == old(self).alias_map(),
            final(self).changed() == old(self).changed(),
            final(self).clear_requested() == old(self).clear_requested(),
            final(self).wf(),
    {
        let subs = split_commands(line);
        let ghost ss = views(subs@);
        let mut i: usize = 0;
        while i < subs.len()
            invariant
                self.wf(),
                ss == views(subs@),
                ss == split_spec(line@),
                i <= subs@.len(),
                self.out() == old(self).out() + intake_out(ss.take(i as int)),
                self.pending() == old(self).pending() + intake_queue(ss.take(i as int)),
                self.reg() == old(self).reg(),
                self.handler_map() == old(self).handler_map(),
                self.level() == old(self).level(),
                self.alias_map() == old(self).alias_map(),
                self.changed() == old(self).changed(),
                self.clear_requested() == old(self).clear_requested(),
            decreases subs.len() - i,
        {
            let sub = subs[i].as_str();
            let ghost before_out = self.out();
            let ghost before_q = self.pending();
            proof {
                assert(ss.take(i + 1).drop_last() =~= ss.take(i as int));
                assert(ss.take(i + 1).last() == sub@);
            }
            self.outputs.push(ConsoleOutputEvent::command(cat("$ ", sub)));
            match tokenize(sub) {
                Ok(t) => {
                    let q = QueuedCommand { raw: sub.to_owned(), name: t.command, args: t.args };
                    self.queue.push(q);
                },
                Err(e) => {
                    let msg = cat("Parse error: ", e.message().as_str());
                    self.outputs.push(ConsoleOutputEvent::error(msg));
                },
            }
            proof {
                assert(self.out() =~= before_out + intake_step_out(sub@));
                assert(self.pending() =~= before_q + queued_for(sub@));
                assert(old(self).out() + intake_out(ss.take(i + 1)) =~= old(self).out() + intake_out(
                    ss.take(i as int),
                ) + intake_step_out(sub@));
                assert(old(self).pending() + intake_queue(ss.take(i + 1)) =~= old(self).pending()
                    + intake_queue(ss.take(i as int)) + queued_for(sub@));
            }
            i = i + 1;
        }
        assert(ss.take(subs@.len() as int) =~= ss);
    }

    /// Takes the invocations queued so far, leaving the queue empty.
    pub fn take_queue(&mut self) -> (r: Vec<QueuedCommand>)
        ensures
            r@.map_values(|q: QueuedCommand| q@) == old(self).pending(),
            final(self).pending() == Seq::<QueuedModel>::empty(),
            final(self).out() == old(self).out(),
            final(self).reg() == old(self).reg(),
            final(self).handler_map() == old(self).handler_map(),
            final(self).level() == old(self).level(),
            final(self).alias_map() == old(self).alias_map(),
            final(self).changed() == old(self).changed(),
            final(self).clear_requested() == old(self).clear_requested(),
            final(self).wf() == old(self).wf(),
    {
        let mut q: Vec<QueuedCommand> = Vec::new();
        core::mem::swap(&mut self.queue, &mut q);
        assert(self.pending() =~= Seq::<QueuedModel>::empty());
        q
    }

    /// Stage two of a pass, for one invocation.
    ///
    /// A command must pass the access gate, else an error is reported; when
    /// it passes, the host is to run it. A variable named alone reports its
    /// value, which needs no access check. A variable named with arguments
    /// must pass the access gate; its new text value is the arguments joined
    /// by spaces, and the result or an error is reported, with a change
    /// record on success. An unknown name that is an alias is expanded and
    /// queued for the next pass; otherwise it is reported unknown.
    pub fn dispatch(&mut self, cmd: QueuedCommand) -> (r: Dispatch)
        requires
            old(self).wf(),
        ensures
            final(self).wf(),
            final(self).handler_map() == old(self).handler_map(),
            final(self).level() == old(self).level(),
            final(self).alias_map() == old(self).alias_map(),
            final(self).clear_requested() == old(self).clear_requested(),
            match old(self).reg().get(cmd@.name) {
                Some(EntryModel::Cmd(meta)) => match gate(cheats_on(old(self).reg()), old(self).level(), meta.flags, meta.permission) {
                    Some(m) => r is Done && final(self).same_but_out(old(self))
                        && final(self).out() == old(self).out().push(OutputModel {
                            level: ConsoleOutputLevel::Error,
                            message: "Cannot execute '"@ + cmd@.name + "': "@ + m,
                        }),
                    None => r matches Dispatch::Run(c) && c@ == cmd@ && final(self).same_but_out(old(self))
                        && final(self).out() == old(self).out(),
                },
                Some(EntryModel::Var(st)) => r is Done && final(self).pending() == old(self).pending() && if cmd@.args.len() == 0 {
                    final(self).same_but_out(old(self)) && final(self).out() == old(self).out().push(OutputModel {
                        level: ConsoleOutputLevel::Result,
                        message: assign_text(cmd@.name, state_value_text(st)),
                    }) + if state_description(st).len() > 0 {
                        seq![OutputModel { level: ConsoleOutputLevel::Info, message: " - "@ + state_description(st) }]
                    } else {
                        Seq::empty()
                    }
                } else {
                    match gate(cheats_on(old(self).reg()), old(self).level(), crate::registry::state_flags(st), crate::registry::state_permission(st)) {
                        Some(m) => final(self).same_but_out(old(self)) && final(self).out() == old(self).out().push(OutputModel {
                            level: ConsoleOutputLevel::Error,
                            message: "Cannot set '"@ + cmd@.name + "': "@ + m,
                        }),
                        None => {
                            let (ok, st2) = state_set_string(st, joined(cmd@.args, " "@));
                            if ok {
                                &&& final(self).reg() == old(self).reg().insert(cmd@.name, EntryModel::Var(st2))
                                &&& final(self).out() == old(self).out().push(OutputModel {
                                    level: ConsoleOutputLevel::Result,
                                    message: assign_text(cmd@.name, state_value_text(st2)),
                                })
                                &&& final(self).changed() == old(self).changed().push(ChangeModel {
                                    name: cmd@.name,
                                    old_value: state_value_text(st),
                                    new_value: state_value_text(st2),
                                })
                            } else {
                                final(self).same_but_out(old(self)) && final(self).out() == old(self).out().push(OutputModel {
                                    level: ConsoleOutputLevel::Error,
                                    message: "Cannot set '"@ + cmd@.name + "': invalid value or read-only"@,
                                })
                            }
                        },
                    }
                },
                None => r is Done && final(self).reg() == old(self).reg() && final(self).changed() == old(self).changed()
                    && match old(self).alias_map().get(cmd@.name) {
                    Some(exp) => final(self).out() == old(self).out() && final(self).pending() == old(self).pending()
                        + queued_for(alias_expansion(exp, cmd@.args)),
                    None => final(self).pending() == old(self).pending() && final(self).out() == old(self).out().push(OutputModel {
                        level: ConsoleOutputLevel::Error,
                        message: "Unknown command or variable: '"@ + cmd@.name + "'"@,
                    }),
                },
            },
    {
        let ghost c = cmd@;
        let name = cmd.name.as_str();
        let (is_cmd, flags, required) = match self.registry.get_entry(name) {
            Some(e) => (Some(e.is_cmd()), e.flags(), e.required_permission()),
            None => (None, ConVarFlags::none(), PermissionLevel::User),
        };
        match is_cmd {
            Some(true) => {
                match self.check_access(flags, required) {
                    Err(msg) => {
                        let mut m = cat("Cannot execute '", name);
                        m.append("': ");
                        m.append(msg.as_str());
                        self.outputs.push(ConsoleOutputEvent::error(m));
                        proof {
                            assert(self.out() =~= old(self).out().push(OutputModel {
                                level: ConsoleOutputLevel::Error,
                                message: "Cannot execute '"@ + c.name + "': "@ + msg@,
                            }));
                        }
                        Dispatch::Done
                    },
                    Ok(()) => Dispatch::Run(cmd),
                }
            },
            Some(false) => {
                if cmd.args.len() == 0 {
                    let (value, desc) = match self.registry.get_entry(name) {
                        Some(ConEntry::Var(meta)) => (meta.get_string(), meta.description().to_owned()),
                        _ => (String::new(), String::new()),
                    };
                    let mut m = cat("\"", name);
                    m.append("\" = \"");
                    m.append(value.as_str());
                    m.append("\"");
                    self.outputs.push(ConsoleOutputEvent::result(m));
                    let ghost mid = self.out();
                    if desc.as_str().is_empty() == false {
                        self.outputs.push(ConsoleOutputEvent::info(cat(" - ", desc.as_str())));
                    }
                    proof {
                        assert(mid =~= old(self).out().push(OutputModel {
                            level: ConsoleOutputLevel::Result,
                            message: assign_text(c.name, value@),
                        }));
                        if desc@.len() > 0 {
                            assert(self.out() =~= mid + seq![OutputModel { level: ConsoleOutputLevel::Info, message: " - "@ + desc@ }]);
                        } else {
                            assert(self.out() =~= mid + Seq::<OutputModel>::empty());
                        }
                    }
                    return Dispatch::Done;
                }
                match self.check_access(flags, required) {
                    Err(msg) => {
                        let mut m = cat("Cannot set '", name);
                        m.append("': ");
                        m.append(msg.as_str());
                        self.outputs.push(ConsoleOutputEvent::error(m));
                        proof {
                            assert(self.out() =~= old(self).out().push(OutputModel {
                                level: ConsoleOutputLevel::Error,
                                message: "Cannot set '"@ + c.name + "': "@ + msg@,
                            }));
                        }
                        Dispatch::Done
                    },
                    Ok(()) => {
                        let old_value = match self.registry.get_string(name) {
                            Some(v) => v,
                            None => String::new(),
                        };
                        let mut parts: Vec<&str> = Vec::new();
                        let mut k: usize = 0;
                        while k < cmd.args.len()
                            invariant
                                k <= cmd.args@.len(),
                                crate::concommand::str_views(parts@) == views(cmd.args@.take(k as int)),
                            decreases cmd.args.len() - k,
                        {
                            parts.push(cmd.args[k].as_str());
                            proof {
                                assert(views(cmd.args@.take(k + 1)) =~= views(cmd.args@.take(k as int)).push(cmd.args@[k as int]@));
                            }
                            k = k + 1;
                            assert(crate::concommand::str_views(parts@) =~= views(cmd.args@.take(k as int)));
                        }
                        assert(cmd.args@.take(cmd.args@.len() as int) =~= cmd.args@);
                        let new_value = crate::concommand::join_strs(parts.as_slice(), " ");
                        let ok = self.registry.set_string(name, new_value.as_str());
                        if ok {
                            let actual = match self.registry.get_string(name) {
                                Some(v) => v,
                                None => String::new(),
                            };
                            let mut m = cat("\"", name);
                            m.append("\" = \"");
                            m.append(actual.as_str());
                            m.append("\"");
                            self.outputs.push(ConsoleOutputEvent::result(m));
                            self.changes.push(ConVarChangedEvent::new(name, old_value.as_str(), actual.as_str()));
                            proof {
                                assert(self.out() =~= old(self).out().push(OutputModel {
                                    level: ConsoleOutputLevel::Result,
                                    message: assign_text(c.name, actual@),
                                }));
                                assert(self.changed() =~= old(self).changed().push(ChangeModel {
                                    name: c.name,
                                    old_value: old_value@,
                                    new_value: actual@,
                                }));
                            }
                        } else {
                            let mut m = cat("Cannot set '", name);
                            m.append("': invalid value or read-only");
                            self.outputs.push(ConsoleOutputEvent::error(m));
                            proof {
                                assert(self.out() =~= old(self).out().push(OutputModel {
                                    level: ConsoleOutputLevel::Error,
                                    message: "Cannot set '"@ + c.name + "': invalid value or read-only"@,
                                }));
                            }
                        }
                        Dispatch::Done
                    },
                }
            },
            None => {
                let expanded = match self.aliases.get(name) {
                    Some(exp) => {
                        if cmd.args.len() == 0 {
                            Some(exp.to_owned())
                        } else {
                            let mut parts: Vec<&str> = Vec::new();
                            let mut k: usize = 0;
                            while k < cmd.args.len()
                                invariant
                                    k <= cmd.args@.len(),
                                    crate::concommand::str_views(parts@) == views(cmd.args@.take(k as int)),
                                decreases cmd.args.len() - k,
                            {
                                parts.push(cmd.args[k].as_str());
                                proof {
                                    assert(views(cmd.args@.take(k + 1)) =~= views(cmd.args@.take(k as int)).push(cmd.args@[k as int]@));
                                }
                                k = k + 1;
                                assert(crate::concommand::str_views(parts@) =~= views(cmd.args@.take(k as int)));
                            }
                            assert(cmd.args@.take(cmd.args@.len() as int) =~= cmd.args@);
                            let joined_args = crate::concommand::join_strs(parts.as_slice(), " ");
                            let mut e = cat(exp, " ");
                            e.append(joined_args.as_str());
                            Some(e)
                        }
                    },
                    None => None,
                };
                match expanded {
                    Some(text) => {
                        let ghost before_q = self.pending();
                        match tokenize(text.as_str()) {
                            Ok(t) => {
                                let q = QueuedCommand { raw: text.clone(), name: t.command, args: t.args };
                                self.queue.push(q);
                            },
                            Err(_) => {},
                        }
                        assert(self.pending() =~= before_q + queued_for(text@));
                        Dispatch::Done
                    },
                    None => {
                        let mut m = cat("Unknown command or variable: '", name);
                        m.append("'");
                        self.outputs.push(ConsoleOutputEvent::error(m));
                        proof {
                            assert(self.out() =~= old(self).out().push(OutputModel {
                                level: ConsoleOutputLevel::Error,
                                message: "Unknown command or variable: '"@ + c.name + "'"@,
                            }));
                        }
                        Dispatch::Done
                    },
                }
            },
        }
    }

    /// Takes the handler of `name` out of the store so that it can run.
    pub fn begin_command(&mut self, name: &str) -> (r: Option<H>)
        requires
            old(self).wf(),
        ensures
            final(self).wf(),
            final(self).handler_map() == old(self).handler_map().remove(name@),
            match old(self).handler_map().get(name@) {
                Some(h) => r == Some(h),
                None => r is None,
            },
            final(self).reg() == old(self).reg(),
            final(self).out() == old(self).out(),
            final(self).pending() == old(self).pending(),
    {
        self.handlers.take(name)
    }

    /// Returns the handler of `name` after it ran; `failure` is the message
    /// of an abnormal end, which is reported as an error.
    pub fn finish_command(&mut self, name: &str, handler: H, failure: Option<String>)
        requires
            old(self).wf(),
        ensures
            final(self).wf(),
            final(self).handler_map() == old(self).handler_map().insert(name@, handler),
            final(self).reg() == old(self).reg(),
            final(self).pending() == old(self).pending(),
            match failure {
                Some(msg) => final(self).out() == old(self).out().push(OutputModel {
                    level: ConsoleOutputLevel::Error,
                    message: "Command '"@ + name@ + "' panicked: "@ + msg@,
                }),
                None => final(self).out() == old(self).out(),
            },
    {
        self.handlers.put(name, handler);
        if let Some(msg) = failure {
            let mut m = cat("Command '", name);
            m.append("' panicked: ");
            m.append(msg.as_str());
            self.outputs.push(ConsoleOutputEvent::error(m));
            proof {
                assert(self.out() =~= old(self).out().push(OutputModel {
                    level: ConsoleOutputLevel::Error,
                    message: "Command '"@ + name@ + "' panicked: "@ + msg@,
                }));
            }
        }
    }

    /// Stage three of a pass: hands out the outputs, the change records and
    /// whether the display is to be cleared, and empties them.
    pub fn flush(&mut self) -> (r: (Vec<ConsoleOutputEvent>, Vec<ConVarChangedEvent>, bool))
        ensures
            r.0@.map_values(|o: ConsoleOutputEvent| o@) == old(self).out(),
            r.1@.map_values(|c: ConVarChangedEvent| c@) == old(self).changed(),
            r.2 == old(self).clear_requested(),
            final(self).out() == Seq::<OutputModel>::empty(),
            final(self).changed() == Seq::<ChangeModel>::empty(),
            !final(self).clear_requested(),
            final(self).reg() == old(self).reg(),
            final(self).handler_map() == old(self).handler_map(),
            final(self).pending() == old(self).pending(),
            final(self).level() == old(self).level(),
            final(self).alias_map() == old(self).alias_map(),
            final(self).wf() == old(self).wf(),
    {
        let mut outputs: Vec<ConsoleOutputEvent> = Vec::new();
        core::mem::swap(&mut self.outputs, &mut outputs);
        let mut changes: Vec<ConVarChangedEvent> = Vec::new();
        core::mem::swap(&mut self.changes, &mut changes);
        let clear = self.clear_console;
        self.clear_console = false;
        assert(self.out() =~= Seq::<OutputModel>::empty());
        assert(self.changed() =~= Seq::<ChangeModel>::empty());
        (outputs, changes, clear)
    }

    /// Registers `sv_cheats`: an integer in `[0, 1]`, default 0, at tier
    /// `Admin`, that turns unsafe mode on.
    pub fn register_sv_cheats(&mut self) -> (r: bool)
        requires
            old(self).wf(),
        ensures
            final(self).wf(),
            final(self).reg() == old(self).reg().insert(
                sv_cheats_name(),
                EntryModel::Var(
                    VarState::Int(
                        VarModel {
                            name: sv_cheats_name(),
                            value: 0,
                            default: 0,
                            flags: ConVarFlags(0),
                            description: "Enable cheat-protected commands and variables"@,
                            min: Some(0),
                            max: Some(1),
                            permission: PermissionLevel::Admin,
                        },
                    ),
                ),
            ),
            final(self).handler_map() == old(self).handler_map(),
    {
        let v = ConVar::new("sv_cheats", 0i32).description(
            "Enable cheat-protected commands and variables",
        ).min(0).max(1).permission(PermissionLevel::Admin);
        self.registry.register_var(v)
    }

    /// Appends an information line.
    fn info(&mut self, m: String)
        ensures
            final(self).out() == old(self).out().push(OutputModel { level: ConsoleOutputLevel::Info, message: m@ }),
            final(self).same_but_out(old(self)),
    {
        self.outputs.push(ConsoleOutputEvent::info(m));
        assert(self.out() =~= old(self).out().push(OutputModel { level: ConsoleOutputLevel::Info, message: m@ }));
    }

    /// Appends a warning line.
    fn warn(&mut self, m: String)
        ensures
            final(self).out() == old(self).out().push(OutputModel { level: ConsoleOutputLevel::Warn, message: m@ }),
            final(self).same_but_out(old(self)),
    {
        self.outputs.push(ConsoleOutputEvent::warn(m));
        assert(self.out() =~= old(self).out().push(OutputModel { level: ConsoleOutputLevel::Warn, message: m@ }));
    }

    /// `echo <text...>`: prints the arguments joined by spaces.
    pub fn builtin_echo(&mut self, args: &CommandArgs)
        ensures
            final(self).out() == old(self).out().push(OutputModel {
                level: ConsoleOutputLevel::Info,
                message: joined(args.args_spec(), " "@),
            }),
            final(self).same_but_out(old(self)),
    {
        let text = args.join(" ");
        self.info(text);
    }

    /// `clear`: asks for the display to be cleared.
    pub fn builtin_clear(&mut self)
        ensures
            final(self).clear_requested(),
            final(self).out() == old(self).out(),
            final(self).reg() == old(self).reg(),
            final(self).handler_map() == old(self).handler_map(),
            final(self).pending() == old(self).pending(),
            final(self).changed() == old(self).changed(),
            final(self).alias_map() == old(self).alias_map(),
            final(self).level() == old(self).level(),
            final(self).wf() == old(self).wf(),
    {
        self.clear_console = true;
    }

    /// Reports that changing variable `name` was refused for `msg`.
    fn deny_set(&mut self, name: &str, msg: String)
        ensures
            final(self).out() == old(self).out().push(denial_line(name@, msg@)),
            final(self).same_but_out(old(self)),
    {
        let mut m = cat("Cannot set '", name);
        m.append("': ");
        m.append(msg.as_str());
        self.outputs.push(ConsoleOutputEvent::error(m));
        assert(self.out() =~= old(self).out().push(denial_line(name@, msg@)));
    }

    /// `toggle <var>`: flips a boolean variable, or an integer one between 0
    /// and 1 (0 becomes 1, anything else 0). The variable's access gate
    /// applies, as to any change from the console.
    pub fn builtin_toggle(&mut self, args: &CommandArgs)
        requires
            old(self).wf(),
        ensures
            final(self).wf(),
            final(self).handler_map() == old(self).handler_map(),
            final(self).pending() == old(self).pending(),
            args.args_spec().len() == 0 ==> final(self).same_but_out(old(self)) && final(self).out()
                == old(self).out().push(OutputModel { level: ConsoleOutputLevel::Warn, message: "Usage: toggle <convar>"@ }),
            args.args_spec().len() > 0 ==> match old(self).reg().get(args.args_spec()[0]) {
                Some(EntryModel::Var(VarState::Bool(m))) => match gate(cheats_on(old(self).reg()), old(self).level(), m.flags, m.permission) {
                    Some(g) => final(self).same_but_out(old(self)) && final(self).out() == old(self).out().push(
                        denial_line(args.args_spec()[0], g),
                    ),
                    None => {
                    let (ok, m2) = crate::convar::set_value_spec::<bool>(m, !m.value);
                    &&& final(self).reg() == if ok {
                        old(self).reg().insert(args.args_spec()[0], EntryModel::Var(VarState::Bool(m2)))
                    } else {
                        old(self).reg()
                    }
                    &&& final(self).out() == old(self).out().push(
                        info_line(args.args_spec()[0] + " = "@ + if m.value { "0"@ } else { "1"@ }),
                    )
                    },
                },
                Some(EntryModel::Var(VarState::Int(m))) => match gate(cheats_on(old(self).reg()), old(self).level(), m.flags, m.permission) {
                    Some(g) => final(self).same_but_out(old(self)) && final(self).out() == old(self).out().push(
                        denial_line(args.args_spec()[0], g),
                    ),
                    None => {
                    let (ok, m2) = crate::convar::set_value_spec::<i32>(m, if m.value == 0 { 1 } else { 0 });
                    &&& final(self).reg() == if ok {
                        old(self).reg().insert(args.args_spec()[0], EntryModel::Var(VarState::Int(m2)))
                    } else {
                        old(self).reg()
                    }
                    &&& final(self).out() == old(self).out().push(
                        info_line(args.args_spec()[0] + " = "@ + if m.value == 0 { "1"@ } else { "0"@ }),
                    )
                    },
                },
                _ => final(self).same_but_out(old(self)) && final(self).out() == old(self).out().push(OutputModel {
                    level: ConsoleOutputLevel::Warn,
                    message: "Cannot toggle '"@ + args.args_spec()[0] + "': not a boolean or integer"@,
                }),
            },
    {
        match args.get(0) {
            None => {
                self.warn(String::from_str("Usage: toggle <convar>"));
            },
            Some(name) => {
                let access = match self.registry.get_entry(name) {
                    Some(ConEntry::Var(meta)) => self.check_access(meta.flags(), meta.required_permission()),
                    _ => Ok(()),
                };
                let is_bool = self.registry.get::<bool>(name).is_some();
                let is_int = self.registry.get::<i32>(name).is_some();
                if is_bool || is_int {
                    if let Err(msg) = access {
                        self.deny_set(name, msg);
                        return;
                    }
                }
                if let Some(current) = self.registry.get::<bool>(name) {
                    let _ = self.registry.set(name, !current);
                    let mut m = cat(name, " = ");
                    m.append(if !current { "1" } else { "0" });
                    self.info(m);
                } else if let Some(current) = self.registry.get::<i32>(name) {
                    let new_val: i32 = if current == 0 { 1 } else { 0 };
                    let _ = self.registry.set(name, new_val);
                    let mut m = cat(name, " = ");
                    m.append(if new_val == 1 { "1" } else { "0" });
                    self.info(m);
                } else {
                    let mut m = cat("Cannot toggle '", name);
                    m.append("': not a boolean or integer");
                    self.warn(m);
                }
            },
        }
    }

    /// `reset <var>`: restores a variable's default, clamped to its bounds.
    /// The variable's access gate applies, as to any change from the console.
    pub fn builtin_reset(&mut self, args: &CommandArgs)
        requires
            old(self).wf(),
        ensures
            final(self).wf(),
            final(self).handler_map() == old(self).handler_map(),
            final(self).pending() == old(self).pending(),
            args.args_spec().len() == 0 ==> final(self).same_but_out(old(self)) && final(self).out()
                == old(self).out().push(OutputModel { level: ConsoleOutputLevel::Warn, message: "Usage: reset <convar>"@ }),
            args.args_spec().len() > 0 ==> match old(self).reg().get(args.args_spec()[0]) {
                Some(EntryModel::Var(st)) => match gate(
                    cheats_on(old(self).reg()),
                    old(self).level(),
                    crate::registry::state_flags(st),
                    crate::registry::state_permission(st),
                ) {
                    Some(g) => final(self).same_but_out(old(self)) && final(self).out() == old(self).out().push(
                        denial_line(args.args_spec()[0], g),
                    ),
                    None => {
                        let st2 = crate::registry::state_reset(st);
                        &&& final(self).reg() == old(self).reg().insert(args.args_spec()[0], EntryModel::Var(st2))
                        &&& final(self).out() == old(self).out().push(OutputModel {
                            level: ConsoleOutputLevel::Info,
                            message: args.args_spec()[0] + " reset to \""@ + state_value_text(st2) + "\""@,
                        })
                    },
                },
                _ => final(self).same_but_out(old(self)) && final(self).out() == old(self).out().push(OutputModel {
                    level: ConsoleOutputLevel::Warn,
                    message: "Unknown variable: "@ + args.args_spec()[0],
                }),
            },
    {
        match args.get(0) {
            None => {
                self.warn(String::from_str("Usage: reset <convar>"));
            },
            Some(name) => {
                let access = match self.registry.get_entry(name) {
                    Some(ConEntry::Var(meta)) => self.check_access(meta.flags(), meta.required_permission()),
                    _ => Ok(()),
                };
                if let Err(msg) = access {
                    self.deny_set(name, msg);
                    return;
                }
                if self.registry.reset(name) {
                    let value = match self.registry.get_string(name) {
                        Some(v) => v,
                        None => String::new(),
                    };
                    let mut m = cat(name, " reset to \"");
                    m.append(value.as_str());
                    m.append("\"");
                    self.info(m);
                } else {
                    self.warn(cat("Unknown variable: ", name));
                }
            },
        }
    }

    /// `alias`: with no arguments lists the aliases; with a name shows that
    /// alias; with more, makes the name expand to the rest joined by spaces.
    pub fn builtin_alias(&mut self, args: &CommandArgs)
        requires
            old(self).wf(),
        ensures
            final(self).wf(),
            final(self).reg() == old(self).reg(),
            final(self).handler_map() == old(self).handler_map(),
            final(self).pending() == old(self).pending(),
            args.args_spec().len() >= 2 ==> final(self).alias_map() == old(self).alias_map().insert(
                args.args_spec()[0],
                joined(args.args_spec().skip(1), " "@),
            ),
            args.args_spec().len() < 2 ==> final(self).alias_map() == old(self).alias_map(),
            args.args_spec().len() >= 2 ==> final(self).out() == old(self).out().push(
                info_line(
                    "Alias '"@ + args.args_spec()[0] + "' set to '"@ + joined(args.args_spec().skip(1), " "@) + "'"@,
                ),
            ),
            args.args_spec().len() == 0 && old(self).alias_map().len() == 0 ==> final(self).out() == old(
                self,
            ).out().push(info_line("No aliases defined"@)),
            args.args_spec().len() == 0 && old(self).alias_map().len() > 0 ==> exists|r: Seq<(String, String)>|
                alias_listing(old(self).alias_map(), r) && final(self).out() == old(self).out() + seq![
                    info_line("Aliases:"@),
                ] + r.map_values(|x: (String, String)| info_line("  "@ + x.0@ + " -> "@ + x.1@)),
            args.args_spec().len() == 1 ==> final(self).out() == old(self).out().push(
                match old(self).alias_map().get(args.args_spec()[0]) {
                    Some(c) => OutputModel { level: ConsoleOutputLevel::Info, message: args.args_spec()[0] + " -> "@ + c },
                    None => OutputModel {
                        level: ConsoleOutputLevel::Warn,
                        message: "Alias '"@ + args.args_spec()[0] + "' not found"@,
                    },
                },
            ),
    {
        match args.get(0) {
            None => {
                if self.aliases.is_empty() {
                    self.info(String::from_str("No aliases defined"));
                } else {
                    let all = self.aliases.iter();
                    let mut lines: Vec<String> = Vec::new();
                    lines.push(String::from_str("Aliases:"));
                    let mut i: usize = 0;
                    while i < all.len()
                        invariant
                            i <= all@.len(),
                            lines@.len() == i + 1,
                            lines@[0]@ == "Aliases:"@,
                            forall|a: int| 0 <= a < i ==> (#[trigger] lines@[a + 1])@ == "  "@ + all@[a].0@ + " -> "@ + all@[a].1@,
                        decreases all.len() - i,
                    {
                        let mut m = cat("  ", all[i].0.as_str());
                        m.append(" -> ");
                        m.append(all[i].1.as_str());
                        lines.push(m);
                        i = i + 1;
                    }
                    let ghost ls = lines@;
                    self.emit_infos(lines);
                    proof {
                        let body = all@.map_values(|x: (String, String)| info_line("  "@ + x.0@ + " -> "@ + x.1@));
                        let outs = ls.map_values(|m: String| OutputModel { level: ConsoleOutputLevel::Info, message: m@ });
                        assert forall|k: int| 0 <= k < outs.len() implies outs[k] == (seq![info_line("Aliases:"@)] + body)[k] by {
                            if k >= 1 {
                                assert(ls[(k - 1) + 1]@ == "  "@ + all@[k - 1].0@ + " -> "@ + all@[k - 1].1@);
                            }
                        }
                        assert(outs =~= seq![info_line("Aliases:"@)] + body);
                        assert(alias_listing(old(self).alias_map(), all@));
                    }
                }
            },
            Some(name) => {
                if args.len() == 1 {
                    match self.aliases.get(name) {
                        Some(c) => {
                            let mut m = cat(name, " -> ");
                            m.append(c);
                            self.info(m);
                        },
                        None => {
                            let mut m = cat("Alias '", name);
                            m.append("' not found");
                            self.warn(m);
                        },
                    }
                } else {
                    let command = args.join_from(1, " ");
                    self.aliases.add(name, command.as_str());
                    let mut m = cat("Alias '", name);
                    m.append("' set to '");
                    m.append(command.as_str());
                    m.append("'");
                    self.outputs.push(ConsoleOutputEvent::info(m));
                }
            },
        }
    }

    /// `unalias <name>`: removes an alias.
    pub fn builtin_unalias(&mut self, args: &CommandArgs)
        requires
            old(self).wf(),
        ensures
            final(self).wf(),
            final(self).reg() == old(self).reg(),
            final(self).handler_map() == old(self).handler_map(),
            final(self).pending() == old(self).pending(),
            args.args_spec().len() == 0 ==> final(self).alias_map() == old(self).alias_map()
                && final(self).out() == old(self).out().push(OutputModel { level: ConsoleOutputLevel::Warn, message: "Usage: unalias <name>"@ }),
            args.args_spec().len() > 0 ==> final(self).alias_map() == old(self).alias_map().remove(args.args_spec()[0])
                && final(self).out() == old(self).out().push(
                if old(self).alias_map().contains_key(args.args_spec()[0]) {
                    OutputModel { level: ConsoleOutputLevel::Info, message: "Removed alias '"@ + args.args_spec()[0] + "'"@ }
                } else {
                    OutputModel { level: ConsoleOutputLevel::Warn, message: "Alias '"@ + args.args_spec()[0] + "' not found"@ }
                },
            ),
    {
        match args.get(0) {
            None => {
                self.warn(String::from_str("Usage: unalias <name>"));
            },
            Some(name) => {
                if self.aliases.remove(name).is_some() {
                    let mut m = cat("Removed alias '", name);
                    m.append("'");
                    self.outputs.push(ConsoleOutputEvent::info(m));
                    proof {
                        assert(self.out() =~= old(self).out().push(OutputModel { level: ConsoleOutputLevel::Info, message: "Removed alias '"@ + name@ + "'"@ }));
                    }
                } else {
                    let mut m = cat("Alias '", name);
                    m.append("' not found");
                    self.outputs.push(ConsoleOutputEvent::warn(m));
                    proof {
                        assert(self.out() =~= old(self).out().push(OutputModel { level: ConsoleOutputLevel::Warn, message: "Alias '"@ + name@ + "' not found"@ }));
                    }
                }
            },
        }
    }

    /// Appends `line` to the outputs, keeping what was there.
    fn emit(&mut self, line: ConsoleOutputEvent)
        ensures
            final(self).out() == old(self).out().push(line@),
            final(self).same_but_out(old(self)),
    {
        let ghost l = line@;
        self.outputs.push(line);
        assert(self.out() =~= old(self).out().push(l));
    }

    /// Appends an output line on behalf of a command handler.
    pub fn report(&mut self, level: ConsoleOutputLevel, message: String)
        ensures
            final(self).out() == old(self).out().push(OutputModel { level, message: message@ }),
            final(self).same_but_out(old(self)),
    {
        self.emit(ConsoleOutputEvent::new(level, message));
    }

    /// Appends each of `lines` as an information line.
    fn emit_infos(&mut self, lines: Vec<String>)
        ensures
            final(self).out() == old(self).out() + lines@.map_values(|m: String| OutputModel { level: ConsoleOutputLevel::Info, message: m@ }),
            final(self).same_but_out(old(self)),
    {
        let mut i: usize = 0;
        while i < lines.len()
            invariant
                self.same_but_out(old(self)),
                i <= lines@.len(),
                self.out() == old(self).out() + lines@.take(i as int).map_values(|m: String| OutputModel { level: ConsoleOutputLevel::Info, message: m@ }),
            decreases lines.len() - i,
        {
            let ghost before = self.out();
            self.emit(ConsoleOutputEvent::info(lines[i].clone()));
            assert(lines@.take(i + 1).map_values(|m: String| OutputModel { level: ConsoleOutputLevel::Info, message: m@ })
                =~= lines@.take(i as int).map_values(|m: String| OutputModel { level: ConsoleOutputLevel::Info, message: m@ }).push(
                OutputModel { level: ConsoleOutputLevel::Info, message: lines@[i as int]@ }));
            i = i + 1;
        }
        assert(lines@.take(lines@.len() as int) =~= lines@);
    }

    /// `help [name]`: describes one entry, or lists the commands.
    pub fn builtin_help(&mut self, args: &CommandArgs)
        requires
            old(self).wf(),
        ensures
            final(self).same_but_out(old(self)),
            args.args_spec().len() > 0 ==> final(self).out() == old(self).out() + help_lines(
                args.args_spec()[0],
                old(self).reg().get(args.args_spec()[0]),
            ),
            args.args_spec().len() == 0 ==> exists|r: Seq<(String, &ConCommandMeta)>|
                lists_exactly(old(self).reg(), names_of(r), |e: EntryModel| selects(Selection::Cmds, e))
                    && final(self).out() == old(self).out() + seq![info_line("Commands:"@)] + r.map_values(
                    |x: (String, &ConCommandMeta)| info_line("  "@ + x.0@),
                ) + seq![info_line("Use 'help <name>' for details, 'cvarlist' for variables"@)],
    {
        match args.get(0) {
            Some(name) => {
                match self.registry.get_entry(name) {
                    Some(entry) => {
                        let d = entry.description();
                        let desc = if d.is_empty() { "No description" } else { d };
                        let mut m = cat(name, " - ");
                        m.append(desc);
                        let cur_def = match entry {
                            ConEntry::Var(meta) => Some((meta.get_string(), meta.default_string())),
                            ConEntry::Cmd(_) => None,
                        };
                        self.emit(ConsoleOutputEvent::info(m));
                        let ghost mid = self.out();
                        if let Some((cur, def)) = cur_def {
                            self.emit(ConsoleOutputEvent::info(cat("  Current: ", cur.as_str())));
                            self.emit(ConsoleOutputEvent::info(cat("  Default: ", def.as_str())));
                        }
                        proof {
                            let e = old(self).reg()[name@];
                            match e {
                                EntryModel::Var(st) => {
                                    assert(self.out() =~= old(self).out() + help_lines(name@, Some(e)));
                                },
                                EntryModel::Cmd(_) => {
                                    assert(self.out() =~= old(self).out() + help_lines(name@, Some(e)));
                                },
                            }
                        }
                    },
                    None => {
                        self.emit(ConsoleOutputEvent::warn(cat("Unknown command or variable: ", name)));
                        assert(self.out() =~= old(self).out() + help_lines(name@, None));
                    },
                }
            },
            None => {
                let mut lines: Vec<String> = Vec::new();
                lines.push(String::from_str("Commands:"));
                let cmds = self.registry.cmds();
                let mut i: usize = 0;
                while i < cmds.len()
                    invariant
                        i <= cmds@.len(),
                        lines@.len() == i + 1,
                        lines@[0]@ == "Commands:"@,
                        forall|a: int| 0 <= a < i ==> (#[trigger] lines@[a + 1])@ == "  "@ + cmds@[a].0@,
                    decreases cmds.len() - i,
                {
                    lines.push(cat("  ", cmds[i].0.as_str()));
                    i = i + 1;
                }
                lines.push(String::from_str("Use 'help <name>' for details, 'cvarlist' for variables"));
                let ghost ls = lines@;
                self.emit_infos(lines);
                proof {
                    let body = cmds@.map_values(|x: (String, &ConCommandMeta)| info_line("  "@ + x.0@));
                    let all = ls.map_values(|m: String| OutputModel { level: ConsoleOutputLevel::Info, message: m@ });
                    assert forall|k: int| 0 <= k < all.len() implies all[k] == (seq![info_line("Commands:"@)] + body + seq![
                        info_line("Use 'help <name>' for details, 'cvarlist' for variables"@),
                    ])[k] by {
                        if 1 <= k < all.len() - 1 {
                            assert(ls[(k - 1) + 1]@ == "  "@ + cmds@[k - 1].0@);
                        }
                    }
                    assert(all =~= seq![info_line("Commands:"@)] + body + seq![
                        info_line("Use 'help <name>' for details, 'cvarlist' for variables"@),
                    ]);
                }
            },
        }
    }

    /// `cvarlist [prefix]`: lists the visible variables whose names start
    /// with the prefix, a `*` marking modified ones, then their count.
    pub fn builtin_cvarlist(&mut self, args: &CommandArgs)
        requires
            old(self).wf(),
        ensures
            final(self).same_but_out(old(self)),
            exists|r: Seq<(String, &ConVarMeta)>|
                lists_exactly(old(self).reg(), names_of(r), |e: EntryModel| selects(Selection::Vars, e))
                    && final(self).out() == old(self).out() + cvar_lines(r, cvar_prefix(args)) + seq![
                    info_line(crate::number::decimal(cvar_lines(r, cvar_prefix(args)).len()) + " convars"@),
                ],
    {
        proof {
            reveal_strlit("");
        }
        let prefix = match args.get(0) {
            Some(p) => p,
            None => "",
        };
        let vars = self.registry.vars();
        let mut lines: Vec<String> = Vec::new();
        let mut count: u64 = 0;
        let mut i: usize = 0;
        while i < vars.len()
            invariant
                i <= vars@.len(),
                prefix@ == cvar_prefix(args),
                count == lines@.len(),
                count <= i,
                lines@.map_values(|m: String| OutputModel { level: ConsoleOutputLevel::Info, message: m@ })
                    == cvar_lines(vars@.take(i as int), prefix@),
            decreases vars.len() - i,
        {
            let (name, meta) = (&vars[i].0, vars[i].1);
            proof {
                assert(vars@.take(i + 1).drop_last() =~= vars@.take(i as int));
            }
            if starts_with(name.as_str(), prefix) && !meta.flags().contains(ConVarFlags::hidden()) {
                let mut m = String::from_str(name.as_str());
                if meta.is_modified() {
                    m.append("*");
                }
                m.append(" = \"");
                m.append(meta.get_string().as_str());
                m.append("\"");
                let ghost before = lines@;
                lines.push(m);
                assert(lines@.map_values(|m: String| OutputModel { level: ConsoleOutputLevel::Info, message: m@ })
                    =~= before.map_values(|m: String| OutputModel { level: ConsoleOutputLevel::Info, message: m@ }).push(
                    info_line(cvar_text(vars@[i as int].0@, vars@[i as int].1@)),
                ));
                count = count + 1;
            }
            i = i + 1;
        }
        assert(vars@.take(vars@.len() as int) =~= vars@);
        let ghost ls = lines@;
        self.emit_infos(lines);
        let m = cat(crate::number::format_u64(count).as_str(), " convars");
        self.emit(ConsoleOutputEvent::info(m));
    }

    /// `find <query>`: lists the entries whose name or description contains
    /// the query, sorted by name, then their count.
    pub fn builtin_find(&mut self, args: &CommandArgs)
        requires
            old(self).wf(),
        ensures
            final(self).same_but_out(old(self)),
            args.args_spec().len() == 0 ==> final(self).out() == old(self).out().push(OutputModel {
                level: ConsoleOutputLevel::Warn,
                message: "Usage: find <search term>"@,
            }),
            args.args_spec().len() > 0 ==> exists|r: Seq<(String, &ConEntry)>|
                crate::registry::search_result(old(self).reg(), args.args_spec()[0], r) && final(self).out()
                    == old(self).out() + find_lines(r) + seq![
                    OutputModel {
                        level: ConsoleOutputLevel::Info,
                        message: crate::number::decimal(r.len()) + " results"@,
                    },
                ],
    {
        match args.get(0) {
            None => {
                self.emit(ConsoleOutputEvent::warn(String::from_str("Usage: find <search term>")));
            },
            Some(query) => {
                let results = self.registry.search(query);
                let mut lines: Vec<String> = Vec::new();
                let mut i: usize = 0;
                while i < results.len()
                    invariant
                        i <= results@.len(),
                        lines@.len() == i,
                        forall|a: int| 0 <= a < i ==> (#[trigger] lines@[a])@ == find_text(results@[a].0@, results@[a].1@),
                    decreases results.len() - i,
                {
                    let (name, entry) = (&results[i].0, results[i].1);
                    let mut m = String::from_str(if entry.is_var() { "[var] " } else { "[cmd] " });
                    m.append(name.as_str());
                    let desc = entry.description();
                    if !desc.is_empty() {
                        m.append(" - ");
                        m.append(desc);
                    }
                    lines.push(m);
                    i = i + 1;
                }
                let n = results.len();
                let ghost ls = lines@;
                self.emit_infos(lines);
                let m = cat(crate::number::format_u64(n as u64).as_str(), " results");
                self.emit(ConsoleOutputEvent::info(m));
                proof {
                    assert(ls.map_values(|m: String| OutputModel { level: ConsoleOutputLevel::Info, message: m@ })
                        =~= find_lines(results@));
                    assert(crate::registry::search_result(old(self).reg(), args.args_spec()[0], results@));
                }
            },
        }
    }

    /// `differences`: lists the variables whose value differs from the
    /// default, then how many there are.
    pub fn builtin_differences(&mut self)
        requires
            old(self).wf(),
        ensures
            final(self).same_but_out(old(self)),
            exists|r: Seq<(String, &ConVarMeta)>|
                lists_exactly(old(self).reg(), names_of(r), |e: EntryModel| selects(Selection::ModifiedVars, e))
                    && (forall|a: int| 0 <= a < r.len() ==> old(self).reg()[(#[trigger] r[a]).0@] == EntryModel::Var(r[a].1@))
                    && final(self).out() == old(self).out() + diff_lines(r) + seq![
                    OutputModel {
                        level: ConsoleOutputLevel::Info,
                        message: if r.len() == 0 {
                            "No modified convars"@
                        } else {
                            crate::number::decimal(r.len()) + " modified convars"@
                        },
                    },
                ],
    {
        let modified = self.registry.modified_vars();
        let mut lines: Vec<String> = Vec::new();
        let mut i: usize = 0;
        while i < modified.len()
            invariant
                i <= modified@.len(),
                lines@.len() == i,
                forall|a: int| 0 <= a < i ==> (#[trigger] lines@[a])@ == diff_text(modified@[a].0@, modified@[a].1@),
            decreases modified.len() - i,
        {
            let (name, meta) = (&modified[i].0, modified[i].1);
            let mut m = cat(name.as_str(), " = \"");
            m.append(meta.get_string().as_str());
            m.append("\" (default: \"");
            m.append(meta.default_string().as_str());
            m.append("\")");
            lines.push(m);
            i = i + 1;
        }
        let n = modified.len();
        let ghost ls = lines@;
        self.emit_infos(lines);
        if n == 0 {
            self.emit(ConsoleOutputEvent::info(String::from_str("No modified convars")));
        } else {
            let m = cat(crate::number::format_u64(n as u64).as_str(), " modified convars");
            self.emit(ConsoleOutputEvent::info(m));
        }
        proof {
            assert(ls.map_values(|m: String| OutputModel { level: ConsoleOutputLevel::Info, message: m@ })
                =~= diff_lines(modified@));
        }
    }

    /// Queues the lines of a script: blank lines and lines starting with
    /// `//` or `#` are skipped; each other line, trimmed, is echoed and, if
    /// it tokenizes, queued. Returns how many were queued.
    pub fn queue_script(&mut self, lines: &Vec<String>) -> (r: usize)
        requires
            old(self).wf(),
        ensures
            final(self).wf(),
            final(self).reg() == old(self).reg(),
            final(self).handler_map() == old(self).handler_map(),
            final(self).alias_map() == old(self).alias_map(),
            final(self).changed() == old(self).changed(),
            final(self).out() == old(self).out() + script_out(views(lines@)),
            final(self).pending() == old(self).pending() + script_queue(views(lines@)),
            r == script_queue(views(lines@)).len(),
    {
        let mut count: usize = 0;
        let mut i: usize = 0;
        let ghost ls = views(lines@);
        while i < lines.len()
            invariant
                self.wf(),
                ls == views(lines@),
                self.reg() == old(self).reg(),
                self.handler_map() == old(self).handler_map(),
                self.alias_map() == old(self).alias_map(),
                self.changed() == old(self).changed(),
                self.out() == old(self).out() + script_out(ls.take(i as int)),
                self.pending() == old(self).pending() + script_queue(ls.take(i as int)),
                count == script_queue(ls.take(i as int)).len(),
                count <= i,
                i <= lines@.len(),
            decreases lines.len() - i,
        {
            proof {
                assert(ls.take(i + 1).drop_last() =~= ls.take(i as int));
                assert(ls.take(i + 1).last() == lines@[i as int]@);
            }
            let ghost before_out = self.out();
            let ghost before_q = self.pending();
            let line = crate::text::trimmed(lines[i].as_str());
            proof {
                reveal_strlit("//");
                reveal_strlit("#");
            }
            if !(line.is_empty() || starts_with(line, "//") || starts_with(line, "#")) {
                self.outputs.push(ConsoleOutputEvent::command(cat("$ ", line)));
                if let Ok(t) = tokenize(line) {
                    self.queue.push(QueuedCommand { raw: line.to_owned(), name: t.command, args: t.args });
                    count = count + 1;
                }
            }
            proof {
                assert(self.out() =~= before_out + script_step_out(lines@[i as int]@));
                assert(self.pending() =~= before_q + script_step_queue(lines@[i as int]@));
                assert(old(self).out() + script_out(ls.take(i + 1)) =~= old(self).out() + script_out(ls.take(i as int))
                    + script_step_out(lines@[i as int]@));
                assert(old(self).pending() + script_queue(ls.take(i + 1)) =~= old(self).pending() + script_queue(
                    ls.take(i as int),
                ) + script_step_queue(lines@[i as int]@));
            }
            i = i + 1;
        }
        assert(ls.take(lines@.len() as int) =~= ls);
        count
    }
}

} // verus!

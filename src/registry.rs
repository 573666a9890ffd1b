//! The registry of console variables and commands, keyed by name in one
//! namespace, and the separate store of command handlers.
use vstd::prelude::*;
use vstd::string::*;

use crate::concommand::{CmdModel, ConCommand, ConCommandMeta};
use crate::convar::{
    reset_spec, set_string_spec, ConVar, ConVarFlags, ConVarValue, StoredVar, VarModel, VarState,
    ARCHIVE_BIT, HIDDEN_BIT,
};
use crate::permissions::PermissionLevel;
use crate::matcher::{match_spec, rank_le, ranks_before, lemma_lex_total, subsequence_match, MatchResult, MAX_PATTERN_BYTES};
use crate::trie::{has_prefix, Trie};
use vstd::utf8::encode_utf8;

verus! {

/// The name of a tagged variable.
pub open spec fn state_name(st: VarState) -> Seq<char> {
    match st {
        VarState::Bool(m) => m.name,
        VarState::Int(m) => m.name,
        VarState::Long(m) => m.name,
        VarState::Str(m) => m.name,
    }
}

/// The description of a tagged variable.
pub open spec fn state_description(st: VarState) -> Seq<char> {
    match st {
        VarState::Bool(m) => m.description,
        VarState::Int(m) => m.description,
        VarState::Long(m) => m.description,
        VarState::Str(m) => m.description,
    }
}

/// The flags of a tagged variable.
pub open spec fn state_flags(st: VarState) -> ConVarFlags {
    match st {
        VarState::Bool(m) => m.flags,
        VarState::Int(m) => m.flags,
        VarState::Long(m) => m.flags,
        VarState::Str(m) => m.flags,
    }
}

/// The required tier of a tagged variable.
pub open spec fn state_permission(st: VarState) -> PermissionLevel {
    match st {
        VarState::Bool(m) => m.permission,
        VarState::Int(m) => m.permission,
        VarState::Long(m) => m.permission,
        VarState::Str(m) => m.permission,
    }
}

/// The current value of a tagged variable, as text.
pub open spec fn state_value_text(st: VarState) -> Seq<char> {
    match st {
        VarState::Bool(m) => bool::format_spec(m.value),
        VarState::Int(m) => i32::format_spec(m.value),
        VarState::Long(m) => i64::format_spec(m.value),
        VarState::Str(m) => String::format_spec(m.value),
    }
}

/// The default value of a tagged variable, as text.
pub open spec fn state_default_text(st: VarState) -> Seq<char> {
    match st {
        VarState::Bool(m) => bool::format_spec(m.default),
        VarState::Int(m) => i32::format_spec(m.default),
        VarState::Long(m) => i64::format_spec(m.default),
        VarState::Str(m) => String::format_spec(m.default),
    }
}

/// Whether a tagged variable differs from its default.
pub open spec fn state_modified(st: VarState) -> bool {
    match st {
        VarState::Bool(m) => m.value != m.default,
        VarState::Int(m) => m.value != m.default,
        VarState::Long(m) => m.value != m.default,
        VarState::Str(m) => m.value != m.default,
    }
}

/// Setting a tagged variable from text: whether it was accepted, and the
/// variable after.
pub open spec fn state_set_string(st: VarState, s: Seq<char>) -> (bool, VarState) {
    match st {
        VarState::Bool(m) => {
            let (ok, m2) = set_string_spec::<bool>(m, s);
            (ok, VarState::Bool(m2))
        },
        VarState::Int(m) => {
            let (ok, m2) = set_string_spec::<i32>(m, s);
            (ok, VarState::Int(m2))
        },
        VarState::Long(m) => {
            let (ok, m2) = set_string_spec::<i64>(m, s);
            (ok, VarState::Long(m2))
        },
        VarState::Str(m) => {
            let (ok, m2) = set_string_spec::<String>(m, s);
            (ok, VarState::Str(m2))
        },
    }
}

/// Resetting a tagged variable to its default.
pub open spec fn state_reset(st: VarState) -> VarState {
    match st {
        VarState::Bool(m) => VarState::Bool(reset_spec::<bool>(m)),
        VarState::Int(m) => VarState::Int(reset_spec::<i32>(m)),
        VarState::Long(m) => VarState::Long(reset_spec::<i64>(m)),
        VarState::Str(m) => VarState::Str(reset_spec::<String>(m)),
    }
}

/// Registering variable `m`: whether its name was new, and the entries after,
/// where it replaces any entry of that name.
pub open spec fn register_var_spec<T: ConVarValue>(reg: Map<Seq<char>, EntryModel>, m: VarModel<T::V>) -> (bool, Map<Seq<char>, EntryModel>) {
    (!reg.contains_key(m.name), reg.insert(m.name, EntryModel::Var(T::erase(m))))
}

/// Registering a second variable under a name already registered reports
/// the name as not new, and the entry is then the second variable, with its
/// own value and default.
pub proof fn lemma_register_twice<T: ConVarValue, U: ConVarValue>(
    reg: Map<Seq<char>, EntryModel>,
    first: VarModel<T::V>,
    second: VarModel<U::V>,
)
    requires
        first.name == second.name,
    ensures
        ({
            let (new1, reg1) = register_var_spec::<T>(reg, first);
            let (new2, reg2) = register_var_spec::<U>(reg1, second);
            &&& !new2
            &&& reg2[second.name] == EntryModel::Var(U::erase(second))
            &&& U::unerase(U::erase(second)) == Some(second)
            &&& reg2.dom() == reg1.dom()
        }),
{
    U::lemma_unerase(second);
    let (new1, reg1) = register_var_spec::<T>(reg, first);
    let (new2, reg2) = register_var_spec::<U>(reg1, second);
    assert(reg2.dom() =~= reg1.dom());
}

/// A registered variable of any supported type.
pub struct ConVarMeta {
    value: StoredVar,
}

impl View for ConVarMeta {
    type V = VarState;

    closed spec fn view(&self) -> VarState {
        self.value@
    }
}

impl ConVarMeta {
    /// Wraps a typed variable.
    pub fn from_convar<T: ConVarValue>(cvar: ConVar<T>) -> (r: Self)
        ensures
            r@ == T::erase(cvar@),
    {
        ConVarMeta { value: T::into_stored(cvar) }
    }

    /// The name.
    pub fn name(&self) -> (r: &str)
        ensures
            r@ == state_name(self@),
    {
        match &self.value {
            StoredVar::Bool(c) => c.name(),
            StoredVar::Int(c) => c.name(),
            StoredVar::Long(c) => c.name(),
            StoredVar::Str(c) => c.name(),
        }
    }

    /// The description.
    pub fn description(&self) -> (r: &str)
        ensures
            r@ == state_description(self@),
    {
        match &self.value {
            StoredVar::Bool(c) => c.get_description(),
            StoredVar::Int(c) => c.get_description(),
            StoredVar::Long(c) => c.get_description(),
            StoredVar::Str(c) => c.get_description(),
        }
    }

    /// The flags.
    pub fn flags(&self) -> (r: ConVarFlags)
        ensures
            r == state_flags(self@),
    {
        match &self.value {
            StoredVar::Bool(c) => c.get_flags(),
            StoredVar::Int(c) => c.get_flags(),
            StoredVar::Long(c) => c.get_flags(),
            StoredVar::Str(c) => c.get_flags(),
        }
    }

    /// The required permission tier.
    pub fn required_permission(&self) -> (r: PermissionLevel)
        ensures
            r == state_permission(self@),
    {
        match &self.value {
            StoredVar::Bool(c) => c.get_required_permission(),
            StoredVar::Int(c) => c.get_required_permission(),
            StoredVar::Long(c) => c.get_required_permission(),
            StoredVar::Str(c) => c.get_required_permission(),
        }
    }

    /// The current value as text.
    pub fn get_string(&self) -> (r: String)
        ensures
            r@ == state_value_text(self@),
    {
        match &self.value {
            StoredVar::Bool(c) => c.get_string(),
            StoredVar::Int(c) => c.get_string(),
            StoredVar::Long(c) => c.get_string(),
            StoredVar::Str(c) => c.get_string(),
        }
    }

    /// Sets the value from text, as the typed variable does.
    pub fn set_string(&mut self, s: &str) -> (r: bool)
        ensures
            (r, final(self)@) == state_set_string(old(self)@, s@),
    {
        match &mut self.value {
            StoredVar::Bool(c) => c.set_string(s),
            StoredVar::Int(c) => c.set_string(s),
            StoredVar::Long(c) => c.set_string(s),
            StoredVar::Str(c) => c.set_string(s),
        }
    }

    /// The default value as text.
    pub fn default_string(&self) -> (r: String)
        ensures
            r@ == state_default_text(self@),
    {
        match &self.value {
            StoredVar::Bool(c) => c.default_string(),
            StoredVar::Int(c) => c.default_string(),
            StoredVar::Long(c) => c.default_string(),
            StoredVar::Str(c) => c.default_string(),
        }
    }

    /// Restores the default value, unless read-only.
    pub fn reset(&mut self)
        ensures
            final(self)@ == state_reset(old(self)@),
    {
        match &mut self.value {
            StoredVar::Bool(c) => c.reset(),
            StoredVar::Int(c) => c.reset(),
            StoredVar::Long(c) => c.reset(),
            StoredVar::Str(c) => c.reset(),
        }
    }

    /// Whether the value differs from the default.
    pub fn is_modified(&self) -> (r: bool)
        ensures
            r == state_modified(self@),
    {
        match &self.value {
            StoredVar::Bool(c) => c.is_modified(),
            StoredVar::Int(c) => c.is_modified(),
            StoredVar::Long(c) => c.is_modified(),
            StoredVar::Str(c) => c.is_modified(),
        }
    }

    /// The typed variable, if it holds a `T`.
    pub fn downcast_ref<T: ConVarValue>(&self) -> (r: Option<&ConVar<T>>)
        ensures
            match T::unerase(self@) {
                Some(m) => r matches Some(c) && c@ == m,
                None => r is None,
            },
    {
        T::stored_ref(&self.value)
    }

    /// Sets the value to `v` if the variable holds a `T`.
    pub fn set_typed<T: ConVarValue>(&mut self, v: T) -> (r: bool)
        ensures
            match T::unerase(old(self)@) {
                Some(m) => if m.flags.has_bit(crate::convar::READ_ONLY_BIT) {
                    !r && final(self)@ == old(self)@
                } else {
                    r && final(self)@ == T::erase(
                        VarModel { value: T::clamp_spec(v@, m.min, m.max), ..m },
                    )
                },
                None => !r && final(self)@ == old(self)@,
            },
    {
        T::set_stored(&mut self.value, v)
    }
}

/// Abstract state of a registry entry.
pub enum EntryModel {
    Var(VarState),
    Cmd(CmdModel),
}

/// The description of an entry.
pub open spec fn entry_description(e: EntryModel) -> Seq<char> {
    match e {
        EntryModel::Var(st) => state_description(st),
        EntryModel::Cmd(c) => c.description,
    }
}

/// The flags of an entry.
pub open spec fn entry_flags(e: EntryModel) -> ConVarFlags {
    match e {
        EntryModel::Var(st) => state_flags(st),
        EntryModel::Cmd(c) => c.flags,
    }
}

/// The required tier of an entry.
pub open spec fn entry_permission(e: EntryModel) -> PermissionLevel {
    match e {
        EntryModel::Var(st) => state_permission(st),
        EntryModel::Cmd(c) => c.permission,
    }
}

/// An entry of the registry: a variable or a command's metadata.
pub enum ConEntry {
    /// A console variable.
    Var(ConVarMeta),
    /// A console command; its handler is stored separately.
    Cmd(ConCommandMeta),
}

impl View for ConEntry {
    type V = EntryModel;

    open spec fn view(&self) -> EntryModel {
        match self {
            ConEntry::Var(m) => EntryModel::Var(m@),
            ConEntry::Cmd(m) => EntryModel::Cmd(m@),
        }
    }
}

impl ConEntry {
    /// The name.
    pub fn name(&self) -> (r: &str)
        ensures
            r@ == match self@ {
                EntryModel::Var(st) => state_name(st),
                EntryModel::Cmd(c) => c.name,
            },
    {
        match self {
            ConEntry::Var(m) => m.name(),
            ConEntry::Cmd(m) => m.name(),
        }
    }

    /// The description.
    pub fn description(&self) -> (r: &str)
        ensures
            r@ == entry_description(self@),
    {
        match self {
            ConEntry::Var(m) => m.description(),
            ConEntry::Cmd(m) => m.get_description(),
        }
    }

    /// The flags.
    pub fn flags(&self) -> (r: ConVarFlags)
        ensures
            r == entry_flags(self@),
    {
        match self {
            ConEntry::Var(m) => m.flags(),
            ConEntry::Cmd(m) => m.get_flags(),
        }
    }

    /// The required permission tier.
    pub fn required_permission(&self) -> (r: PermissionLevel)
        ensures
            r == entry_permission(self@),
    {
        match self {
            ConEntry::Var(m) => m.required_permission(),
            ConEntry::Cmd(m) => m.get_required_permission(),
        }
    }

    /// Whether this is a variable.
    pub fn is_var(&self) -> (r: bool)
        ensures
            r == self@ is Var,
    {
        match self {
            ConEntry::Var(_) => true,
            ConEntry::Cmd(_) => false,
        }
    }

    /// Whether this is a command.
    pub fn is_cmd(&self) -> (r: bool)
        ensures
            r == self@ is Cmd,
    {
        match self {
            ConEntry::Var(_) => false,
            ConEntry::Cmd(_) => true,
        }
    }
}

/// Which entries a listing keeps.
#[derive(Clone, Copy, PartialEq, Eq, Structural)]
pub enum Selection {
    /// Every entry.
    All,
    /// Variables.
    Vars,
    /// Commands.
    Cmds,
    /// Variables whose value differs from the default.
    ModifiedVars,
    /// Variables flagged `ARCHIVE`.
    ArchiveVars,
    /// Entries not flagged `HIDDEN`.
    Visible,
}

/// Whether `sel` keeps entry `e`.
pub open spec fn selects(sel: Selection, e: EntryModel) -> bool {
    match sel {
        Selection::All => true,
        Selection::Vars => e is Var,
        Selection::Cmds => e is Cmd,
        Selection::ModifiedVars => e matches EntryModel::Var(st) && state_modified(st),
        Selection::ArchiveVars => e matches EntryModel::Var(st) && state_flags(st).has_bit(ARCHIVE_BIT),
        Selection::Visible => !entry_flags(e).has_bit(HIDDEN_BIT),
    }
}

/// `names` lists, each once, exactly the keys of `m` whose entries satisfy `keep`.
pub open spec fn lists_exactly<E>(m: Map<Seq<char>, E>, names: Seq<Seq<char>>, keep: spec_fn(E) -> bool) -> bool {
    &&& forall|a: int| 0 <= a < names.len() ==> m.contains_key(#[trigger] names[a]) && keep(m[names[a]])
    &&& forall|k: Seq<char>| m.contains_key(k) && keep(m[k]) ==> exists|a: int| 0 <= a < names.len() && #[trigger] names[a] == k
    &&& names.no_duplicates()
}

/// The names of a listing.
pub open spec fn names_of<E>(r: Seq<(String, E)>) -> Seq<Seq<char>> {
    r.map_values(|e: (String, E)| e.0@)
}

/// The UTF-8 bytes of a name.
pub open spec fn name_bytes(k: Seq<char>) -> Seq<u8> {
    encode_utf8(k)
}

/// `r` is ranked: each item ranks before or level with the next, by
/// higher score and then by name.
pub open spec fn ranked(r: Seq<(String, &ConEntry, MatchResult)>) -> bool {
    forall|i: int|
        0 <= i < r.len() - 1 ==> ranks_before(
            (#[trigger] r[i]).2.score as int,
            name_bytes(r[i].0@),
            r[i + 1].2.score as int,
            name_bytes(r[i + 1].0@),
        )
}

/// An entry named `k` is found by a fuzzy search for `p`: it is visible and
/// `p` matches its name.
pub open spec fn fuzzy_hit(p: Seq<u8>, k: Seq<char>, e: EntryModel) -> bool {
    selects(Selection::Visible, e) && match_spec(p, name_bytes(k)) is Some
}

/// `f` lists, each once and ranked, the visible entries of `reg` whose
/// names `p` fuzzy-matches, with their match results.
pub open spec fn ranked_hits(reg: Map<Seq<char>, EntryModel>, p: Seq<u8>, f: Seq<(String, &ConEntry, MatchResult)>) -> bool {
    &&& forall|a: int| 0 <= a < f.len() ==> fuzzy_item(reg, p, #[trigger] f[a])
    &&& forall|k: Seq<char>| reg.contains_key(k) && fuzzy_hit(p, k, reg[k]) ==> names_of3(f).contains(k)
    &&& names_of3(f).no_duplicates()
    &&& ranked(f)
}

/// The names of a listing with match results.
pub open spec fn names_of3<E, F>(r: Seq<(String, E, F)>) -> Seq<Seq<char>> {
    r.map_values(|e: (String, E, F)| e.0@)
}

/// An item of a fuzzy search for `p`: a visible entry of `m` with the match
/// result of its name.
pub open spec fn fuzzy_item(m: Map<Seq<char>, EntryModel>, p: Seq<u8>, x: (String, &ConEntry, MatchResult)) -> bool {
    &&& m.contains_key(x.0@)
    &&& fuzzy_hit(p, x.0@, m[x.0@])
    &&& x.1@ == m[x.0@]
    &&& match_spec(p, name_bytes(x.0@)) == Some((x.2.score as int, x.2.indices@))
}

proof fn lemma_insert_contains<A>(s: Seq<A>, pos: int, x: A, y: A)
    requires
        0 <= pos <= s.len(),
    ensures
        s.insert(pos, x).contains(y) == (s.contains(y) || y == x),
{
    let t = s.insert(pos, x);
    if s.contains(y) {
        let a = choose|a: int| 0 <= a < s.len() && s[a] == y;
        if a < pos {
            assert(t[a] == y);
        } else {
            assert(t[a + 1] == y);
        }
    }
    if y == x {
        assert(t[pos] == y);
    }
    if t.contains(y) {
        let a = choose|a: int| 0 <= a < t.len() && t[a] == y;
        if a < pos {
            assert(s[a] == y);
        } else if a > pos {
            assert(s[a - 1] == y);
        }
    }
}

/// Inserting name `vn[i]` into a listing built from `vn[..i]` keeps it a
/// listing of distinct names drawn from `vn[..i + 1]`.
proof fn lemma_names_insert(ns: Seq<Seq<char>>, vn: Seq<Seq<char>>, i: int, pos: int)
    requires
        0 <= i < vn.len(),
        vn.no_duplicates(),
        0 <= pos <= ns.len(),
        forall|a: int| 0 <= a < ns.len() ==> vn.take(i).contains(#[trigger] ns[a]),
        ns.no_duplicates(),
    ensures
        forall|a: int| 0 <= a < ns.len() + 1 ==> vn.take(i + 1).contains(#[trigger] ns.insert(pos, vn[i])[a]),
        ns.insert(pos, vn[i]).no_duplicates(),
        forall|y: Seq<char>| ns.contains(y) ==> #[trigger] ns.insert(pos, vn[i]).contains(y),
        ns.insert(pos, vn[i]).contains(vn[i]),
{
    let x = vn[i];
    let t = ns.insert(pos, x);
    assert forall|a: int| 0 <= a < ns.len() implies ns[a] != x by {
        assert(vn.take(i).contains(ns[a]));
        let j = choose|j: int| 0 <= j < vn.take(i).len() && vn.take(i)[j] == ns[a];
        assert(vn[j] == ns[a]);
    }
    assert forall|y: Seq<char>| vn.take(i).contains(y) implies vn.take(i + 1).contains(y) by {
        let j = choose|j: int| 0 <= j < vn.take(i).len() && vn.take(i)[j] == y;
        assert(vn.take(i + 1)[j] == y);
    }
    assert(vn.take(i + 1)[i] == x);
    assert forall|a: int| 0 <= a < ns.len() + 1 implies vn.take(i + 1).contains(#[trigger] t[a]) by {
        if a < pos {
            assert(t[a] == ns[a]);
        } else if a > pos {
            assert(t[a] == ns[a - 1]);
        }
    }
    assert forall|a: int, b: int| 0 <= a < t.len() && 0 <= b < t.len() && a != b implies t[a] != t[b] by {
        let oa = if a < pos { a } else if a == pos { -1 } else { a - 1 };
        let ob = if b < pos { b } else if b == pos { -1 } else { b - 1 };
        if oa >= 0 {
            assert(t[a] == ns[oa]);
        }
        if ob >= 0 {
            assert(t[b] == ns[ob]);
        }
    }
    assert forall|y: Seq<char>| ns.contains(y) implies #[trigger] t.contains(y) by {
        lemma_insert_contains(ns, pos, x, y);
    }
    lemma_insert_contains(ns, pos, x, x);
}

/// Skipping `vn[i]` keeps a listing drawn from `vn[..i]` one drawn from `vn[..i + 1]`.
proof fn lemma_names_skip(ns: Seq<Seq<char>>, vn: Seq<Seq<char>>, i: int)
    requires
        0 <= i < vn.len(),
        forall|a: int| 0 <= a < ns.len() ==> vn.take(i).contains(#[trigger] ns[a]),
    ensures
        forall|a: int| 0 <= a < ns.len() ==> vn.take(i + 1).contains(#[trigger] ns[a]),
{
    assert forall|a: int| 0 <= a < ns.len() implies vn.take(i + 1).contains(#[trigger] ns[a]) by {
        assert(vn.take(i).contains(ns[a]));
        let j = choose|j: int| 0 <= j < vn.take(i).len() && vn.take(i)[j] == ns[a];
        assert(vn.take(i + 1)[j] == ns[a]);
    }
}

/// Inserts `x` into the ranked list `out` where it belongs, after every item
/// that ranks before or level with it.
fn insert_ranked<'a>(out: &mut Vec<(String, &'a ConEntry, MatchResult)>, x: (String, &'a ConEntry, MatchResult)) -> (pos: usize)
    requires
        ranked(old(out)@),
    ensures
        pos <= old(out)@.len(),
        final(out)@ == old(out)@.insert(pos as int, x),
        ranked(final(out)@),
{
    let mut pos: usize = 0;
    while pos < out.len() && rank_le(out[pos].2.score, out[pos].0.as_str(), x.2.score, x.0.as_str())
        invariant
            pos <= out@.len(),
            pos > 0 ==> ranks_before(
                out@[pos - 1].2.score as int,
                name_bytes(out@[pos - 1].0@),
                x.2.score as int,
                name_bytes(x.0@),
            ),
        decreases out.len() - pos,
    {
        pos = pos + 1;
    }
    proof {
        if pos < out@.len() {
            lemma_lex_total(name_bytes(out@[pos as int].0@), name_bytes(x.0@));
        }
    }
    let ghost o = out@;
    out.insert(pos, x);
    proof {
        assert forall|a: int| 0 <= a < out@.len() - 1 implies ranks_before(
            (#[trigger] out@[a]).2.score as int,
            name_bytes(out@[a].0@),
            out@[a + 1].2.score as int,
            name_bytes(out@[a + 1].0@),
        ) by {
            if a + 1 < pos {
                assert(out@[a] == o[a] && out@[a + 1] == o[a + 1]);
            } else if a + 1 == pos {
                assert(out@[a] == o[a]);
            } else if a == pos {
                assert(out@[a + 1] == o[a]);
            } else {
                assert(out@[a] == o[a - 1] && out@[a + 1] == o[a]);
            }
        }
    }
    pos
}

/// Unicode lower case of a string, as `str::to_lowercase` computes it.
pub uninterp spec fn lower_of(s: Seq<char>) -> Seq<char>;

/// Relies on `str::to_lowercase`: the Unicode lower case of `s`, which
/// depends on the characters of `s` alone.
#[verifier::external_body]
fn to_lower(s: &str) -> (r: String)
    ensures
        r@ == lower_of(s@),
{
    s.to_lowercase()
}

/// `n` occurs in `h` as a contiguous run.
pub open spec fn contains_seq(h: Seq<char>, n: Seq<char>) -> bool {
    exists|i: int| 0 <= i && i + n.len() <= h.len() && #[trigger] h.subrange(i, i + n.len()) == n
}

/// Decides `contains_seq`.
fn contains_chars(h: &Vec<char>, n: &Vec<char>) -> (r: bool)
    ensures
        r == contains_seq(h@, n@),
{
    if n.len() > h.len() {
        return false;
    }
    let hl = h.len();
    let last = hl - n.len();
    let mut i: usize = 0;
    loop
        invariant
            hl == h@.len(),
            i <= last,
            last == h@.len() - n@.len(),
            n@.len() <= h@.len(),
            forall|t: int| 0 <= t < i ==> #[trigger] h@.subrange(t, t + n@.len()) != n@,
        decreases last - i,
    {
        let mut k: usize = 0;
        while k < n.len() && h[i + k] == n[k]
            invariant
                hl == h@.len(),
                i <= last,
                last == h@.len() - n@.len(),
                n@.len() <= h@.len(),
                k <= n@.len(),
                forall|t: int| 0 <= t < k ==> h@[i + t] == n@[t],
            decreases n.len() - k,
        {
            k = k + 1;
        }
        if k == n.len() {
            assert(h@.subrange(i as int, i + n@.len()) =~= n@);
            return true;
        }
        assert(h@.subrange(i as int, i + n@.len())[k as int] != n@[k as int]);
        if i == last {
            return false;
        }
        i = i + 1;
    }
}

/// An entry named `k` is found by a search for `q`: it is visible and `q`
/// occurs, ignoring case, in its name or its description.
pub open spec fn search_hit(q: Seq<char>, k: Seq<char>, e: EntryModel) -> bool {
    selects(Selection::Visible, e) && (contains_seq(lower_of(k), lower_of(q)) || contains_seq(
        lower_of(entry_description(e)),
        lower_of(q),
    ))
}

/// An item of a search for `q`: a matching entry of `m`.
pub open spec fn search_item(m: Map<Seq<char>, EntryModel>, q: Seq<char>, x: (String, &ConEntry, MatchResult)) -> bool {
    &&& m.contains_key(x.0@)
    &&& search_hit(q, x.0@, m[x.0@])
    &&& x.1@ == m[x.0@]
    &&& x.2.score == 0
}

/// An item of a search result: a matching entry of `m`.
pub open spec fn search_pair(m: Map<Seq<char>, EntryModel>, q: Seq<char>, x: (String, &ConEntry)) -> bool {
    &&& m.contains_key(x.0@)
    &&& search_hit(q, x.0@, m[x.0@])
    &&& x.1@ == m[x.0@]
}

/// `r` lists, each once and sorted by name, the visible entries of `reg`
/// whose name or description contains `q`, ignoring case.
pub open spec fn search_result(reg: Map<Seq<char>, EntryModel>, q: Seq<char>, r: Seq<(String, &ConEntry)>) -> bool {
    &&& forall|a: int| 0 <= a < r.len() ==> search_pair(reg, q, #[trigger] r[a])
    &&& forall|k: Seq<char>| reg.contains_key(k) && search_hit(q, k, reg[k]) ==> names_of(r).contains(k)
    &&& names_of(r).no_duplicates()
    &&& forall|i: int|
        0 <= i < r.len() - 1 ==> crate::matcher::lex_le(name_bytes((#[trigger] r[i]).0@), name_bytes(r[i + 1].0@))
}

/// The registry of console variables and command metadata, one namespace.
pub struct ConsoleRegistry {
    entries: Trie<ConEntry>,
}

impl View for ConsoleRegistry {
    type V = Map<Seq<char>, EntryModel>;

    closed spec fn view(&self) -> Map<Seq<char>, EntryModel> {
        Map::new(|k: Seq<char>| self.entries@.contains_key(k), |k: Seq<char>| self.entries@[k]@)
    }
}

impl Default for ConsoleRegistry {
    fn default() -> (r: Self)
        ensures
            r.wf(),
            r@ == Map::<Seq<char>, EntryModel>::empty(),
    {
        ConsoleRegistry::new()
    }
}

impl ConsoleRegistry {
    /// The registry is well formed.
    pub closed spec fn wf(&self) -> bool {
        self.entries.wf()
    }

    /// An empty registry.
    pub fn new() -> (r: Self)
        ensures
            r.wf(),
            r@ == Map::<Seq<char>, EntryModel>::empty(),
    {
        let r = ConsoleRegistry { entries: Trie::new() };
        assert(r@ =~= Map::<Seq<char>, EntryModel>::empty());
        r
    }

    /// Registers `e` under `name`, replacing any entry of that name.
    fn put(&mut self, name: &str, e: ConEntry) -> (r: bool)
        requires
            old(self).wf(),
        ensures
            final(self).wf(),
            r == !old(self)@.contains_key(name@),
            final(self)@ == old(self)@.insert(name@, e@),
    {
        let is_new = !self.entries.contains(name);
        let ghost ev = e@;
        self.entries.insert(name, e);
        assert(self@ =~= old(self)@.insert(name@, ev));
        is_new
    }

    /// Registers a variable, replacing any entry of the same name.
    /// Returns whether the name was new.
    pub fn register_var<T: ConVarValue>(&mut self, cvar: ConVar<T>) -> (r: bool)
        requires
            old(self).wf(),
        ensures
            final(self).wf(),
            (r, final(self)@) == register_var_spec::<T>(old(self)@, cvar@),
    {
        let name = cvar.name().to_owned();
        let meta = ConVarMeta::from_convar(cvar);
        self.put(name.as_str(), ConEntry::Var(meta))
    }

    /// Registers a command's metadata, replacing any entry of the same name.
    /// Returns whether the name was new.
    pub fn register_cmd_meta(&mut self, meta: ConCommandMeta) -> (r: bool)
        requires
            old(self).wf(),
        ensures
            final(self).wf(),
            r == !old(self)@.contains_key(meta@.name),
            final(self)@ == old(self)@.insert(meta@.name, EntryModel::Cmd(meta@)),
    {
        let name = meta.name.clone();
        self.put(name.as_str(), ConEntry::Cmd(meta))
    }

    /// Registers a command's metadata and hands its name and handler back,
    /// for the handler store, with whether the name was new.
    pub fn register_cmd<H>(&mut self, cmd: ConCommand<H>) -> (r: (String, H, bool))
        requires
            old(self).wf(),
        ensures
            final(self).wf(),
            r.0@ == cmd.meta().name,
            r.1 == cmd.handler_spec(),
            r.2 == !old(self)@.contains_key(cmd.meta().name),
            final(self)@ == old(self)@.insert(cmd.meta().name, EntryModel::Cmd(cmd.meta())),
    {
        let (meta, handler) = cmd.split();
        let name = meta.name.clone();
        let is_new = self.put(name.as_str(), ConEntry::Cmd(meta));
        (name, handler, is_new)
    }

    /// The entry named `name`.
    pub fn get_entry(&self, name: &str) -> (r: Option<&ConEntry>)
        requires
            self.wf(),
        ensures
            match self@.get(name@) {
                Some(e) => r matches Some(x) && x@ == e,
                None => r is None,
            },
    {
        self.entries.get(name)
    }

    /// The value of the variable `name`, if it is a variable holding a `T`.
    pub fn get<T: ConVarValue>(&self, name: &str) -> (r: Option<T>)
        requires
            self.wf(),
        ensures
            match self@.get(name@) {
                Some(EntryModel::Var(st)) => match T::unerase(st) {
                    Some(m) => r matches Some(x) && x@ == m.value,
                    None => r is None,
                },
                _ => r is None,
            },
    {
        match self.entries.get(name) {
            Some(ConEntry::Var(meta)) => match meta.downcast_ref::<T>() {
                Some(c) => Some(c.get()),
                None => None,
            },
            _ => None,
        }
    }

    /// The value of the variable `name` as text, if it is a variable.
    pub fn get_string(&self, name: &str) -> (r: Option<String>)
        requires
            self.wf(),
        ensures
            match self@.get(name@) {
                Some(EntryModel::Var(st)) => r matches Some(s) && s@ == state_value_text(st),
                _ => r is None,
            },
    {
        match self.entries.get(name) {
            Some(ConEntry::Var(meta)) => Some(meta.get_string()),
            _ => None,
        }
    }

    /// Sets the variable `name` to `value`. Fails, changing nothing, if no
    /// variable holding a `T` has that name or the variable is read-only.
    pub fn set<T: ConVarValue>(&mut self, name: &str, value: T) -> (r: bool)
        requires
            old(self).wf(),
        ensures
            final(self).wf(),
            match old(self)@.get(name@) {
                Some(EntryModel::Var(st)) => match T::unerase(st) {
                    Some(m) => if m.flags.has_bit(crate::convar::READ_ONLY_BIT) {
                        !r && final(self)@ == old(self)@
                    } else {
                        r && final(self)@ == old(self)@.insert(
                            name@,
                            EntryModel::Var(
                                T::erase(VarModel { value: T::clamp_spec(value@, m.min, m.max), ..m }),
                            ),
                        )
                    },
                    None => !r && final(self)@ == old(self)@,
                },
                _ => !r && final(self)@ == old(self)@,
            },
    {
        match self.entries.remove(name) {
            Some(ConEntry::Var(mut meta)) => {
                let ok = meta.set_typed(value);
                self.entries.insert(name, ConEntry::Var(meta));
                assert(self@ =~= old(self)@.insert(name@, self@[name@]));
                if !ok {
                    assert(self@ =~= old(self)@);
                }
                ok
            },
            Some(e) => {
                self.entries.insert(name, e);
                assert(self@ =~= old(self)@);
                false
            },
            None => {
                assert(self@ =~= old(self)@);
                false
            },
        }
    }

    /// Sets the variable `name` from text. Fails, changing nothing, if no
    /// variable has that name, it is read-only, or the text does not parse.
    pub fn set_string(&mut self, name: &str, value: &str) -> (r: bool)
        requires
            old(self).wf(),
        ensures
            final(self).wf(),
            match old(self)@.get(name@) {
                Some(EntryModel::Var(st)) => {
                    let (ok, st2) = state_set_string(st, value@);
                    r == ok && final(self)@ == if ok {
                        old(self)@.insert(name@, EntryModel::Var(st2))
                    } else {
                        old(self)@
                    }
                },
                _ => !r && final(self)@ == old(self)@,
            },
    {
        match self.entries.remove(name) {
            Some(ConEntry::Var(mut meta)) => {
                let ok = meta.set_string(value);
                self.entries.insert(name, ConEntry::Var(meta));
                assert(self@ =~= old(self)@.insert(name@, self@[name@]));
                if !ok {
                    assert(self@ =~= old(self)@);
                }
                ok
            },
            Some(e) => {
                self.entries.insert(name, e);
                assert(self@ =~= old(self)@);
                false
            },
            None => {
                assert(self@ =~= old(self)@);
                false
            },
        }
    }

    /// Resets the variable `name` to its default (unless read-only).
    /// Returns whether a variable of that name exists.
    pub fn reset(&mut self, name: &str) -> (r: bool)
        requires
            old(self).wf(),
        ensures
            final(self).wf(),
            match old(self)@.get(name@) {
                Some(EntryModel::Var(st)) => r && final(self)@ == old(self)@.insert(
                    name@,
                    EntryModel::Var(state_reset(st)),
                ),
                _ => !r && final(self)@ == old(self)@,
            },
    {
        match self.entries.remove(name) {
            Some(ConEntry::Var(mut meta)) => {
                meta.reset();
                self.entries.insert(name, ConEntry::Var(meta));
                assert(self@ =~= old(self)@.insert(name@, self@[name@]));
                true
            },
            Some(e) => {
                self.entries.insert(name, e);
                assert(self@ =~= old(self)@);
                false
            },
            None => {
                assert(self@ =~= old(self)@);
                false
            },
        }
    }

    /// Whether an entry is named `name`.
    pub fn contains(&self, name: &str) -> (r: bool)
        requires
            self.wf(),
        ensures
            r == self@.contains_key(name@),
    {
        self.entries.contains(name)
    }

    /// The number of entries.
    pub fn len(&self) -> (r: usize)
        requires
            self.wf(),
        ensures
            self@.dom().finite(),
            r == self@.len(),
    {
        assert(self@.dom() =~= self.entries@.dom());
        self.entries.len()
    }

    /// Whether the registry is empty.
    pub fn is_empty(&self) -> (r: bool)
        requires
            self.wf(),
        ensures
            self@.dom().finite(),
            r == (self@.len() == 0),
    {
        assert(self@.dom() =~= self.entries@.dom());
        self.entries.is_empty()
    }

    /// Decides `selects`.
    fn keeps(sel: Selection, e: &ConEntry) -> (r: bool)
        ensures
            r == selects(sel, e@),
    {
        match sel {
            Selection::All => true,
            Selection::Vars => e.is_var(),
            Selection::Cmds => e.is_cmd(),
            Selection::ModifiedVars => match e {
                ConEntry::Var(m) => m.is_modified(),
                ConEntry::Cmd(_) => false,
            },
            Selection::ArchiveVars => match e {
                ConEntry::Var(m) => m.flags().contains(ConVarFlags::archive()),
                ConEntry::Cmd(_) => false,
            },
            Selection::Visible => !e.flags().contains(ConVarFlags::hidden()),
        }
    }

    /// The entries that `sel` keeps, each once, in no particular order.
    pub fn select(&self, sel: Selection) -> (r: Vec<(String, &ConEntry)>)
        requires
            self.wf(),
        ensures
            lists_exactly(self@, names_of(r@), |e: EntryModel| selects(sel, e)),
            forall|a: int| 0 <= a < r@.len() ==> (#[trigger] r@[a]).1@ == self@[r@[a].0@],
    {
        let all = self.entries.iter();
        let mut out: Vec<(String, &ConEntry)> = Vec::new();
        let ghost mut src: Seq<int> = Seq::empty();
        let mut i: usize = 0;
        while i < all.len()
            invariant
                self.wf(),
                i <= all@.len(),
                src.len() == out@.len(),
                forall|a: int| 0 <= a < all@.len() ==> self.entries@.contains_key((#[trigger] all@[a]).0@)
                    && *all@[a].1 == self.entries@[all@[a].0@],
                forall|k: Seq<char>|
                    self.entries@.contains_key(k) ==> exists|a: int| 0 <= a < all@.len() && (#[trigger] all@[a]).0@ == k,
                forall|a: int, b: int| 0 <= a < b < all@.len() ==> (#[trigger] all@[a]).0@ != (#[trigger] all@[b]).0@,
                forall|a: int| 0 <= a < src.len() ==> 0 <= #[trigger] src[a] < i,
                forall|a: int, b: int| 0 <= a < b < src.len() ==> #[trigger] src[a] < #[trigger] src[b],
                forall|a: int|
                    0 <= a < out@.len() ==> (#[trigger] out@[a]).0@ == all@[src[a]].0@ && out@[a].1
                        == all@[src[a]].1 && selects(sel, out@[a].1@),
                forall|n: int|
                    0 <= n < i && selects(sel, (#[trigger] all@[n]).1@) ==> exists|a: int|
                        0 <= a < src.len() && src[a] == n,
            decreases all.len() - i,
        {
            let ghost old_src = src;
            if Self::keeps(sel, all[i].1) {
                out.push((all[i].0.clone(), all[i].1));
                proof {
                    src = src.push(i as int);
                }
            }
            proof {
                assert forall|n: int|
                    0 <= n < i + 1 && selects(sel, (#[trigger] all@[n]).1@) implies exists|a: int|
                    0 <= a < src.len() && src[a] == n by {
                    if n < i {
                        let a = choose|a: int| 0 <= a < old_src.len() && old_src[a] == n;
                        assert(src[a] == old_src[a]);
                    } else {
                        assert(src[src.len() - 1] == n);
                    }
                }
            }
            i = i + 1;
        }
        proof {
            let names = names_of(out@);
            assert forall|a: int| 0 <= a < names.len() implies self@.contains_key(#[trigger] names[a])
                && selects(sel, self@[names[a]]) by {
                assert(names[a] == out@[a].0@);
            }
            assert forall|k: Seq<char>| self@.contains_key(k) && selects(sel, self@[k]) implies exists|a: int|
                0 <= a < names.len() && #[trigger] names[a] == k by {
                let n = choose|n: int| 0 <= n < all@.len() && (#[trigger] all@[n]).0@ == k;
                assert(selects(sel, all@[n].1@));
                let a = choose|a: int| 0 <= a < src.len() && src[a] == n;
                assert(names[a] == out@[a].0@);
            }
            assert forall|a: int, b: int| 0 <= a < names.len() && 0 <= b < names.len() && a != b implies names[a]
                != names[b] by {
                assert(names[a] == out@[a].0@);
                assert(names[b] == out@[b].0@);
                if a < b {
                    assert(src[a] < src[b]);
                } else {
                    assert(src[b] < src[a]);
                }
            }
            assert forall|a: int| 0 <= a < out@.len() implies (#[trigger] out@[a]).1@ == self@[out@[a].0@] by {
                assert(out@[a].0@ == all@[src[a]].0@);
            }
        }
        out
    }

    /// Every entry, each once, in no particular order.
    pub fn iter(&self) -> (r: Vec<(String, &ConEntry)>)
        requires
            self.wf(),
        ensures
            lists_exactly(self@, names_of(r@), |e: EntryModel| true),
            forall|a: int| 0 <= a < r@.len() ==> (#[trigger] r@[a]).1@ == self@[r@[a].0@],
    {
        let r = self.select(Selection::All);
        assert(forall|e: EntryModel| selects(Selection::All, e) == true);
        r
    }

    /// The entries whose names start with `prefix`, each once.
    pub fn prefix_iter(&self, prefix: &str) -> (r: Vec<(String, &ConEntry)>)
        requires
            self.wf(),
        ensures
            forall|a: int|
                0 <= a < r@.len() ==> self@.contains_key((#[trigger] r@[a]).0@) && has_prefix(
                    r@[a].0@,
                    prefix@,
                ) && r@[a].1@ == self@[r@[a].0@],
            forall|k: Seq<char>|
                self@.contains_key(k) && has_prefix(k, prefix@) ==> exists|a: int|
                    0 <= a < r@.len() && (#[trigger] r@[a]).0@ == k,
            forall|a: int, b: int| 0 <= a < b < r@.len() ==> (#[trigger] r@[a]).0@ != (#[trigger] r@[b]).0@,
    {
        self.entries.prefix_iter(prefix)
    }

    /// Turns a listing of variable entries into a listing of variables.
    fn as_vars<'a>(v: Vec<(String, &'a ConEntry)>) -> (r: Vec<(String, &'a ConVarMeta)>)
        requires
            forall|a: int| 0 <= a < v@.len() ==> (#[trigger] v@[a]).1@ is Var,
        ensures
            names_of(r@) == names_of(v@),
            forall|a: int| 0 <= a < r@.len() ==> (#[trigger] v@[a]).1@ == EntryModel::Var(r@[a].1@),
    {
        let mut out: Vec<(String, &'a ConVarMeta)> = Vec::new();
        let mut i: usize = 0;
        while i < v.len()
            invariant
                i <= v@.len(),
                out@.len() == i,
                forall|a: int| 0 <= a < v@.len() ==> (#[trigger] v@[a]).1@ is Var,
                forall|a: int|
                    0 <= a < i ==> (#[trigger] out@[a]).0@ == v@[a].0@ && v@[a].1@ == EntryModel::Var(
                        out@[a].1@,
                    ),
            decreases v.len() - i,
        {
            match v[i].1 {
                ConEntry::Var(m) => {
                    out.push((v[i].0.clone(), m));
                },
                ConEntry::Cmd(_) => {
                    assert(v@[i as int].1@ is Var);
                },
            }
            i = i + 1;
        }
        assert(names_of(out@) =~= names_of(v@));
        out
    }

    /// Turns a listing of command entries into a listing of commands.
    fn as_cmds<'a>(v: Vec<(String, &'a ConEntry)>) -> (r: Vec<(String, &'a ConCommandMeta)>)
        requires
            forall|a: int| 0 <= a < v@.len() ==> (#[trigger] v@[a]).1@ is Cmd,
        ensures
            names_of(r@) == names_of(v@),
            forall|a: int| 0 <= a < r@.len() ==> (#[trigger] v@[a]).1@ == EntryModel::Cmd(r@[a].1@),
    {
        let mut out: Vec<(String, &'a ConCommandMeta)> = Vec::new();
        let mut i: usize = 0;
        while i < v.len()
            invariant
                i <= v@.len(),
                out@.len() == i,
                forall|a: int| 0 <= a < v@.len() ==> (#[trigger] v@[a]).1@ is Cmd,
                forall|a: int|
                    0 <= a < i ==> (#[trigger] out@[a]).0@ == v@[a].0@ && v@[a].1@ == EntryModel::Cmd(
                        out@[a].1@,
                    ),
            decreases v.len() - i,
        {
            match v[i].1 {
                ConEntry::Cmd(m) => {
                    out.push((v[i].0.clone(), m));
                },
                ConEntry::Var(_) => {
                    assert(v@[i as int].1@ is Cmd);
                },
            }
            i = i + 1;
        }
        assert(names_of(out@) =~= names_of(v@));
        out
    }

    /// Every variable, each once, in no particular order.
    pub fn vars(&self) -> (r: Vec<(String, &ConVarMeta)>)
        requires
            self.wf(),
        ensures
            lists_exactly(self@, names_of(r@), |e: EntryModel| selects(Selection::Vars, e)),
            forall|a: int| 0 <= a < r@.len() ==> self@[(#[trigger] r@[a]).0@] == EntryModel::Var(r@[a].1@),
    {
        let v = self.select(Selection::Vars);
        assert forall|a: int| 0 <= a < v@.len() implies (#[trigger] v@[a]).1@ is Var by {
            assert(names_of(v@)[a] == v@[a].0@);
        }
        let r = Self::as_vars(v);
        assert forall|a: int| 0 <= a < r@.len() implies self@[(#[trigger] r@[a]).0@] == EntryModel::Var(r@[a].1@) by {
            assert(names_of(r@)[a] == names_of(v@)[a]);
            assert(v@[a].1@ == EntryModel::Var(r@[a].1@));
        }
        r
    }

    /// Every command, each once, in no particular order.
    pub fn cmds(&self) -> (r: Vec<(String, &ConCommandMeta)>)
        requires
            self.wf(),
        ensures
            lists_exactly(self@, names_of(r@), |e: EntryModel| selects(Selection::Cmds, e)),
            forall|a: int| 0 <= a < r@.len() ==> self@[(#[trigger] r@[a]).0@] == EntryModel::Cmd(r@[a].1@),
    {
        let v = self.select(Selection::Cmds);
        assert forall|a: int| 0 <= a < v@.len() implies (#[trigger] v@[a]).1@ is Cmd by {
            assert(names_of(v@)[a] == v@[a].0@);
        }
        let r = Self::as_cmds(v);
        assert forall|a: int| 0 <= a < r@.len() implies self@[(#[trigger] r@[a]).0@] == EntryModel::Cmd(r@[a].1@) by {
            assert(names_of(r@)[a] == names_of(v@)[a]);
            assert(v@[a].1@ == EntryModel::Cmd(r@[a].1@));
        }
        r
    }

    /// Every variable whose value differs from its default, each once.
    pub fn modified_vars(&self) -> (r: Vec<(String, &ConVarMeta)>)
        requires
            self.wf(),
        ensures
            lists_exactly(self@, names_of(r@), |e: EntryModel| selects(Selection::ModifiedVars, e)),
            forall|a: int| 0 <= a < r@.len() ==> self@[(#[trigger] r@[a]).0@] == EntryModel::Var(r@[a].1@),
    {
        let v = self.select(Selection::ModifiedVars);
        assert forall|a: int| 0 <= a < v@.len() implies (#[trigger] v@[a]).1@ is Var by {
            assert(names_of(v@)[a] == v@[a].0@);
        }
        let r = Self::as_vars(v);
        assert forall|a: int| 0 <= a < r@.len() implies self@[(#[trigger] r@[a]).0@] == EntryModel::Var(r@[a].1@) by {
            assert(names_of(r@)[a] == names_of(v@)[a]);
            assert(v@[a].1@ == EntryModel::Var(r@[a].1@));
        }
        r
    }

    /// Every variable flagged `ARCHIVE`, each once.
    pub fn archive_vars(&self) -> (r: Vec<(String, &ConVarMeta)>)
        requires
            self.wf(),
        ensures
            lists_exactly(self@, names_of(r@), |e: EntryModel| selects(Selection::ArchiveVars, e)),
            forall|a: int| 0 <= a < r@.len() ==> self@[(#[trigger] r@[a]).0@] == EntryModel::Var(r@[a].1@),
    {
        let v = self.select(Selection::ArchiveVars);
        assert forall|a: int| 0 <= a < v@.len() implies (#[trigger] v@[a]).1@ is Var by {
            assert(names_of(v@)[a] == v@[a].0@);
        }
        let r = Self::as_vars(v);
        assert forall|a: int| 0 <= a < r@.len() implies self@[(#[trigger] r@[a]).0@] == EntryModel::Var(r@[a].1@) by {
            assert(names_of(r@)[a] == names_of(v@)[a]);
            assert(v@[a].1@ == EntryModel::Var(r@[a].1@));
        }
        r
    }

    /// The visible entries whose names `pattern` fuzzy-matches, with their
    /// match results, best score first and ties by name.
    pub fn fuzzy_find(&self, pattern: &str) -> (r: Vec<(String, &ConEntry, MatchResult)>)
        requires
            self.wf(),
            pattern.spec_bytes().len() <= MAX_PATTERN_BYTES,
        ensures
            ranked_hits(self@, pattern.spec_bytes(), r@),
    {
        let vis = self.select(Selection::Visible);
        let ghost p = pattern.spec_bytes();
        let ghost vn = names_of(vis@);
        let mut out: Vec<(String, &ConEntry, MatchResult)> = Vec::new();
        let mut i: usize = 0;
        while i < vis.len()
            invariant
                self.wf(),
                p == pattern.spec_bytes(),
                p.len() <= MAX_PATTERN_BYTES,
                vn == names_of(vis@),
                i <= vis@.len(),
                lists_exactly(self@, vn, |e: EntryModel| selects(Selection::Visible, e)),
                forall|a: int| 0 <= a < vis@.len() ==> (#[trigger] vis@[a]).1@ == self@[vis@[a].0@],
                forall|a: int| 0 <= a < out@.len() ==> fuzzy_item(self@, p, #[trigger] out@[a]),
                forall|a: int| 0 <= a < out@.len() ==> vn.take(i as int).contains(#[trigger] names_of3(out@)[a]),
                forall|j: int|
                    0 <= j < i && fuzzy_hit(p, #[trigger] vn[j], self@[vn[j]]) ==> names_of3(out@).contains(vn[j]),
                names_of3(out@).no_duplicates(),
                ranked(out@),
            decreases vis.len() - i,
        {
            let name = &vis[i].0;
            let e = vis[i].1;
            proof {
                assert(vn[i as int] == vis@[i as int].0@);
                assert(self@.contains_key(vn[i as int]));
            }
            let m = subsequence_match(pattern, name.as_str());
            let ghost ns = names_of3(out@);
            let ghost before = out@;
            match m {
                Some(res) => {
                    let pos = insert_ranked(&mut out, (name.clone(), e, res));
                    proof {
                        lemma_names_insert(ns, vn, i as int, pos as int);
                        assert(names_of3(out@) =~= ns.insert(pos as int, vn[i as int]));
                        assert forall|a: int| 0 <= a < out@.len() implies fuzzy_item(self@, p, #[trigger] out@[a]) by {
                            if a > pos {
                                assert(out@[a] == before[a - 1]);
                            }
                        }
                        assert forall|j: int|
                            0 <= j < i + 1 && fuzzy_hit(p, #[trigger] vn[j], self@[vn[j]]) implies names_of3(out@).contains(vn[j]) by {
                            if j < i {
                                assert(ns.contains(vn[j]));
                            }
                        }
                    }
                },
                None => {
                    proof {
                        lemma_names_skip(ns, vn, i as int);
                    }
                },
            }
            i = i + 1;
        }
        proof {
            assert forall|k: Seq<char>|
                self@.contains_key(k) && fuzzy_hit(p, k, self@[k]) implies names_of3(out@).contains(k) by {
                let j = choose|j: int| 0 <= j < vn.len() && #[trigger] vn[j] == k;
            }
        }
        out
    }

    /// The visible entries whose name or description contains `query`,
    /// ignoring case, sorted by name.
    pub fn search(&self, query: &str) -> (r: Vec<(String, &ConEntry)>)
        requires
            self.wf(),
        ensures
            search_result(self@, query@, r@),
    {
        let vis = self.select(Selection::Visible);
        let q = to_lower(query);
        let qc = crate::text::chars_of(q.as_str());
        let ghost vn = names_of(vis@);
        let mut out: Vec<(String, &ConEntry, MatchResult)> = Vec::new();
        let mut i: usize = 0;
        while i < vis.len()
            invariant
                self.wf(),
                qc@ == lower_of(query@),
                vn == names_of(vis@),
                i <= vis@.len(),
                lists_exactly(self@, vn, |e: EntryModel| selects(Selection::Visible, e)),
                forall|a: int| 0 <= a < vis@.len() ==> (#[trigger] vis@[a]).1@ == self@[vis@[a].0@],
                forall|a: int| 0 <= a < out@.len() ==> search_item(self@, query@, #[trigger] out@[a]),
                forall|a: int| 0 <= a < out@.len() ==> vn.take(i as int).contains(#[trigger] names_of3(out@)[a]),
                forall|j: int|
                    0 <= j < i && search_hit(query@, #[trigger] vn[j], self@[vn[j]]) ==> names_of3(out@).contains(vn[j]),
                names_of3(out@).no_duplicates(),
                ranked(out@),
            decreases vis.len() - i,
        {
            let name = &vis[i].0;
            let e = vis[i].1;
            proof {
                assert(vn[i as int] == vis@[i as int].0@);
                assert(self@.contains_key(vn[i as int]));
            }
            let lname = crate::text::chars_of(to_lower(name.as_str()).as_str());
            let ldesc = crate::text::chars_of(to_lower(e.description()).as_str());
            let hit = contains_chars(&lname, &qc) || contains_chars(&ldesc, &qc);
            let ghost ns = names_of3(out@);
            let ghost before = out@;
            if hit {
                let pos = insert_ranked(&mut out, (name.clone(), e, MatchResult::new(0, Vec::new())));
                proof {
                    lemma_names_insert(ns, vn, i as int, pos as int);
                    assert(names_of3(out@) =~= ns.insert(pos as int, vn[i as int]));
                    assert forall|a: int| 0 <= a < out@.len() implies search_item(self@, query@, #[trigger] out@[a]) by {
                        if a > pos {
                            assert(out@[a] == before[a - 1]);
                        }
                    }
                    assert forall|j: int|
                        0 <= j < i + 1 && search_hit(query@, #[trigger] vn[j], self@[vn[j]]) implies names_of3(out@).contains(vn[j]) by {
                        if j < i {
                            assert(ns.contains(vn[j]));
                        }
                    }
                }
            } else {
                proof {
                    lemma_names_skip(ns, vn, i as int);
                }
            }
            i = i + 1;
        }
        let mut res: Vec<(String, &ConEntry)> = Vec::new();
        let mut k: usize = 0;
        while k < out.len()
            invariant
                k <= out@.len(),
                res@.len() == k,
                forall|a: int| 0 <= a < k ==> (#[trigger] res@[a]).0@ == out@[a].0@ && res@[a].1 == out@[a].1,
            decreases out.len() - k,
        {
            res.push((out[k].0.clone(), out[k].1));
            k = k + 1;
        }
        proof {
            assert(names_of(res@) =~= names_of3(out@));
            assert forall|kk: Seq<char>|
                self@.contains_key(kk) && search_hit(query@, kk, self@[kk]) implies names_of(res@).contains(kk) by {
                let j = choose|j: int| 0 <= j < vn.len() && #[trigger] vn[j] == kk;
            }
            assert forall|a: int| 0 <= a < res@.len() implies search_pair(self@, query@, #[trigger] res@[a]) by {
                assert(search_item(self@, query@, out@[a]));
            }
            assert forall|a: int| 0 <= a < res@.len() - 1 implies crate::matcher::lex_le(
                name_bytes((#[trigger] res@[a]).0@),
                name_bytes(res@[a + 1].0@),
            ) by {
                assert(search_item(self@, query@, out@[a]));
                assert(search_item(self@, query@, out@[a + 1]));
            }
        }
        res
    }
}

/// Stores command handlers by name, apart from the registry, so that a
/// running handler may change the registry and the store.
pub struct CommandHandlers<H> {
    handlers: Trie<H>,
}

impl<H> View for CommandHandlers<H> {
    type V = Map<Seq<char>, H>;

    closed spec fn view(&self) -> Map<Seq<char>, H> {
        self.handlers@
    }
}

impl<H> Default for CommandHandlers<H> {
    fn default() -> (r: Self)
        ensures
            r.wf(),
            r@ == Map::<Seq<char>, H>::empty(),
    {
        CommandHandlers::new()
    }
}

impl<H> CommandHandlers<H> {
    /// The store is well formed.
    pub closed spec fn wf(&self) -> bool {
        self.handlers.wf()
    }

    /// An empty store.
    pub fn new() -> (r: Self)
        ensures
            r.wf(),
            r@ == Map::<Seq<char>, H>::empty(),
    {
        CommandHandlers { handlers: Trie::new() }
    }

    /// Stores `handler` for `name`, replacing any other.
    pub fn register(&mut self, name: &str, handler: H)
        requires
            old(self).wf(),
        ensures
            final(self).wf(),
            final(self)@ == old(self)@.insert(name@, handler),
    {
        self.handlers.insert(name, handler);
    }

    /// The handler of `name`.
    pub fn get(&self, name: &str) -> (r: Option<&H>)
        requires
            self.wf(),
        ensures
            match self@.get(name@) {
                Some(h) => r matches Some(x) && *x == h,
                None => r is None,
            },
    {
        self.handlers.get(name)
    }

    /// Whether `name` has a handler.
    pub fn contains(&self, name: &str) -> (r: bool)
        requires
            self.wf(),
        ensures
            r == self@.contains_key(name@),
    {
        self.handlers.contains(name)
    }

    /// Removes the handler of `name` for the time it runs; `put` returns it.
    pub fn take(&mut self, name: &str) -> (r: Option<H>)
        requires
            old(self).wf(),
        ensures
            final(self).wf(),
            final(self)@ == old(self)@.remove(name@),
            match old(self)@.get(name@) {
                Some(h) => r == Some(h),
                None => r is None,
            },
    {
        self.handlers.remove(name)
    }

    /// Puts back the handler of `name` after it ran.
    pub fn put(&mut self, name: &str, handler: H)
        requires
            old(self).wf(),
        ensures
            final(self).wf(),
            final(self)@ == old(self)@.insert(name@, handler),
    {
        self.handlers.insert(name, handler);
    }
}

} // verus!

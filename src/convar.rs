//! Console variables: typed values with defaults, bounds, flags and a
//! required permission tier.
use vstd::prelude::*;
use vstd::string::*;

use crate::number::{format_i64, int_decimal, int_in_range, lemma_int_decimal_round_trip, parse_integer};
use crate::permissions::PermissionLevel;
use crate::text::chars_of;

verus! {

/// A set of flags on a console entry, one bit each.
#[derive(Debug, Clone, Copy, PartialEq, Eq, Structural, Default)]
pub struct ConVarFlags(pub u32);

/// Bit of the flag `ARCHIVE`: saved with the persisted configuration.
/// Values are stored in plain text.
pub const ARCHIVE_BIT: u32 = 1;

/// Bit of the flag `CHEAT`: changing or running it needs unsafe mode
/// (`sv_cheats` nonzero).
pub const CHEAT_BIT: u32 = 2;

/// Bit of the flag `READ_ONLY`: the value cannot be changed after creation.
pub const READ_ONLY_BIT: u32 = 4;

/// Bit of the flag `HIDDEN`: left out of listings, search and autocomplete.
pub const HIDDEN_BIT: u32 = 8;

/// Bit of the flag `NOTIFY`: observers are told of changes.
pub const NOTIFY_BIT: u32 = 16;

/// Bit of the flag `DEV_ONLY`: for development only; informational.
pub const DEV_ONLY_BIT: u32 = 32;

impl ConVarFlags {
    /// No flags.
    pub fn none() -> (r: ConVarFlags)
        ensures
            r.0 == 0,
    {
        ConVarFlags(0)
    }

    /// The `ARCHIVE` flag alone.
    pub fn archive() -> (r: ConVarFlags)
        ensures
            r.0 == ARCHIVE_BIT,
    {
        ConVarFlags(ARCHIVE_BIT)
    }

    /// The `CHEAT` flag alone.
    pub fn cheat() -> (r: ConVarFlags)
        ensures
            r.0 == CHEAT_BIT,
    {
        ConVarFlags(CHEAT_BIT)
    }

    /// The `READ_ONLY` flag alone.
    pub fn read_only() -> (r: ConVarFlags)
        ensures
            r.0 == READ_ONLY_BIT,
    {
        ConVarFlags(READ_ONLY_BIT)
    }

    /// The `HIDDEN` flag alone.
    pub fn hidden() -> (r: ConVarFlags)
        ensures
            r.0 == HIDDEN_BIT,
    {
        ConVarFlags(HIDDEN_BIT)
    }

    /// The `NOTIFY` flag alone.
    pub fn notify() -> (r: ConVarFlags)
        ensures
            r.0 == NOTIFY_BIT,
    {
        ConVarFlags(NOTIFY_BIT)
    }

    /// The `DEV_ONLY` flag alone.
    pub fn dev_only() -> (r: ConVarFlags)
        ensures
            r.0 == DEV_ONLY_BIT,
    {
        ConVarFlags(DEV_ONLY_BIT)
    }

    /// The flag with bit `bit` is set.
    pub open spec fn has_bit(self, bit: u32) -> bool {
        self.0 & bit == bit
    }

    /// Every flag of `other` is set in `self`.
    pub open spec fn has(self, other: ConVarFlags) -> bool {
        self.0 & other.0 == other.0
    }

    /// Whether every flag of `other` is set.
    pub fn contains(self, other: ConVarFlags) -> (r: bool)
        ensures
            r == self.has(other),
    {
        (self.0 & other.0) == other.0
    }

    /// The flags of both sets.
    pub fn union(self, other: ConVarFlags) -> (r: ConVarFlags)
        ensures
            r.0 == self.0 | other.0,
    {
        ConVarFlags(self.0 | other.0)
    }

    /// The flags of `self` that are not in `other`.
    pub fn difference(self, other: ConVarFlags) -> (r: ConVarFlags)
        ensures
            r.0 == self.0 & !other.0,
    {
        ConVarFlags(self.0 & !other.0)
    }

    /// Whether no flag is set.
    pub fn is_empty(self) -> (r: bool)
        ensures
            r == (self.0 == 0),
    {
        self.0 == 0
    }
}

impl std::ops::BitOr for ConVarFlags {
    type Output = ConVarFlags;

    fn bitor(self, rhs: ConVarFlags) -> ConVarFlags {
        self.union(rhs)
    }
}

impl vstd::std_specs::ops::BitOrSpecImpl for ConVarFlags {
    open spec fn obeys_bitor_spec() -> bool {
        true
    }

    open spec fn bitor_req(self, rhs: ConVarFlags) -> bool {
        true
    }

    open spec fn bitor_spec(self, rhs: ConVarFlags) -> ConVarFlags {
        ConVarFlags(self.0 | rhs.0)
    }
}

impl std::ops::BitOrAssign for ConVarFlags {
    fn bitor_assign(&mut self, rhs: ConVarFlags) {
        *self = self.union(rhs);
    }
}

/// Abstract state of a console variable whose values are modelled by `V`.
pub struct VarModel<V> {
    pub name: Seq<char>,
    pub value: V,
    pub default: V,
    pub flags: ConVarFlags,
    pub description: Seq<char>,
    pub min: Option<V>,
    pub max: Option<V>,
    pub permission: PermissionLevel,
}

/// The view of an optional value.
pub open spec fn opt_view<T: View>(o: Option<T>) -> Option<T::V> {
    match o {
        Some(x) => Some(x@),
        None => None,
    }
}

/// Saturates `v` into `[min, max]`: raised to `min`, then lowered to `max`.
pub open spec fn clamp_int(v: int, min: Option<int>, max: Option<int>) -> int {
    let a = match min {
        Some(m) => if v < m {
            m
        } else {
            v
        },
        None => v,
    };
    match max {
        Some(m) => if a > m {
            m
        } else {
            a
        },
        None => a,
    }
}

/// `v` lies within whichever bounds are given.
pub open spec fn int_in_bounds(v: int, min: Option<int>, max: Option<int>) -> bool {
    (min matches Some(m) ==> m <= v) && (max matches Some(m) ==> v <= m)
}

/// The bounds, if both are given, are in order.
pub open spec fn int_bounds_ordered(min: Option<int>, max: Option<int>) -> bool {
    match (min, max) {
        (Some(a), Some(b)) => a <= b,
        _ => true,
    }
}

/// Widens an optional `i32` bound.
pub open spec fn widen32(o: Option<i32>) -> Option<int> {
    match o {
        Some(x) => Some(x as int),
        None => None,
    }
}

/// Widens an optional `i64` bound.
pub open spec fn widen64(o: Option<i64>) -> Option<int> {
    match o {
        Some(x) => Some(x as int),
        None => None,
    }
}

/// Saturates `v` into the optional bounds, as `clamp_int`.
pub fn clamp_i64(v: i64, min: Option<i64>, max: Option<i64>) -> (r: i64)
    ensures
        r as int == clamp_int(v as int, widen64(min), widen64(max)),
{
    let mut x = v;
    if let Some(m) = min {
        if x < m {
            x = m;
        }
    }
    if let Some(m) = max {
        if x > m {
            x = m;
        }
    }
    x
}

/// Widens an optional `i32` bound to `i64`.
fn widen_ref32(o: Option<&i32>) -> (r: Option<i64>)
    ensures
        widen64(r) == widen32(opt_view(o)),
{
    match o {
        Some(x) => Some(*x as i64),
        None => None,
    }
}

/// ASCII lower case of a character.
pub open spec fn lower_char(c: char) -> char {
    if 'A' <= c && c <= 'Z' {
        ((c as u32) + 32) as char
    } else {
        c
    }
}

/// `s` in ASCII lower case.
pub open spec fn lowered(s: Seq<char>) -> Seq<char> {
    s.map_values(|c: char| lower_char(c))
}

/// The boolean that `s` names, up to ASCII case: `true`, `1`, `yes`, `on`
/// or `false`, `0`, `no`, `off`.
pub open spec fn bool_value(s: Seq<char>) -> Option<bool> {
    let l = lowered(s);
    if l == seq!['t', 'r', 'u', 'e'] || l == seq!['1'] || l == seq!['y', 'e', 's'] || l == seq![
        'o',
        'n',
    ] {
        Some(true)
    } else if l == seq!['f', 'a', 'l', 's', 'e'] || l == seq!['0'] || l == seq!['n', 'o'] || l
        == seq!['o', 'f', 'f'] {
        Some(false)
    } else {
        None
    }
}

/// Whether `cs`, in ASCII lower case, is `word`.
fn is_word_ic(cs: &Vec<char>, word: &str) -> (r: bool)
    ensures
        r == (lowered(cs@) == word@),
{
    let w = chars_of(word);
    if w.len() != cs.len() {
        return false;
    }
    let mut i: usize = 0;
    while i < cs.len()
        invariant
            w@ == word@,
            w@.len() == cs@.len(),
            i <= cs@.len(),
            forall|k: int| 0 <= k < i ==> lower_char(cs@[k]) == w@[k],
        decreases cs.len() - i,
    {
        let c = cs[i];
        let l = if 'A' <= c && c <= 'Z' {
            char_from_code((c as u32) + 32)
        } else {
            c
        };
        if l != w[i] {
            assert(lowered(cs@)[i as int] != word@[i as int]);
            return false;
        }
        i = i + 1;
    }
    assert(lowered(cs@) =~= word@);
    true
}

/// The character with code `u`, a lower-case ASCII letter.
fn char_from_code(u: u32) -> (c: char)
    requires
        97 <= u <= 122,
    ensures
        c == u as char,
{
    let b = u as u8;
    b as char
}

/// A type whose values a console variable can hold.
pub trait ConVarValue: Sized + View {
    /// The value that text `s` denotes, if any.
    spec fn parse_spec(s: Seq<char>) -> Option<Self::V>;

    /// The text of a value.
    spec fn format_spec(v: Self::V) -> Seq<char>;

    /// A value brought within optional bounds.
    spec fn clamp_spec(v: Self::V, min: Option<Self::V>, max: Option<Self::V>) -> Self::V;

    /// A value lies within optional bounds.
    spec fn in_bounds(v: Self::V, min: Option<Self::V>, max: Option<Self::V>) -> bool;

    /// Optional bounds are in order.
    spec fn bounds_ordered(min: Option<Self::V>, max: Option<Self::V>) -> bool;

    /// Whether bounds apply to the type.
    spec fn bounded() -> bool;

    /// The model of a variable of this type as a tagged state.
    spec fn erase(m: VarModel<Self::V>) -> VarState;

    /// The model of a tagged state, if it holds this type.
    spec fn unerase(st: VarState) -> Option<VarModel<Self::V>>;

    /// Parses a value from text.
    fn parse(s: &str) -> (r: Option<Self>)
        ensures
            match Self::parse_spec(s@) {
                Some(v) => r matches Some(x) && x@ == v,
                None => r is None,
            },
    ;

    /// Formats the value as text.
    fn format(&self) -> (r: String)
        ensures
            r@ == Self::format_spec(self@),
    ;

    /// Brings the value within the bounds, where bounds apply.
    fn clamp(self, min: Option<&Self>, max: Option<&Self>) -> (r: Self)
        ensures
            r@ == Self::clamp_spec(self@, opt_view(min), opt_view(max)),
    ;

    /// Whether bounds apply to the type.
    fn supports_bounds() -> (r: bool)
        ensures
            r == Self::bounded(),
    ;

    /// Whether two values are equal.
    fn same(&self, other: &Self) -> (r: bool)
        ensures
            r == (self@ == other@),
    ;

    /// A copy of the value.
    fn duplicate(&self) -> (r: Self)
        ensures
            r@ == self@,
    ;

    /// Wraps a variable of this type into the tagged store.
    fn into_stored(c: ConVar<Self>) -> (r: StoredVar)
        ensures
            r@ == Self::erase(c@),
    ;

    /// The variable in the tagged store, if it holds this type.
    fn stored_ref(s: &StoredVar) -> (r: Option<&ConVar<Self>>)
        ensures
            match Self::unerase(s@) {
                Some(m) => r matches Some(c) && c@ == m,
                None => r is None,
            },
    ;

    /// Sets the variable in the tagged store, if it holds this type.
    fn set_stored(s: &mut StoredVar, v: Self) -> (r: bool)
        ensures
            match Self::unerase(old(s)@) {
                Some(m) => if m.flags.has_bit(READ_ONLY_BIT) {
                    !r && final(s)@ == old(s)@
                } else {
                    r && final(s)@ == Self::erase(
                        VarModel { value: Self::clamp_spec(v@, m.min, m.max), ..m },
                    )
                },
                None => !r && final(s)@ == old(s)@,
            },
    ;

    /// Formatting a value and parsing the text gives the value back.
    proof fn lemma_round_trip(v: Self::V)
        ensures
            Self::parse_spec(Self::format_spec(v)) == Some(v),
    ;

    /// Clamping into ordered bounds lands within them.
    proof fn lemma_clamp_in_bounds(v: Self::V, min: Option<Self::V>, max: Option<Self::V>)
        requires
            Self::bounds_ordered(min, max),
        ensures
            Self::in_bounds(Self::clamp_spec(v, min, max), min, max),
    ;

    /// Tagging and untagging are inverse.
    proof fn lemma_unerase(m: VarModel<Self::V>)
        ensures
            Self::unerase(Self::erase(m)) == Some(m),
    ;
}

/// Setting `v` on a variable: refused, leaving it unchanged, if it is
/// read-only; otherwise the value becomes `v` clamped to the bounds.
pub open spec fn set_value_spec<T: ConVarValue>(m: VarModel<T::V>, v: T::V) -> (bool, VarModel<T::V>) {
    if m.flags.has_bit(READ_ONLY_BIT) {
        (false, m)
    } else {
        (true, VarModel { value: T::clamp_spec(v, m.min, m.max), ..m })
    }
}

/// Setting a variable from text: refused if the text does not parse,
/// otherwise as `set_value_spec`.
pub open spec fn set_string_spec<T: ConVarValue>(m: VarModel<T::V>, s: Seq<char>) -> (bool, VarModel<T::V>) {
    match T::parse_spec(s) {
        Some(v) => set_value_spec::<T>(m, v),
        None => (false, m),
    }
}

/// Resetting a variable: back to its default, clamped to its bounds, unless
/// it is read-only.
pub open spec fn reset_spec<T: ConVarValue>(m: VarModel<T::V>) -> VarModel<T::V> {
    if m.flags.has_bit(READ_ONLY_BIT) {
        m
    } else {
        VarModel { value: T::clamp_spec(m.default, m.min, m.max), ..m }
    }
}

/// A console variable holding a value of type `T`.
pub struct ConVar<T> {
    name: String,
    value: T,
    default: T,
    flags: ConVarFlags,
    description: String,
    min: Option<T>,
    max: Option<T>,
    required_permission: PermissionLevel,
}

impl<T: View> View for ConVar<T> {
    type V = VarModel<T::V>;

    closed spec fn view(&self) -> VarModel<T::V> {
        VarModel {
            name: self.name@,
            value: self.value@,
            default: self.default@,
            flags: self.flags,
            description: self.description@,
            min: opt_view(self.min),
            max: opt_view(self.max),
            permission: self.required_permission,
        }
    }
}

/// Abstract state of a variable of any supported type, tagged by type.
pub enum VarState {
    Bool(VarModel<bool>),
    Int(VarModel<i32>),
    Long(VarModel<i64>),
    Str(VarModel<Seq<char>>),
}

/// A variable of any supported type, tagged by type.
pub enum StoredVar {
    Bool(ConVar<bool>),
    Int(ConVar<i32>),
    Long(ConVar<i64>),
    Str(ConVar<String>),
}

impl View for StoredVar {
    type V = VarState;

    open spec fn view(&self) -> VarState {
        match self {
            StoredVar::Bool(c) => VarState::Bool(c@),
            StoredVar::Int(c) => VarState::Int(c@),
            StoredVar::Long(c) => VarState::Long(c@),
            StoredVar::Str(c) => VarState::Str(c@),
        }
    }
}

impl ConVarValue for bool {
    open spec fn parse_spec(s: Seq<char>) -> Option<bool> {
        bool_value(s)
    }

    open spec fn format_spec(v: bool) -> Seq<char> {
        if v {
            seq!['1']
        } else {
            seq!['0']
        }
    }

    open spec fn clamp_spec(v: bool, min: Option<bool>, max: Option<bool>) -> bool {
        v
    }

    open spec fn in_bounds(v: bool, min: Option<bool>, max: Option<bool>) -> bool {
        true
    }

    open spec fn bounds_ordered(min: Option<bool>, max: Option<bool>) -> bool {
        true
    }

    open spec fn bounded() -> bool {
        false
    }

    open spec fn erase(m: VarModel<bool>) -> VarState {
        VarState::Bool(m)
    }

    open spec fn unerase(st: VarState) -> Option<VarModel<bool>> {
        match st {
            VarState::Bool(m) => Some(m),
            _ => None,
        }
    }

    fn parse(s: &str) -> (r: Option<bool>) {
        let cs = chars_of(s);
        proof {
            reveal_strlit("true");
            reveal_strlit("1");
            reveal_strlit("yes");
            reveal_strlit("on");
            reveal_strlit("false");
            reveal_strlit("0");
            reveal_strlit("no");
            reveal_strlit("off");
            assert("true"@ =~= seq!['t', 'r', 'u', 'e']);
            assert("1"@ =~= seq!['1']);
            assert("yes"@ =~= seq!['y', 'e', 's']);
            assert("on"@ =~= seq!['o', 'n']);
            assert("false"@ =~= seq!['f', 'a', 'l', 's', 'e']);
            assert("0"@ =~= seq!['0']);
            assert("no"@ =~= seq!['n', 'o']);
            assert("off"@ =~= seq!['o', 'f', 'f']);
        }
        if is_word_ic(&cs, "true") || is_word_ic(&cs, "1") || is_word_ic(&cs, "yes") || is_word_ic(
            &cs,
            "on",
        ) {
            Some(true)
        } else if is_word_ic(&cs, "false") || is_word_ic(&cs, "0") || is_word_ic(&cs, "no")
            || is_word_ic(&cs, "off") {
            Some(false)
        } else {
            None
        }
    }

    fn format(&self) -> (r: String) {
        proof {
            reveal_strlit("1");
            reveal_strlit("0");
        }
        if *self {
            String::from_str("1")
        } else {
            String::from_str("0")
        }
    }

    fn clamp(self, min: Option<&bool>, max: Option<&bool>) -> (r: bool) {
        self
    }

    fn supports_bounds() -> (r: bool) {
        false
    }

    fn same(&self, other: &bool) -> (r: bool) {
        *self == *other
    }

    fn duplicate(&self) -> (r: bool) {
        *self
    }

    fn into_stored(c: ConVar<bool>) -> (r: StoredVar) {
        StoredVar::Bool(c)
    }

    fn stored_ref(s: &StoredVar) -> (r: Option<&ConVar<bool>>) {
        match s {
            StoredVar::Bool(c) => Some(c),
            _ => None,
        }
    }

    fn set_stored(s: &mut StoredVar, v: bool) -> (r: bool) {
        match s {
            StoredVar::Bool(c) => {
                if c.flags.contains(ConVarFlags::read_only()) {
                    false
                } else {
                    c.value = v;
                    true
                }
            },
            _ => false,
        }
    }

    proof fn lemma_round_trip(v: bool) {
        assert(lowered(seq!['1']) =~= seq!['1']);
        assert(lowered(seq!['0']) =~= seq!['0']);
        assert(seq!['0'] != seq!['1']) by {
            assert(seq!['0'][0] != seq!['1'][0]);
        }
    }

    proof fn lemma_clamp_in_bounds(v: bool, min: Option<bool>, max: Option<bool>) {
    }

    proof fn lemma_unerase(m: VarModel<bool>) {
    }
}

impl ConVarValue for i32 {
    open spec fn parse_spec(s: Seq<char>) -> Option<i32> {
        match int_in_range(s, i32::MIN as int, i32::MAX as int) {
            Some(v) => Some(v as i32),
            None => None,
        }
    }

    open spec fn format_spec(v: i32) -> Seq<char> {
        int_decimal(v as int)
    }

    open spec fn clamp_spec(v: i32, min: Option<i32>, max: Option<i32>) -> i32 {
        clamp_int(v as int, widen32(min), widen32(max)) as i32
    }

    open spec fn in_bounds(v: i32, min: Option<i32>, max: Option<i32>) -> bool {
        int_in_bounds(v as int, widen32(min), widen32(max))
    }

    open spec fn bounds_ordered(min: Option<i32>, max: Option<i32>) -> bool {
        int_bounds_ordered(widen32(min), widen32(max))
    }

    open spec fn bounded() -> bool {
        true
    }

    open spec fn erase(m: VarModel<i32>) -> VarState {
        VarState::Int(m)
    }

    open spec fn unerase(st: VarState) -> Option<VarModel<i32>> {
        match st {
            VarState::Int(m) => Some(m),
            _ => None,
        }
    }

    fn parse(s: &str) -> (r: Option<i32>) {
        match parse_integer(s, i32::MIN as i64, i32::MAX as i64) {
            Some(v) => Some(v as i32),
            None => None,
        }
    }

    fn format(&self) -> (r: String) {
        format_i64(*self as i64)
    }

    fn clamp(self, min: Option<&i32>, max: Option<&i32>) -> (r: i32) {
        clamp_i64(self as i64, widen_ref32(min), widen_ref32(max)) as i32
    }

    fn supports_bounds() -> (r: bool) {
        true
    }

    fn same(&self, other: &i32) -> (r: bool) {
        *self == *other
    }

    fn duplicate(&self) -> (r: i32) {
        *self
    }

    fn into_stored(c: ConVar<i32>) -> (r: StoredVar) {
        StoredVar::Int(c)
    }

    fn stored_ref(s: &StoredVar) -> (r: Option<&ConVar<i32>>) {
        match s {
            StoredVar::Int(c) => Some(c),
            _ => None,
        }
    }

    fn set_stored(s: &mut StoredVar, v: i32) -> (r: bool) {
        match s {
            StoredVar::Int(c) => {
                if c.flags.contains(ConVarFlags::read_only()) {
                    false
                } else {
                    c.value = clamp_i64(v as i64, widen_ref32(c.min.as_ref()), widen_ref32(c.max.as_ref())) as i32;
                    true
                }
            },
            _ => false,
        }
    }

    proof fn lemma_round_trip(v: i32) {
        lemma_int_decimal_round_trip(v as int);
    }

    proof fn lemma_clamp_in_bounds(v: i32, min: Option<i32>, max: Option<i32>) {
    }

    proof fn lemma_unerase(m: VarModel<i32>) {
    }
}

impl ConVarValue for i64 {
    open spec fn parse_spec(s: Seq<char>) -> Option<i64> {
        match int_in_range(s, i64::MIN as int, i64::MAX as int) {
            Some(v) => Some(v as i64),
            None => None,
        }
    }

    open spec fn format_spec(v: i64) -> Seq<char> {
        int_decimal(v as int)
    }

    open spec fn clamp_spec(v: i64, min: Option<i64>, max: Option<i64>) -> i64 {
        clamp_int(v as int, widen64(min), widen64(max)) as i64
    }

    open spec fn in_bounds(v: i64, min: Option<i64>, max: Option<i64>) -> bool {
        int_in_bounds(v as int, widen64(min), widen64(max))
    }

    open spec fn bounds_ordered(min: Option<i64>, max: Option<i64>) -> bool {
        int_bounds_ordered(widen64(min), widen64(max))
    }

    open spec fn bounded() -> bool {
        true
    }

    open spec fn erase(m: VarModel<i64>) -> VarState {
        VarState::Long(m)
    }

    open spec fn unerase(st: VarState) -> Option<VarModel<i64>> {
        match st {
            VarState::Long(m) => Some(m),
            _ => None,
        }
    }

    fn parse(s: &str) -> (r: Option<i64>) {
        parse_integer(s, i64::MIN, i64::MAX)
    }

    fn format(&self) -> (r: String) {
        format_i64(*self)
    }

    fn clamp(self, min: Option<&i64>, max: Option<&i64>) -> (r: i64) {
        let lo = match min {
            Some(m) => Some(*m),
            None => None,
        };
        let hi = match max {
            Some(m) => Some(*m),
            None => None,
        };
        clamp_i64(self, lo, hi)
    }

    fn supports_bounds() -> (r: bool) {
        true
    }

    fn same(&self, other: &i64) -> (r: bool) {
        *self == *other
    }

    fn duplicate(&self) -> (r: i64) {
        *self
    }

    fn into_stored(c: ConVar<i64>) -> (r: StoredVar) {
        StoredVar::Long(c)
    }

    fn stored_ref(s: &StoredVar) -> (r: Option<&ConVar<i64>>) {
        match s {
            StoredVar::Long(c) => Some(c),
            _ => None,
        }
    }

    fn set_stored(s: &mut StoredVar, v: i64) -> (r: bool) {
        match s {
            StoredVar::Long(c) => {
                if c.flags.contains(ConVarFlags::read_only()) {
                    false
                } else {
                    c.value = clamp_i64(v, c.min, c.max);
                    true
                }
            },
            _ => false,
        }
    }

    proof fn lemma_round_trip(v: i64) {
        lemma_int_decimal_round_trip(v as int);
    }

    proof fn lemma_clamp_in_bounds(v: i64, min: Option<i64>, max: Option<i64>) {
    }

    proof fn lemma_unerase(m: VarModel<i64>) {
    }
}

impl ConVarValue for String {
    open spec fn parse_spec(s: Seq<char>) -> Option<Seq<char>> {
        Some(s)
    }

    open spec fn format_spec(v: Seq<char>) -> Seq<char> {
        v
    }

    open spec fn clamp_spec(v: Seq<char>, min: Option<Seq<char>>, max: Option<Seq<char>>) -> Seq<char> {
        v
    }

    open spec fn in_bounds(v: Seq<char>, min: Option<Seq<char>>, max: Option<Seq<char>>) -> bool {
        true
    }

    open spec fn bounds_ordered(min: Option<Seq<char>>, max: Option<Seq<char>>) -> bool {
        true
    }

    open spec fn bounded() -> bool {
        false
    }

    open spec fn erase(m: VarModel<Seq<char>>) -> VarState {
        VarState::Str(m)
    }

    open spec fn unerase(st: VarState) -> Option<VarModel<Seq<char>>> {
        match st {
            VarState::Str(m) => Some(m),
            _ => None,
        }
    }

    fn parse(s: &str) -> (r: Option<String>) {
        Some(s.to_owned())
    }

    fn format(&self) -> (r: String) {
        self.clone()
    }

    fn clamp(self, min: Option<&String>, max: Option<&String>) -> (r: String) {
        self
    }

    fn supports_bounds() -> (r: bool) {
        false
    }

    fn same(&self, other: &String) -> (r: bool) {
        *self == *other
    }

    fn duplicate(&self) -> (r: String) {
        self.clone()
    }

    fn into_stored(c: ConVar<String>) -> (r: StoredVar) {
        StoredVar::Str(c)
    }

    fn stored_ref(s: &StoredVar) -> (r: Option<&ConVar<String>>) {
        match s {
            StoredVar::Str(c) => Some(c),
            _ => None,
        }
    }

    fn set_stored(s: &mut StoredVar, v: String) -> (r: bool) {
        match s {
            StoredVar::Str(c) => {
                if c.flags.contains(ConVarFlags::read_only()) {
                    false
                } else {
                    c.value = v;
                    true
                }
            },
            _ => false,
        }
    }

    proof fn lemma_round_trip(v: Seq<char>) {
    }

    proof fn lemma_clamp_in_bounds(v: Seq<char>, min: Option<Seq<char>>, max: Option<Seq<char>>) {
    }

    proof fn lemma_unerase(m: VarModel<Seq<char>>) {
    }
}

impl<T: ConVarValue> ConVar<T> {
    /// A variable named `name` whose value and default are `default`, with no
    /// flags, bounds or description, at tier `User`.
    pub fn new(name: &str, default: T) -> (r: Self)
        ensures
            r@ == (VarModel {
                name: name@,
                value: default@,
                default: default@,
                flags: ConVarFlags(0),
                description: Seq::<char>::empty(),
                min: None,
                max: None,
                permission: PermissionLevel::User,
            }),
    {
        let value = default.duplicate();
        ConVar {
            name: name.to_owned(),
            value,
            default,
            flags: ConVarFlags::none(),
            description: String::new(),
            min: None,
            max: None,
            required_permission: PermissionLevel::User,
        }
    }

    /// The variable with description `desc`.
    pub fn description(self, desc: &str) -> (r: Self)
        ensures
            r@ == (VarModel { description: desc@, ..self@ }),
    {
        let mut c = self;
        c.description = desc.to_owned();
        c
    }

    /// The variable with flags `flags`.
    pub fn flags(self, flags: ConVarFlags) -> (r: Self)
        ensures
            r@ == (VarModel { flags: flags, ..self@ }),
    {
        let mut c = self;
        c.flags = flags;
        c
    }

    /// The variable with lower bound `min`; the current value is clamped again.
    pub fn min(self, min: T) -> (r: Self)
        ensures
            r@ == (VarModel {
                min: Some(min@),
                value: T::clamp_spec(self@.value, Some(min@), self@.max),
                ..self@
            }),
    {
        let mut c = self;
        c.min = Some(min);
        let v = c.value.duplicate();
        c.value = v.clamp(c.min.as_ref(), c.max.as_ref());
        c
    }

    /// The variable with upper bound `max`; the current value is clamped again.
    pub fn max(self, max: T) -> (r: Self)
        ensures
            r@ == (VarModel {
                max: Some(max@),
                value: T::clamp_spec(self@.value, self@.min, Some(max@)),
                ..self@
            }),
    {
        let mut c = self;
        c.max = Some(max);
        let v = c.value.duplicate();
        c.value = v.clamp(c.min.as_ref(), c.max.as_ref());
        c
    }

    /// The variable with required tier `level`.
    pub fn permission(self, level: PermissionLevel) -> (r: Self)
        ensures
            r@ == (VarModel { permission: level, ..self@ }),
    {
        let mut c = self;
        c.required_permission = level;
        c
    }

    /// The name.
    pub fn name(&self) -> (r: &str)
        ensures
            r@ == self@.name,
    {
        self.name.as_str()
    }

    /// The current value.
    pub fn get(&self) -> (r: T)
        ensures
            r@ == self@.value,
    {
        self.value.duplicate()
    }

    /// The current value, by reference.
    pub fn get_ref(&self) -> (r: &T)
        ensures
            r@ == self@.value,
    {
        &self.value
    }

    /// Sets the value, clamped to the bounds. Refused (returning `false`,
    /// value unchanged) if the variable is read-only.
    pub fn set(&mut self, value: T) -> (r: bool)
        ensures
            (r, final(self)@) == set_value_spec::<T>(old(self)@, value@),
    {
        if self.flags.contains(ConVarFlags::read_only()) {
            return false;
        }
        self.value = value.clamp(self.min.as_ref(), self.max.as_ref());
        true
    }

    /// The default value.
    pub fn default_value(&self) -> (r: &T)
        ensures
            r@ == self@.default,
    {
        &self.default
    }

    /// Restores the default value, clamped to the bounds, unless the variable
    /// is read-only.
    pub fn reset(&mut self)
        ensures
            final(self)@ == reset_spec::<T>(old(self)@),
    {
        if !self.flags.contains(ConVarFlags::read_only()) {
            let d = self.default.duplicate();
            self.value = d.clamp(self.min.as_ref(), self.max.as_ref());
        }
    }

    /// Whether the value differs from the default.
    pub fn is_modified(&self) -> (r: bool)
        ensures
            r == (self@.value != self@.default),
    {
        !self.value.same(&self.default)
    }

    /// The flags.
    pub fn get_flags(&self) -> (r: ConVarFlags)
        ensures
            r == self@.flags,
    {
        self.flags
    }

    /// The description.
    pub fn get_description(&self) -> (r: &str)
        ensures
            r@ == self@.description,
    {
        self.description.as_str()
    }

    /// Whether a lower or upper bound is set.
    pub fn has_bounds(&self) -> (r: bool)
        ensures
            r == (self@.min is Some || self@.max is Some),
    {
        self.min.is_some() || self.max.is_some()
    }

    /// The required permission tier.
    pub fn get_required_permission(&self) -> (r: PermissionLevel)
        ensures
            r == self@.permission,
    {
        self.required_permission
    }

    /// The current value as text.
    pub fn get_string(&self) -> (r: String)
        ensures
            r@ == T::format_spec(self@.value),
    {
        self.value.format()
    }

    /// Sets the value from text: refused (returning `false`, value
    /// unchanged) if the variable is read-only or the text does not parse.
    pub fn set_string(&mut self, s: &str) -> (r: bool)
        ensures
            (r, final(self)@) == set_string_spec::<T>(old(self)@, s@),
    {
        if self.flags.contains(ConVarFlags::read_only()) {
            return false;
        }
        match T::parse(s) {
            Some(v) => {
                self.value = v.clamp(self.min.as_ref(), self.max.as_ref());
                true
            },
            None => false,
        }
    }

    /// `"name" = "value"`, followed by ` - description` when there is one.
    pub fn display(&self) -> (r: String)
        ensures
            r@ == "\""@ + self@.name + "\" = \""@ + T::format_spec(self@.value) + "\""@ + if self@.description.len() > 0 {
                " - "@ + self@.description
            } else {
                Seq::<char>::empty()
            },
    {
        let mut s = String::from_str("\"");
        s.append(self.name.as_str());
        s.append("\" = \"");
        s.append(self.value.format().as_str());
        s.append("\"");
        if !self.description.as_str().is_empty() {
            s.append(" - ");
            s.append(self.description.as_str());
        }
        s
    }

    /// The default value as text.
    pub fn default_string(&self) -> (r: String)
        ensures
            r@ == T::format_spec(self@.default),
    {
        self.default.format()
    }
}

/// Formatting the value that a text denotes, and parsing the result, gives
/// that value again.
pub proof fn lemma_parse_format_round_trip<T: ConVarValue>(s: Seq<char>)
    requires
        T::parse_spec(s) is Some,
    ensures
        T::parse_spec(T::format_spec(T::parse_spec(s)->Some_0)) == T::parse_spec(s),
{
    T::lemma_round_trip(T::parse_spec(s)->Some_0);
}

/// Setting a variable with ordered bounds, by value or from text, either
/// succeeds with a value within the bounds or fails and leaves the variable
/// unchanged; a read-only variable always refuses. Resetting a variable that
/// is not read-only also lands within the bounds.
pub proof fn lemma_set_respects_bounds<T: ConVarValue>(m: VarModel<T::V>, v: T::V, s: Seq<char>)
    requires
        T::bounds_ordered(m.min, m.max),
    ensures
        set_value_spec::<T>(m, v).0 ==> T::in_bounds(set_value_spec::<T>(m, v).1.value, m.min, m.max),
        !set_value_spec::<T>(m, v).0 ==> set_value_spec::<T>(m, v).1 == m,
        set_string_spec::<T>(m, s).0 ==> T::in_bounds(set_string_spec::<T>(m, s).1.value, m.min, m.max),
        !set_string_spec::<T>(m, s).0 ==> set_string_spec::<T>(m, s).1 == m,
        m.flags.has_bit(READ_ONLY_BIT) ==> set_value_spec::<T>(m, v) == (false, m) && set_string_spec::<T>(m, s)
            == (false, m),
        !m.flags.has_bit(READ_ONLY_BIT) ==> T::in_bounds(reset_spec::<T>(m).value, m.min, m.max),
{
    T::lemma_clamp_in_bounds(v, m.min, m.max);
    T::lemma_clamp_in_bounds(m.default, m.min, m.max);
    if let Some(x) = T::parse_spec(s) {
        T::lemma_clamp_in_bounds(x, m.min, m.max);
    }
}

} // verus!

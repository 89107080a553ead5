//! Mod settings: the `startup`, `runtime-global` and `runtime-per-user`
//! scopes that Factorio stores in `mod-settings.dat`.
//!
//! A file is a nine-byte map version followed by one property tree: a
//! dictionary of the three scopes, each a dictionary from setting name to a
//! wrapper dictionary `{ "value": <value> }`.

use crate::common::property_tree::{
    dict_insert, enc_tree, entry_models, key_absent, key_index, lemma_encode_utf8_len,
    lemma_entry_models, lemma_key_index_bounds, lemma_load_tree, lemma_loaded_tree_wf, lemma_wf_entries_elems,
    load_entries, load_items, load_ptree, load_tree, read_string,
    save_ptree, wf_entries, wf_string, wf_tree, PropertyTree, TreeError, TreeModel,
};
use vstd::prelude::*;

verus! {

/// The three settings scopes.
#[derive(Clone, Copy, Debug, PartialEq, Eq, Hash)]
pub enum ModSettingsScopeName {
    Startup,
    RuntimeGlobal,
    RuntimePerUser,
}

/// The key of a scope in the file.
pub open spec fn scope_name(s: ModSettingsScopeName) -> Seq<char> {
    match s {
        ModSettingsScopeName::Startup => "startup"@,
        ModSettingsScopeName::RuntimeGlobal => "runtime-global"@,
        ModSettingsScopeName::RuntimePerUser => "runtime-per-user"@,
    }
}

impl ModSettingsScopeName {
    /// The key of this scope in the file.
    pub fn as_str(&self) -> (r: &'static str)
        ensures
            r@ == scope_name(*self),
    {
        match self {
            ModSettingsScopeName::Startup => "startup",
            ModSettingsScopeName::RuntimeGlobal => "runtime-global",
            ModSettingsScopeName::RuntimePerUser => "runtime-per-user",
        }
    }
}

/// A setting's value. `Number` and the colour channels hold the bits of an
/// `f64`.
#[derive(Debug)]
pub enum ModSettingsValue {
    String(String),
    Number(u64),
    Int(i64),
    Bool(bool),
    Color { r: u64, g: u64, b: u64, a: u64 },
}

/// The mathematical value of a setting.
pub enum ValueModel {
    Str(Seq<char>),
    Number(u64),
    Int(i64),
    Bool(bool),
    Color(u64, u64, u64, u64),
}

impl View for ModSettingsValue {
    type V = ValueModel;

    open spec fn view(&self) -> ValueModel {
        match self {
            ModSettingsValue::String(s) => ValueModel::Str(s@),
            ModSettingsValue::Number(n) => ValueModel::Number(*n),
            ModSettingsValue::Int(i) => ValueModel::Int(*i),
            ModSettingsValue::Bool(b) => ValueModel::Bool(*b),
            ModSettingsValue::Color { r, g, b, a } => ValueModel::Color(*r, *g, *b, *a),
        }
    }
}

/// The entries of a scope, in order.
pub open spec fn scope_model(v: Seq<(String, ModSettingsValue)>) -> Seq<(Seq<char>, ValueModel)> {
    v.map_values(|e: (String, ModSettingsValue)| (e.0@, e.1@))
}

/// The index of the entry with key `k`, or -1.
pub open spec fn setting_index(s: Seq<(Seq<char>, ValueModel)>, k: Seq<char>) -> int
    decreases s.len(),
{
    if s.len() == 0 {
        -1
    } else if s.last().0 == k {
        s.len() - 1
    } else {
        setting_index(s.drop_last(), k)
    }
}

/// No two entries share a key.
pub open spec fn unique_keys(s: Seq<(Seq<char>, ValueModel)>) -> bool {
    forall|i: int, j: int| 0 <= i < j < s.len() ==> s[i].0 != s[j].0
}

/// The entry for a key, if any.
pub open spec fn lookup(d: Seq<(Seq<char>, TreeModel)>, k: Seq<char>) -> Option<TreeModel> {
    let i = key_index(d, k);
    if i >= 0 {
        Some(d[i].1)
    } else {
        None
    }
}

/// Takes, out of a dictionary, the entries with the given distinct keys.
fn take_keys(d: Vec<(String, PropertyTree)>, names: &Vec<String>) -> (r: Vec<Option<PropertyTree>>)
    requires
        forall|i: int, j: int| 0 <= i < j < names@.len() ==> names@[i]@ != names@[j]@,
    ensures
        r@.len() == names@.len(),
        forall|j: int|
            0 <= j < names@.len() ==> match #[trigger] r@[j] {
                None => lookup(entry_models(d@), names@[j]@) is None,
                Some(t) => lookup(entry_models(d@), names@[j]@) == Some(t.model()),
            },
{
    let ghost orig = entry_models(d@);
    proof {
        lemma_entry_models(d@);
    }
    let mut d = d;
    let mut slots: Vec<Option<PropertyTree>> = Vec::new();
    let mut j: usize = 0;
    while j < names.len()
        invariant
            j <= names@.len(),
            slots@.len() == j,
            forall|m: int| 0 <= m < j ==> #[trigger] slots@[m] is None,
        decreases names@.len() - j,
    {
        slots.push(None);
        j += 1;
    }
    while d.len() > 0
        invariant
            forall|i: int, j: int| 0 <= i < j < names@.len() ==> names@[i]@ != names@[j]@,
            orig.len() >= d@.len(),
            entry_models(d@) == orig.take(d@.len() as int),
            slots@.len() == names@.len(),
            forall|m: int|
                0 <= m < names@.len() ==> match #[trigger] slots@[m] {
                    None => key_index(orig, names@[m]@) == key_index(entry_models(d@), names@[m]@),
                    Some(t) => key_index(orig, names@[m]@) >= d@.len() && orig[key_index(
                        orig,
                        names@[m]@,
                    )].1 == t.model(),
                },
        decreases d@.len(),
    {
        let ghost before = d@;
        let (k, v) = d.pop().unwrap();
        proof {
            lemma_entry_models(before);
            assert(entry_models(d@) == entry_models(before).drop_last());
            assert(orig.take(d@.len() as int) == orig.take(before.len() as int).drop_last());
            assert(entry_models(before).last() == (k@, v.model()));
        }
        let mut m: usize = 0;
        let mut hit: Option<usize> = None;
        while m < names.len()
            invariant
                m <= names@.len(),
                hit matches Some(h) ==> h < names@.len() && names@[h as int]@ == k@,
                hit is None ==> forall|q: int| 0 <= q < m ==> names@[q]@ != k@,
            ensures
                hit matches Some(h) ==> h < names@.len() && names@[h as int]@ == k@,
                hit is None ==> forall|q: int| 0 <= q < names@.len() ==> names@[q]@ != k@,
            decreases names@.len() - m,
        {
            if names[m] == k {
                hit = Some(m);
                break;
            }
            m += 1;
        }
        match hit {
            Some(h) => {
                if slots[h].is_none() {
                    slots.set(h, Some(v));
                }
            },
            None => {},
        }
        proof {
            assert forall|q: int| 0 <= q < names@.len() implies match #[trigger] slots@[q] {
                None => key_index(orig, names@[q]@) == key_index(entry_models(d@), names@[q]@),
                Some(t) => key_index(orig, names@[q]@) >= d@.len() && orig[key_index(
                    orig,
                    names@[q]@,
                )].1 == t.model(),
            } by {
                if hit is Some && hit.unwrap() as int == q {
                } else if names@[q]@ == k@ {
                    assert(hit is Some);
                    let h = hit.unwrap() as int;
                    assert(h != q);
                    if h < q {
                        assert(names@[h]@ != names@[q]@);
                    } else {
                        assert(names@[q]@ != names@[h]@);
                    }
                }
            }
        }
    }
    proof {
        assert forall|q: int| 0 <= q < names@.len() implies match #[trigger] slots@[q] {
            None => lookup(orig, names@[q]@) is None,
            Some(t) => lookup(orig, names@[q]@) == Some(t.model()),
        } by {
            lemma_key_index_bounds(orig, names@[q]@);
        }
    }
    slots
}

// ---------------------------------------------------------------------------
// Reading settings out of a tree
// ---------------------------------------------------------------------------
/// Why a file is not a valid settings file.
#[derive(Debug)]
pub enum SettingsError {
    /// The bytes are not a property tree.
    Tree(TreeError),
    /// The root of the tree is not a dictionary.
    RootNotDictionary,
    /// A scope is missing.
    MissingScope(ModSettingsScopeName),
    /// A scope is not a dictionary.
    ScopeNotDictionary(ModSettingsScopeName),
    /// The wrapper of a setting is not a dictionary.
    WrapperNotDictionary(String),
    /// The wrapper of a setting has no `value`.
    MissingValue(String),
    /// A colour setting lacks the named channel as a number.
    ColorMissingNumber(String, String),
    /// A setting's value has a type that settings cannot hold.
    UnexpectedType(String, PropertyTree),
}

/// The mathematical value of a [`SettingsError`].
pub enum SettingsErrorModel {
    Tree(TreeError),
    RootNotDictionary,
    MissingScope(ModSettingsScopeName),
    ScopeNotDictionary(ModSettingsScopeName),
    WrapperNotDictionary(Seq<char>),
    MissingValue(Seq<char>),
    ColorMissingNumber(Seq<char>, Seq<char>),
    UnexpectedType(Seq<char>, TreeModel),
}

impl SettingsError {
    pub open spec fn model(self) -> SettingsErrorModel {
        match self {
            SettingsError::Tree(e) => SettingsErrorModel::Tree(e),
            SettingsError::RootNotDictionary => SettingsErrorModel::RootNotDictionary,
            SettingsError::MissingScope(s) => SettingsErrorModel::MissingScope(s),
            SettingsError::ScopeNotDictionary(s) => SettingsErrorModel::ScopeNotDictionary(s),
            SettingsError::WrapperNotDictionary(k) => SettingsErrorModel::WrapperNotDictionary(k@),
            SettingsError::MissingValue(k) => SettingsErrorModel::MissingValue(k@),
            SettingsError::ColorMissingNumber(k, c) => SettingsErrorModel::ColorMissingNumber(k@, c@),
            SettingsError::UnexpectedType(k, t) => SettingsErrorModel::UnexpectedType(k@, t.model()),
        }
    }
}

/// A colour channel of a colour setting.
pub open spec fn color_channel(key: Seq<char>, d: Seq<(Seq<char>, TreeModel)>, name: Seq<char>) -> Result<u64, SettingsErrorModel> {
    match lookup(d, name) {
        Some(TreeModel::Number(x)) => Ok(x),
        _ => Err(SettingsErrorModel::ColorMissingNumber(key, name)),
    }
}

/// A colour setting read from its dictionary: channels `r`, `g`, `b`, `a`
/// in that order, the first missing one reported.
pub open spec fn color_value(key: Seq<char>, d: Seq<(Seq<char>, TreeModel)>) -> Result<ValueModel, SettingsErrorModel> {
    match color_channel(key, d, "r"@) {
        Err(e) => Err(e),
        Ok(r) => match color_channel(key, d, "g"@) {
            Err(e) => Err(e),
            Ok(g) => match color_channel(key, d, "b"@) {
                Err(e) => Err(e),
                Ok(b) => match color_channel(key, d, "a"@) {
                    Err(e) => Err(e),
                    Ok(a) => Ok(ValueModel::Color(r, g, b, a)),
                },
            },
        },
    }
}

/// A setting read from its wrapper dictionary.
pub open spec fn setting_value(key: Seq<char>, wrapper: TreeModel) -> Result<ValueModel, SettingsErrorModel> {
    match wrapper {
        TreeModel::Dict(w) => match lookup(w, "value"@) {
            None => Err(SettingsErrorModel::MissingValue(key)),
            Some(element) => match element {
                TreeModel::Str(s) => Ok(ValueModel::Str(s)),
                TreeModel::Number(n) => Ok(ValueModel::Number(n)),
                TreeModel::Signed(i) => Ok(ValueModel::Int(i)),
                TreeModel::Bool(b) => Ok(ValueModel::Bool(b)),
                TreeModel::Dict(d) => color_value(key, d),
                other => Err(SettingsErrorModel::UnexpectedType(key, other)),
            },
        },
        _ => Err(SettingsErrorModel::WrapperNotDictionary(key)),
    }
}

/// A scope read from its dictionary, entry by entry; the first bad entry is
/// reported.
pub open spec fn scope_entries(d: Seq<(Seq<char>, TreeModel)>) -> Result<Seq<(Seq<char>, ValueModel)>, SettingsErrorModel>
    decreases d.len(),
{
    if d.len() == 0 {
        Ok(Seq::empty())
    } else {
        match setting_value(d[0].0, d[0].1) {
            Err(e) => Err(e),
            Ok(v) => match scope_entries(d.skip(1)) {
                Err(e) => Err(e),
                Ok(rest) => Ok(seq![(d[0].0, v)] + rest),
            },
        }
    }
}

/// A scope read out of the root dictionary.
pub open spec fn scope_of_root(root: Seq<(Seq<char>, TreeModel)>, s: ModSettingsScopeName) -> Result<Seq<(Seq<char>, ValueModel)>, SettingsErrorModel> {
    match lookup(root, scope_name(s)) {
        None => Err(SettingsErrorModel::MissingScope(s)),
        Some(TreeModel::Dict(d)) => scope_entries(d),
        Some(_) => Err(SettingsErrorModel::ScopeNotDictionary(s)),
    }
}

/// The three scopes of a settings tree, read in the order `startup`,
/// `runtime-global`, `runtime-per-user`.
pub open spec fn settings_of_tree(t: TreeModel) -> Result<
    (Seq<(Seq<char>, ValueModel)>, Seq<(Seq<char>, ValueModel)>, Seq<(Seq<char>, ValueModel)>),
    SettingsErrorModel,
> {
    match t {
        TreeModel::Dict(root) => match scope_of_root(root, ModSettingsScopeName::Startup) {
            Err(e) => Err(e),
            Ok(st) => match scope_of_root(root, ModSettingsScopeName::RuntimeGlobal) {
                Err(e) => Err(e),
                Ok(rg) => match scope_of_root(root, ModSettingsScopeName::RuntimePerUser) {
                    Err(e) => Err(e),
                    Ok(rp) => Ok((st, rg, rp)),
                },
            },
        },
        _ => Err(SettingsErrorModel::RootNotDictionary),
    }
}

/// A settings file: the nine-byte version and the three scopes.
pub open spec fn settings_of_bytes(b: Seq<u8>) -> Result<
    (Seq<u8>, Seq<(Seq<char>, ValueModel)>, Seq<(Seq<char>, ValueModel)>, Seq<(Seq<char>, ValueModel)>),
    SettingsErrorModel,
> {
    if b.len() < 9 {
        Err(SettingsErrorModel::Tree(TreeError::UnexpectedEof))
    } else {
        match load_tree(b, 9) {
            Err(e) => Err(SettingsErrorModel::Tree(e)),
            Ok((t, _)) => match settings_of_tree(t) {
                Err(e) => Err(e),
                Ok((st, rg, rp)) => Ok((b.take(9), st, rg, rp)),
            },
        }
    }
}

fn owned(s: &str) -> (r: String)
    ensures
        r@ == s@,
{
    s.to_owned()
}

fn take_number(key: &String, slot: Option<PropertyTree>, name: &str) -> (r: Result<u64, SettingsError>)
    ensures
        match r {
            Ok(x) => slot matches Some(PropertyTree::Number(y)) && x == y,
            Err(e) => !(slot matches Some(PropertyTree::Number(_))) && e.model() == SettingsErrorModel::ColorMissingNumber(key@, name@),
        },
{
    match slot {
        Some(PropertyTree::Number(x)) => Ok(x),
        _ => Err(SettingsError::ColorMissingNumber(key.clone(), owned(name))),
    }
}

fn read_setting(key: &String, wrapper: PropertyTree) -> (r: Result<ModSettingsValue, SettingsError>)
    ensures
        match r {
            Ok(v) => setting_value(key@, wrapper.model()) == Ok::<ValueModel, SettingsErrorModel>(v@),
            Err(e) => setting_value(key@, wrapper.model()) == Err::<ValueModel, SettingsErrorModel>(e.model()),
        },
{
    let w = match wrapper {
        PropertyTree::Dictionary(w) => w,
        _ => return Err(SettingsError::WrapperNotDictionary(key.clone())),
    };
    let ghost wm = entry_models(w@);
    let mut names: Vec<String> = Vec::new();
    names.push(owned("value"));
    let mut slots = take_keys(w, &names);
    let element = match slots.pop().unwrap() {
        Some(e) => e,
        None => return Err(SettingsError::MissingValue(key.clone())),
    };
    match element {
        PropertyTree::String(s) => Ok(ModSettingsValue::String(s)),
        PropertyTree::Number(n) => Ok(ModSettingsValue::Number(n)),
        PropertyTree::SignedInteger(i) => Ok(ModSettingsValue::Int(i)),
        PropertyTree::Bool(b) => Ok(ModSettingsValue::Bool(b)),
        PropertyTree::Dictionary(d) => {
            let ghost dm = entry_models(d@);
            let mut channels: Vec<String> = Vec::new();
            channels.push(owned("r"));
            channels.push(owned("g"));
            channels.push(owned("b"));
            channels.push(owned("a"));
            proof {
                reveal_strlit("r");
                reveal_strlit("g");
                reveal_strlit("b");
                reveal_strlit("a");
                assert(channels@[0]@[0] == 'r' && channels@[1]@[0] == 'g');
                assert(channels@[2]@[0] == 'b' && channels@[3]@[0] == 'a');
                assert forall|i: int, j: int| 0 <= i < j < channels@.len() implies channels@[i]@ != channels@[j]@ by {
                    assert(channels@[i]@[0] != channels@[j]@[0]);
                }
            }
            let mut found = take_keys(d, &channels);
            let sa = found.pop().unwrap();
            let sb = found.pop().unwrap();
            let sg = found.pop().unwrap();
            let sr = found.pop().unwrap();
            let r = match take_number(key, sr, "r") {
                Ok(x) => x,
                Err(e) => return Err(e),
            };
            let g = match take_number(key, sg, "g") {
                Ok(x) => x,
                Err(e) => return Err(e),
            };
            let b = match take_number(key, sb, "b") {
                Ok(x) => x,
                Err(e) => return Err(e),
            };
            let a = match take_number(key, sa, "a") {
                Ok(x) => x,
                Err(e) => return Err(e),
            };
            Ok(ModSettingsValue::Color { r, g, b, a })
        },
        other => Err(SettingsError::UnexpectedType(key.clone(), other)),
    }
}


/// A result with `p` put in front of what it holds.
pub open spec fn prefixed(
    p: Seq<(Seq<char>, ValueModel)>,
    r: Result<Seq<(Seq<char>, ValueModel)>, SettingsErrorModel>,
) -> Result<Seq<(Seq<char>, ValueModel)>, SettingsErrorModel> {
    match r {
        Ok(x) => Ok(p + x),
        Err(e) => Err(e),
    }
}

proof fn lemma_scope_model_push(v: Seq<(String, ModSettingsValue)>, e: (String, ModSettingsValue))
    ensures
        scope_model(v.push(e)) == scope_model(v) + seq![(e.0@, e.1@)],
{
    assert(scope_model(v.push(e)) =~= scope_model(v) + seq![(e.0@, e.1@)]);
}

fn read_scope(dict: Vec<(String, PropertyTree)>) -> (r: Result<Vec<(String, ModSettingsValue)>, SettingsError>)
    ensures
        match r {
            Ok(v) => scope_entries(entry_models(dict@)) == Ok::<Seq<(Seq<char>, ValueModel)>, SettingsErrorModel>(scope_model(v@)),
            Err(e) => scope_entries(entry_models(dict@)) == Err::<Seq<(Seq<char>, ValueModel)>, SettingsErrorModel>(e.model()),
        },
{
    let ghost orig = entry_models(dict@);
    let mut d = dict;
    let mut acc: Vec<(String, ModSettingsValue)> = Vec::new();
    proof {
        assert(scope_model(acc@) =~= Seq::<(Seq<char>, ValueModel)>::empty());
        assert(prefixed(scope_model(acc@), scope_entries(orig)) =~= scope_entries(orig)) by {
            match scope_entries(orig) {
                Ok(x) => { assert(Seq::<(Seq<char>, ValueModel)>::empty() + x =~= x); },
                Err(e) => {},
            }
        }
    }
    while d.len() > 0
        invariant
            orig == entry_models(dict@),
            scope_entries(orig) == prefixed(scope_model(acc@), scope_entries(entry_models(d@))),
        decreases d@.len(),
    {
        let ghost before = d@;
        let (k, w) = d.remove(0);
        let ghost cur = entry_models(before);
        proof {
            lemma_entry_models(before);
            lemma_entry_models(d@);
            assert(entry_models(d@) =~= cur.skip(1));
            assert(cur[0] == (k@, w.model()));
        }
        match read_setting(&k, w) {
            Ok(v) => {
                let ghost head = scope_model(acc@);
                proof {
                    lemma_scope_model_push(acc@, (k, v));
                    match scope_entries(cur.skip(1)) {
                        Ok(x) => {
                            assert(head + (seq![(k@, v@)] + x) =~= (head + seq![(k@, v@)]) + x);
                        },
                        Err(e) => {},
                    }
                }
                acc.push((k, v));
            },
            Err(e) => {
                assert(scope_entries(cur) == Err::<Seq<(Seq<char>, ValueModel)>, SettingsErrorModel>(e.model()));
                return Err(e);
            },
        }
    }
    proof {
        assert(scope_model(acc@) + Seq::<(Seq<char>, ValueModel)>::empty() =~= scope_model(acc@));
    }
    Ok(acc)
}

/// The settings of the three scopes, each a list of distinct names with
/// their values.
#[derive(Debug)]
pub struct ModSettingsData {
    startup: Vec<(String, ModSettingsValue)>,
    runtime_global: Vec<(String, ModSettingsValue)>,
    runtime_per_user: Vec<(String, ModSettingsValue)>,
}

/// The three scopes of a [`ModSettingsData`], as sequences of name and value.
pub struct SettingsModel {
    pub startup: Seq<(Seq<char>, ValueModel)>,
    pub runtime_global: Seq<(Seq<char>, ValueModel)>,
    pub runtime_per_user: Seq<(Seq<char>, ValueModel)>,
}

impl SettingsModel {
    /// The entries of one scope.
    pub open spec fn scope(self, s: ModSettingsScopeName) -> Seq<(Seq<char>, ValueModel)> {
        match s {
            ModSettingsScopeName::Startup => self.startup,
            ModSettingsScopeName::RuntimeGlobal => self.runtime_global,
            ModSettingsScopeName::RuntimePerUser => self.runtime_per_user,
        }
    }
}

impl View for ModSettingsData {
    type V = SettingsModel;

    closed spec fn view(&self) -> SettingsModel {
        SettingsModel {
            startup: scope_model(self.startup@),
            runtime_global: scope_model(self.runtime_global@),
            runtime_per_user: scope_model(self.runtime_per_user@),
        }
    }
}

/// The nine bytes of the game version that head a settings file.
#[derive(Debug)]
pub struct MapVersion {
    data: [u8; 9],
}

impl View for MapVersion {
    type V = Seq<u8>;

    closed spec fn view(&self) -> Seq<u8> {
        self.data@
    }
}

impl MapVersion {
    /// The version in the first nine bytes, or `UnexpectedEof` when there
    /// are fewer.
    pub fn from_reader(b: &[u8]) -> (r: Result<MapVersion, TreeError>)
        ensures
            match r {
                Ok(v) => b@.len() >= 9 && v@ == b@.take(9),
                Err(e) => b@.len() < 9 && e == TreeError::UnexpectedEof,
            },
    {
        if b.len() < 9 {
            return Err(TreeError::UnexpectedEof);
        }
        let data = [b[0], b[1], b[2], b[3], b[4], b[5], b[6], b[7], b[8]];
        proof {
            assert(data@ =~= b@.take(9));
        }
        Ok(MapVersion { data })
    }

    /// The nine bytes.
    pub fn to_bytes(&self) -> (r: [u8; 9])
        ensures
            r@ == self@,
    {
        self.data
    }
}

/// A settings file: its version and its settings.
#[derive(Debug)]
pub struct ModSettings {
    version: MapVersion,
    pub settings: ModSettingsData,
}

impl View for ModSettings {
    type V = (Seq<u8>, SettingsModel);

    closed spec fn view(&self) -> (Seq<u8>, SettingsModel) {
        (self.version@, self.settings@)
    }
}

fn read_root(root: Vec<(String, PropertyTree)>) -> (r: Result<ModSettingsData, SettingsError>)
    ensures
        match r {
            Ok(d) => settings_of_tree(TreeModel::Dict(entry_models(root@))) == Ok::<
                (Seq<(Seq<char>, ValueModel)>, Seq<(Seq<char>, ValueModel)>, Seq<(Seq<char>, ValueModel)>),
                SettingsErrorModel,
            >((d@.startup, d@.runtime_global, d@.runtime_per_user)),
            Err(e) => settings_of_tree(TreeModel::Dict(entry_models(root@))) == Err::<
                (Seq<(Seq<char>, ValueModel)>, Seq<(Seq<char>, ValueModel)>, Seq<(Seq<char>, ValueModel)>),
                SettingsErrorModel,
            >(e.model()),
        },
{
    let mut names: Vec<String> = Vec::new();
    names.push(owned(ModSettingsScopeName::Startup.as_str()));
    names.push(owned(ModSettingsScopeName::RuntimeGlobal.as_str()));
    names.push(owned(ModSettingsScopeName::RuntimePerUser.as_str()));
    proof {
        reveal_strlit("startup");
        reveal_strlit("runtime-global");
        reveal_strlit("runtime-per-user");
        assert(names@[0]@.len() == 7 && names@[1]@.len() == 14 && names@[2]@.len() == 16);
    }
    let mut slots = take_keys(root, &names);
    let rp = slots.pop().unwrap();
    let rg = slots.pop().unwrap();
    let st = slots.pop().unwrap();
    let startup = match st {
        None => return Err(SettingsError::MissingScope(ModSettingsScopeName::Startup)),
        Some(PropertyTree::Dictionary(d)) => match read_scope(d) {
            Ok(v) => v,
            Err(e) => return Err(e),
        },
        Some(_) => return Err(SettingsError::ScopeNotDictionary(ModSettingsScopeName::Startup)),
    };
    let runtime_global = match rg {
        None => return Err(SettingsError::MissingScope(ModSettingsScopeName::RuntimeGlobal)),
        Some(PropertyTree::Dictionary(d)) => match read_scope(d) {
            Ok(v) => v,
            Err(e) => return Err(e),
        },
        Some(_) => return Err(SettingsError::ScopeNotDictionary(ModSettingsScopeName::RuntimeGlobal)),
    };
    let runtime_per_user = match rp {
        None => return Err(SettingsError::MissingScope(ModSettingsScopeName::RuntimePerUser)),
        Some(PropertyTree::Dictionary(d)) => match read_scope(d) {
            Ok(v) => v,
            Err(e) => return Err(e),
        },
        Some(_) => return Err(SettingsError::ScopeNotDictionary(ModSettingsScopeName::RuntimePerUser)),
    };
    Ok(ModSettingsData { startup, runtime_global, runtime_per_user })
}

impl ModSettings {
    /// Reads a settings file from its bytes. Bytes after the tree are
    /// ignored.
    pub fn from_reader(b: &[u8]) -> (r: Result<ModSettings, SettingsError>)
        ensures
            match r {
                Ok(m) => settings_of_bytes(b@) == Ok::<
                    (Seq<u8>, Seq<(Seq<char>, ValueModel)>, Seq<(Seq<char>, ValueModel)>, Seq<(Seq<char>, ValueModel)>),
                    SettingsErrorModel,
                >((m@.0, m@.1.startup, m@.1.runtime_global, m@.1.runtime_per_user)),
                Err(e) => settings_of_bytes(b@) == Err::<
                    (Seq<u8>, Seq<(Seq<char>, ValueModel)>, Seq<(Seq<char>, ValueModel)>, Seq<(Seq<char>, ValueModel)>),
                    SettingsErrorModel,
                >(e.model()),
            },
    {
        let version = match MapVersion::from_reader(b) {
            Ok(v) => v,
            Err(e) => return Err(SettingsError::Tree(e)),
        };
        let tree = match load_ptree(b, 9) {
            Ok((t, _)) => t,
            Err(e) => return Err(SettingsError::Tree(e)),
        };
        let root = match tree {
            PropertyTree::Dictionary(d) => d,
            _ => return Err(SettingsError::RootNotDictionary),
        };
        match read_root(root) {
            Ok(settings) => Ok(ModSettings { version, settings }),
            Err(e) => Err(e),
        }
    }
}

// ---------------------------------------------------------------------------
// Writing settings as a tree
// ---------------------------------------------------------------------------
/// The tree of a setting's value: a colour is a dictionary of its four
/// channels `r`, `g`, `b`, `a`.
pub open spec fn value_tree(v: ValueModel) -> TreeModel {
    match v {
        ValueModel::Str(s) => TreeModel::Str(s),
        ValueModel::Number(n) => TreeModel::Number(n),
        ValueModel::Int(i) => TreeModel::Signed(i),
        ValueModel::Bool(b) => TreeModel::Bool(b),
        ValueModel::Color(r, g, b, a) => TreeModel::Dict(
            seq![
                ("r"@, TreeModel::Number(r)),
                ("g"@, TreeModel::Number(g)),
                ("b"@, TreeModel::Number(b)),
                ("a"@, TreeModel::Number(a)),
            ],
        ),
    }
}

/// The wrapper dictionary `{ "value": <value> }` of a setting.
pub open spec fn wrapper_tree(v: ValueModel) -> TreeModel {
    TreeModel::Dict(seq![("value"@, value_tree(v))])
}

/// The dictionary entries of a scope.
pub open spec fn scope_tree_entries(s: Seq<(Seq<char>, ValueModel)>) -> Seq<(Seq<char>, TreeModel)> {
    s.map_values(|e: (Seq<char>, ValueModel)| (e.0, wrapper_tree(e.1)))
}

/// The tree of all settings: a dictionary of the three scopes.
pub open spec fn settings_tree(m: SettingsModel) -> TreeModel {
    TreeModel::Dict(
        seq![
            (scope_name(ModSettingsScopeName::Startup), TreeModel::Dict(scope_tree_entries(m.startup))),
            (scope_name(ModSettingsScopeName::RuntimeGlobal), TreeModel::Dict(scope_tree_entries(m.runtime_global))),
            (scope_name(ModSettingsScopeName::RuntimePerUser), TreeModel::Dict(scope_tree_entries(m.runtime_per_user))),
        ],
    )
}

fn number_entry(name: &str, x: u64) -> (r: (String, PropertyTree))
    ensures
        r.0@ == name@,
        r.1.model() == TreeModel::Number(x),
{
    (owned(name), PropertyTree::Number(x))
}

fn value_to_ptree(v: &ModSettingsValue) -> (r: PropertyTree)
    ensures
        r.model() == value_tree(v@),
{
    match v {
        ModSettingsValue::String(s) => PropertyTree::String(s.clone()),
        ModSettingsValue::Number(n) => PropertyTree::Number(*n),
        ModSettingsValue::Int(i) => PropertyTree::SignedInteger(*i),
        ModSettingsValue::Bool(b) => PropertyTree::Bool(*b),
        ModSettingsValue::Color { r, g, b, a } => {
            let mut d: Vec<(String, PropertyTree)> = Vec::new();
            d.push(number_entry("r", *r));
            d.push(number_entry("g", *g));
            d.push(number_entry("b", *b));
            d.push(number_entry("a", *a));
            proof {
                lemma_entry_models(d@);
                assert(entry_models(d@) =~= seq![
                    ("r"@, TreeModel::Number(*r)),
                    ("g"@, TreeModel::Number(*g)),
                    ("b"@, TreeModel::Number(*b)),
                    ("a"@, TreeModel::Number(*a)),
                ]);
            }
            PropertyTree::Dictionary(d)
        },
    }
}

fn scope_to_ptree(scope: &Vec<(String, ModSettingsValue)>) -> (r: PropertyTree)
    ensures
        r.model() == TreeModel::Dict(scope_tree_entries(scope_model(scope@))),
{
    let mut out: Vec<(String, PropertyTree)> = Vec::new();
    let mut i: usize = 0;
    while i < scope.len()
        invariant
            i <= scope@.len(),
            entry_models(out@) == scope_tree_entries(scope_model(scope@)).take(i as int),
        decreases scope@.len() - i,
    {
        let mut w: Vec<(String, PropertyTree)> = Vec::new();
        w.push((owned("value"), value_to_ptree(&scope[i].1)));
        proof {
            lemma_entry_models(w@);
            assert(entry_models(w@) =~= seq![("value"@, value_tree(scope@[i as int].1@))]);
        }
        let ghost before = out@;
        let entry = (scope[i].0.clone(), PropertyTree::Dictionary(w));
        let ghost e = entry;
        out.push(entry);
        proof {
            let st = scope_tree_entries(scope_model(scope@));
            assert(out@.drop_last() == before);
            assert(out@.last() == e);
            assert(st[i as int] == (scope@[i as int].0@, wrapper_tree(scope@[i as int].1@)));
            assert(e.1.model() == wrapper_tree(scope@[i as int].1@));
            assert(entry_models(out@) == entry_models(before).push((e.0@, e.1.model())));
            assert(entry_models(out@) =~= scope_tree_entries(scope_model(scope@)).take(i + 1));
        }
        i += 1;
    }
    proof {
        assert(scope_tree_entries(scope_model(scope@)).take(i as int) =~= scope_tree_entries(scope_model(scope@)));
    }
    PropertyTree::Dictionary(out)
}

impl ModSettings {
    /// The settings as a property tree.
    pub fn to_ptree(&self) -> (r: PropertyTree)
        ensures
            r.model() == settings_tree(self@.1),
    {
        let mut root: Vec<(String, PropertyTree)> = Vec::new();
        root.push((owned(ModSettingsScopeName::Startup.as_str()), scope_to_ptree(&self.settings.startup)));
        root.push((owned(ModSettingsScopeName::RuntimeGlobal.as_str()), scope_to_ptree(&self.settings.runtime_global)));
        root.push((owned(ModSettingsScopeName::RuntimePerUser.as_str()), scope_to_ptree(&self.settings.runtime_per_user)));
        proof {
            lemma_entry_models(root@);
            assert(entry_models(root@) =~= seq![
                (scope_name(ModSettingsScopeName::Startup), TreeModel::Dict(scope_tree_entries(self@.1.startup))),
                (scope_name(ModSettingsScopeName::RuntimeGlobal), TreeModel::Dict(scope_tree_entries(self@.1.runtime_global))),
                (scope_name(ModSettingsScopeName::RuntimePerUser), TreeModel::Dict(scope_tree_entries(self@.1.runtime_per_user))),
            ]);
        }
        PropertyTree::Dictionary(root)
    }

    /// The bytes of the settings file: the version, then the tree.
    pub fn save_bytes(&self) -> (r: Vec<u8>)
        ensures
            r@ == self@.0 + enc_tree(settings_tree(self@.1)),
    {
        let mut out: Vec<u8> = Vec::new();
        let v = self.version.to_bytes();
        let mut i: usize = 0;
        while i < 9
            invariant
                i <= 9,
                v@.len() == 9,
                out@ == v@.take(i as int),
            decreases 9 - i,
        {
            out.push(v[i]);
            proof {
                assert(out@ =~= v@.take(i + 1));
            }
            i += 1;
        }
        let tree = self.to_ptree();
        let bytes = save_ptree(&tree);
        let ghost before = out@;
        out.append(&mut bytes.clone());
        proof {
            assert(v@.take(9) =~= v@);
        }
        out
    }
}

// ---------------------------------------------------------------------------
// Changing a setting
// ---------------------------------------------------------------------------
/// The value of `k` in a scope: that of its last entry named `k`.
pub open spec fn scope_get(s: Seq<(Seq<char>, ValueModel)>, k: Seq<char>) -> Option<ValueModel> {
    let i = setting_index(s, k);
    if i >= 0 {
        Some(s[i].1)
    } else {
        None
    }
}

/// Settings after `set` changed `k` in scope `sc` to `v`, or removed it
/// when `v` is `None`; the other scopes stay as they were.
pub open spec fn settings_after(m: SettingsModel, sc: ModSettingsScopeName, k: Seq<char>, v: Option<ValueModel>) -> SettingsModel {
    match sc {
        ModSettingsScopeName::Startup => SettingsModel { startup: scope_set(m.startup, k, v), ..m },
        ModSettingsScopeName::RuntimeGlobal => SettingsModel { runtime_global: scope_set(m.runtime_global, k, v), ..m },
        ModSettingsScopeName::RuntimePerUser => SettingsModel { runtime_per_user: scope_set(m.runtime_per_user, k, v), ..m },
    }
}

/// Settings after a series of changes made in order, each a scope, a name
/// and the new value or `None`.
pub open spec fn settings_after_all(
    m: SettingsModel,
    changes: Seq<(ModSettingsScopeName, Seq<char>, Option<ValueModel>)>,
) -> SettingsModel
    decreases changes.len(),
{
    if changes.len() == 0 {
        m
    } else {
        settings_after_all(settings_after(m, changes[0].0, changes[0].1, changes[0].2), changes.skip(1))
    }
}

/// Changes that each name a setting with a non-empty name, names and values
/// within the format's limits, made to a scope with room for one more
/// setting.
pub open spec fn changes_fit(
    m: SettingsModel,
    changes: Seq<(ModSettingsScopeName, Seq<char>, Option<ValueModel>)>,
) -> bool
    decreases changes.len(),
{
    changes.len() > 0 ==> {
        let (sc, k, v) = changes[0];
        &&& m.scope(sc).len() < u32::MAX
        &&& k.len() > 0
        &&& wf_string(k)
        &&& (v matches Some(x) ==> value_wf(x))
        &&& changes_fit(settings_after(m, sc, k, v), changes.skip(1))
    }
}

/// A scope after setting `k` to `v`, or removing it when `v` is `None`: the
/// entry named `k` is replaced in place or removed; a new name goes last.
pub open spec fn scope_set(s: Seq<(Seq<char>, ValueModel)>, k: Seq<char>, v: Option<ValueModel>) -> Seq<(Seq<char>, ValueModel)> {
    let i = setting_index(s, k);
    match v {
        Some(x) => if i >= 0 {
            s.update(i, (k, x))
        } else {
            s.push((k, x))
        },
        None => if i >= 0 {
            s.remove(i)
        } else {
            s
        },
    }
}

/// The view of an optional value.
pub open spec fn opt_view(o: Option<ModSettingsValue>) -> Option<ValueModel> {
    match o {
        Some(v) => Some(v@),
        None => None,
    }
}

proof fn lemma_setting_index(s: Seq<(Seq<char>, ValueModel)>, k: Seq<char>)
    ensures
        -1 <= setting_index(s, k) < s.len(),
        setting_index(s, k) >= 0 ==> s[setting_index(s, k)].0 == k,
        forall|j: int| setting_index(s, k) < j < s.len() ==> #[trigger] s[j].0 != k,
    decreases s.len(),
{
    if s.len() > 0 {
        lemma_setting_index(s.drop_last(), k);
        if s.last().0 != k {
            assert forall|j: int| setting_index(s, k) < j < s.len() implies #[trigger] s[j].0 != k by {
                if j < s.len() - 1 {
                    assert(s[j] == s.drop_last()[j]);
                }
            }
        }
    }
}

fn find_setting(v: &Vec<(String, ModSettingsValue)>, k: &String) -> (r: Option<usize>)
    ensures
        match r {
            Some(i) => i < v@.len() && setting_index(scope_model(v@), k@) == i,
            None => setting_index(scope_model(v@), k@) == -1,
        },
{
    let ghost s = scope_model(v@);
    proof {
        lemma_setting_index(s, k@);
    }
    let mut i: usize = v.len();
    while i > 0
        invariant
            i <= v@.len(),
            s == scope_model(v@),
            -1 <= setting_index(s, k@) < s.len(),
            setting_index(s, k@) >= 0 ==> s[setting_index(s, k@)].0 == k@,
            forall|j: int| setting_index(s, k@) < j < s.len() ==> #[trigger] s[j].0 != k@,
            forall|j: int| i <= j < s.len() ==> #[trigger] s[j].0 != k@,
        decreases i,
    {
        i -= 1;
        if v[i].0 == *k {
            proof {
                assert(s[i as int].0 == k@);
            }
            return Some(i);
        }
        assert(s[i as int].0 != k@);
    }
    None
}

fn set_in_scope(v: &mut Vec<(String, ModSettingsValue)>, k: String, value: Option<ModSettingsValue>) -> (r: Option<ModSettingsValue>)
    ensures
        scope_model(final(v)@) == scope_set(scope_model(old(v)@), k@, opt_view(value)),
        opt_view(r) == scope_get(scope_model(old(v)@), k@),
{
    let ghost s = scope_model(v@);
    proof {
        lemma_setting_index(s, k@);
    }
    match find_setting(v, &k) {
        Some(i) => {
            let old_entry = v.remove(i);
            match value {
                Some(x) => {
                    let ghost xv = x@;
                    v.insert(i, (k, x));
                    proof {
                        assert(scope_model(v@) =~= s.update(i as int, (k@, xv)));
                    }
                },
                None => {
                    proof {
                        assert(scope_model(v@) =~= s.remove(i as int));
                    }
                },
            }
            Some(old_entry.1)
        },
        None => {
            match value {
                Some(x) => {
                    let ghost e = (k, x);
                    v.push((k, x));
                    proof {
                        lemma_scope_model_push(old(v)@, e);
                    }
                },
                None => {},
            }
            None
        },
    }
}

impl ModSettingsData {
    /// The entries of one scope.
    pub fn scope_ref(&self, s: ModSettingsScopeName) -> (r: &Vec<(String, ModSettingsValue)>)
        ensures
            scope_model(r@) == self@.scope(s),
    {
        match s {
            ModSettingsScopeName::Startup => &self.startup,
            ModSettingsScopeName::RuntimeGlobal => &self.runtime_global,
            ModSettingsScopeName::RuntimePerUser => &self.runtime_per_user,
        }
    }
}

impl ModSettings {
    /// Sets `key` in `scope` to `value`, or removes it when `value` is
    /// `None`, and returns the value it had.
    pub fn set(&mut self, scope: ModSettingsScopeName, key: String, value: Option<ModSettingsValue>) -> (r: Option<ModSettingsValue>)
        ensures
            final(self)@.0 == old(self)@.0,
            final(self)@.1.scope(scope) == scope_set(old(self)@.1.scope(scope), key@, opt_view(value)),
            forall|o: ModSettingsScopeName| o != scope ==> #[trigger] final(self)@.1.scope(o) == old(self)@.1.scope(o),
            opt_view(r) == scope_get(old(self)@.1.scope(scope), key@),
            final(self)@.1 == settings_after(old(self)@.1, scope, key@, opt_view(value)),
    {
        match scope {
            ModSettingsScopeName::Startup => set_in_scope(&mut self.settings.startup, key, value),
            ModSettingsScopeName::RuntimeGlobal => set_in_scope(&mut self.settings.runtime_global, key, value),
            ModSettingsScopeName::RuntimePerUser => set_in_scope(&mut self.settings.runtime_per_user, key, value),
        }
    }
}

proof fn lemma_setting_index_last(s: Seq<(Seq<char>, ValueModel)>, k: Seq<char>, j: int)
    requires
        -1 <= j < s.len(),
        j >= 0 ==> s[j].0 == k,
        forall|m: int| j < m < s.len() ==> #[trigger] s[m].0 != k,
    ensures
        setting_index(s, k) == j,
{
    lemma_setting_index(s, k);
    let x = setting_index(s, k);
    if x < j {
        assert(s[j].0 == k);
    } else if x > j {
        assert(s[x].0 == k);
    }
}

/// Setting a name to a value, in any scope: the name then reads as that
/// value and every other name reads as before.
pub proof fn lemma_scope_set_reads(s: Seq<(Seq<char>, ValueModel)>, k: Seq<char>, x: ValueModel, other: Seq<char>)
    ensures
        scope_get(scope_set(s, k, Some(x)), k) == Some(x),
        other != k ==> scope_get(scope_set(s, k, Some(x)), other) == scope_get(s, other),
{
    lemma_setting_index(s, k);
    lemma_setting_index(s, other);
    let n = scope_set(s, k, Some(x));
    let i = setting_index(s, k);
    let o = setting_index(s, other);
    if i >= 0 {
        assert forall|m: int| i < m < n.len() implies #[trigger] n[m].0 != k by {
            assert(n[m] == s[m]);
        }
        lemma_setting_index_last(n, k, i);
        if other != k {
            assert forall|m: int| o < m < n.len() implies #[trigger] n[m].0 != other by {
                if m != i {
                    assert(n[m] == s[m]);
                }
            }
            if o >= 0 {
                assert(o != i);
                assert(n[o] == s[o]);
            }
            lemma_setting_index_last(n, other, o);
        }
    } else {
        assert(n[s.len() as int].0 == k);
        lemma_setting_index_last(n, k, s.len() as int);
        if other != k {
            assert forall|m: int| o < m < n.len() implies #[trigger] n[m].0 != other by {
                if m < s.len() {
                    assert(n[m] == s[m]);
                }
            }
            if o >= 0 {
                assert(n[o] == s[o]);
            }
            lemma_setting_index_last(n, other, o);
        }
    }
}

proof fn lemma_get_at(s: Seq<(Seq<char>, ValueModel)>, k: Seq<char>, j: int)
    requires
        unique_keys(s),
        0 <= j < s.len(),
        s[j].0 == k,
    ensures
        scope_get(s, k) == Some(s[j].1),
{
    lemma_setting_index(s, k);
    let i = setting_index(s, k);
    if i != j {
        if i > j {
            assert(s[j].0 != s[i].0);
        } else {
            assert(s[j].0 != k);
        }
    }
}

proof fn lemma_get_absent(s: Seq<(Seq<char>, ValueModel)>, k: Seq<char>)
    requires
        forall|j: int| 0 <= j < s.len() ==> #[trigger] s[j].0 != k,
    ensures
        scope_get(s, k) is None,
{
    lemma_setting_index(s, k);
    if setting_index(s, k) >= 0 {
        assert(s[setting_index(s, k)].0 != k);
    }
}

/// Setting a name and reading it back gives what was set (nothing, after a
/// removal); every other name keeps its value; names stay distinct.
pub proof fn lemma_scope_set(s: Seq<(Seq<char>, ValueModel)>, k: Seq<char>, v: Option<ValueModel>, other: Seq<char>)
    requires
        unique_keys(s),
    ensures
        unique_keys(scope_set(s, k, v)),
        scope_get(scope_set(s, k, v), k) == v,
        other != k ==> scope_get(scope_set(s, k, v), other) == scope_get(s, other),
{
    lemma_setting_index(s, k);
    let i = setting_index(s, k);
    let n = scope_set(s, k, v);
    if i == -1 {
        assert forall|j: int| 0 <= j < s.len() implies #[trigger] s[j].0 != k by {}
    }
    // Where `other` stands before the change.
    let present = exists|j: int| 0 <= j < s.len() && #[trigger] s[j].0 == other;
    if present {
        let j = choose|j: int| 0 <= j < s.len() && #[trigger] s[j].0 == other;
        lemma_get_at(s, other, j);
    } else {
        lemma_get_absent(s, other);
    }
    match v {
        Some(x) => {
            if i >= 0 {
                assert(n == s.update(i, (k, x)));
                assert forall|a: int, b: int| 0 <= a < b < n.len() implies n[a].0 != n[b].0 by {
                    assert(n[a].0 == s[a].0 && n[b].0 == s[b].0);
                }
                lemma_get_at(n, k, i);
                if other != k {
                    if present {
                        let j = choose|j: int| 0 <= j < s.len() && #[trigger] s[j].0 == other;
                        assert(j != i);
                        lemma_get_at(n, other, j);
                    } else {
                        assert forall|j: int| 0 <= j < n.len() implies #[trigger] n[j].0 != other by {
                            if j != i {
                                assert(n[j] == s[j]);
                            }
                        }
                        lemma_get_absent(n, other);
                    }
                }
            } else {
                assert(n == s.push((k, x)));
                assert forall|a: int, b: int| 0 <= a < b < n.len() implies n[a].0 != n[b].0 by {
                    if b == s.len() {
                        assert(s[a].0 != k);
                    } else {
                        assert(n[a] == s[a] && n[b] == s[b]);
                    }
                }
                lemma_get_at(n, k, s.len() as int);
                if other != k {
                    if present {
                        let j = choose|j: int| 0 <= j < s.len() && #[trigger] s[j].0 == other;
                        assert(n[j] == s[j]);
                        lemma_get_at(n, other, j);
                    } else {
                        assert forall|j: int| 0 <= j < n.len() implies #[trigger] n[j].0 != other by {
                            if j < s.len() {
                                assert(n[j] == s[j]);
                            }
                        }
                        lemma_get_absent(n, other);
                    }
                }
            }
        },
        None => {
            if i >= 0 {
                assert(n == s.remove(i));
                assert forall|a: int, b: int| 0 <= a < b < n.len() implies n[a].0 != n[b].0 by {
                    let a1 = if a < i { a } else { a + 1 };
                    let b1 = if b < i { b } else { b + 1 };
                    assert(n[a] == s[a1] && n[b] == s[b1]);
                }
                assert forall|j: int| 0 <= j < n.len() implies #[trigger] n[j].0 != k by {
                    let j1 = if j < i { j } else { j + 1 };
                    assert(n[j] == s[j1]);
                    if j < i {
                        assert(s[j].0 != s[i].0);
                    } else {
                        assert(s[i].0 != s[j1].0);
                    }
                }
                lemma_get_absent(n, k);
                if other != k {
                    if present {
                        let j = choose|j: int| 0 <= j < s.len() && #[trigger] s[j].0 == other;
                        assert(j != i);
                        let j2 = if j < i { j } else { j - 1 };
                        assert(n[j2] == s[j]);
                        lemma_get_at(n, other, j2);
                    } else {
                        assert forall|j: int| 0 <= j < n.len() implies #[trigger] n[j].0 != other by {
                            let j1 = if j < i { j } else { j + 1 };
                            assert(n[j] == s[j1]);
                        }
                        lemma_get_absent(n, other);
                    }
                }
            } else {
                lemma_get_absent(s, k);
            }
        },
    }
}

// ---------------------------------------------------------------------------
// Saving and reading back
// ---------------------------------------------------------------------------
/// A value that the file format gives back unchanged.
pub open spec fn value_wf(v: ValueModel) -> bool {
    match v {
        ValueModel::Str(s) => wf_string(s),
        _ => true,
    }
}

/// A scope that the file format gives back unchanged: fewer than 2^32
/// settings with distinct, non-empty names, names and values within the
/// format's limits.
pub open spec fn scope_wf(s: Seq<(Seq<char>, ValueModel)>) -> bool {
    &&& s.len() <= u32::MAX
    &&& unique_keys(s)
    &&& forall|i: int|
        0 <= i < s.len() ==> {
            &&& (#[trigger] s[i]).0.len() > 0
            &&& wf_string(s[i].0)
            &&& value_wf(s[i].1)
        }
}

/// Settings that the file format gives back unchanged.
pub open spec fn settings_wf(m: SettingsModel) -> bool {
    &&& scope_wf(m.startup)
    &&& scope_wf(m.runtime_global)
    &&& scope_wf(m.runtime_per_user)
}

/// Dictionary entries with distinct keys.
pub open spec fn distinct_keys(e: Seq<(Seq<char>, TreeModel)>) -> bool {
    forall|i: int, j: int| 0 <= i < j < e.len() ==> e[i].0 != e[j].0
}

proof fn lemma_short_string(s: Seq<char>)
    requires
        s.len() <= 64,
    ensures
        wf_string(s),
{
    lemma_encode_utf8_len(s);
}

proof fn lemma_wf_entries(e: Seq<(Seq<char>, TreeModel)>)
    requires
        distinct_keys(e),
        forall|i: int|
            0 <= i < e.len() ==> {
                &&& (#[trigger] e[i]).0.len() > 0
                &&& wf_string(e[i].0)
                &&& wf_tree(e[i].1)
            },
    ensures
        wf_entries(e),
    decreases e.len(),
{
    if e.len() > 0 {
        let t = e.skip(1);
        assert forall|i: int| 0 <= i < t.len() implies #[trigger] t[i].0 != e[0].0 by {
            assert(t[i] == e[i + 1]);
        }
        assert(key_absent(t, e[0].0));
        assert forall|i: int| 0 <= i < t.len() implies {
            &&& (#[trigger] t[i]).0.len() > 0
            &&& wf_string(t[i].0)
            &&& wf_tree(t[i].1)
        } by {
            assert(t[i] == e[i + 1]);
        }
        assert forall|i: int, j: int| 0 <= i < j < t.len() implies t[i].0 != t[j].0 by {
            assert(t[i] == e[i + 1] && t[j] == e[j + 1]);
        }
        lemma_wf_entries(t);
        assert(e[0] == e[0]);
    }
}

proof fn lemma_lookup_at(e: Seq<(Seq<char>, TreeModel)>, j: int)
    requires
        distinct_keys(e),
        0 <= j < e.len(),
    ensures
        lookup(e, e[j].0) == Some(e[j].1),
{
    lemma_key_index_bounds(e, e[j].0);
    let i = key_index(e, e[j].0);
    if i != j {
        if i > j {
            assert(e[j].0 != e[i].0);
        } else {
            assert(e[j].0 != e[j].0);
        }
    }
}

proof fn lemma_value_tree(key: Seq<char>, v: ValueModel)
    ensures
        setting_value(key, wrapper_tree(v)) == Ok::<ValueModel, SettingsErrorModel>(v),
        value_wf(v) ==> wf_tree(wrapper_tree(v)),
{
    reveal_strlit("value");
    reveal_strlit("r");
    reveal_strlit("g");
    reveal_strlit("b");
    reveal_strlit("a");
    let w = seq![("value"@, value_tree(v))];
    lemma_lookup_at(w, 0);
    lemma_short_string("value"@);
    if let ValueModel::Color(r, g, b, a) = v {
        let d = seq![
            ("r"@, TreeModel::Number(r)),
            ("g"@, TreeModel::Number(g)),
            ("b"@, TreeModel::Number(b)),
            ("a"@, TreeModel::Number(a)),
        ];
        assert forall|i: int, j: int| 0 <= i < j < d.len() implies d[i].0 != d[j].0 by {
            assert(d[i].0[0] != d[j].0[0]);
        }
        lemma_lookup_at(d, 0);
        lemma_lookup_at(d, 1);
        lemma_lookup_at(d, 2);
        lemma_lookup_at(d, 3);
        assert(d[0].0 == "r"@ && d[1].0 == "g"@ && d[2].0 == "b"@ && d[3].0 == "a"@);
        assert forall|i: int| 0 <= i < d.len() implies {
            &&& (#[trigger] d[i]).0.len() > 0
            &&& wf_string(d[i].0)
            &&& wf_tree(d[i].1)
        } by {
            lemma_short_string(d[i].0);
        }
        lemma_wf_entries(d);
    }
    if value_wf(v) {
        assert(wf_tree(value_tree(v)));
        lemma_wf_entries(w);
    }
}

proof fn lemma_scope_tree(s: Seq<(Seq<char>, ValueModel)>)
    ensures
        scope_entries(scope_tree_entries(s)) == Ok::<Seq<(Seq<char>, ValueModel)>, SettingsErrorModel>(s),
    decreases s.len(),
{
    let e = scope_tree_entries(s);
    if s.len() > 0 {
        lemma_value_tree(s[0].0, s[0].1);
        assert(e.skip(1) =~= scope_tree_entries(s.skip(1)));
        lemma_scope_tree(s.skip(1));
        assert(seq![(s[0].0, s[0].1)] + s.skip(1) =~= s);
    } else {
        assert(s =~= Seq::<(Seq<char>, ValueModel)>::empty());
    }
}

proof fn lemma_scope_tree_wf(s: Seq<(Seq<char>, ValueModel)>)
    requires
        scope_wf(s),
    ensures
        wf_tree(TreeModel::Dict(scope_tree_entries(s))),
{
    let e = scope_tree_entries(s);
    assert forall|i: int| 0 <= i < e.len() implies {
        &&& (#[trigger] e[i]).0.len() > 0
        &&& wf_string(e[i].0)
        &&& wf_tree(e[i].1)
    } by {
        lemma_value_tree(s[i].0, s[i].1);
    }
    assert forall|i: int, j: int| 0 <= i < j < e.len() implies e[i].0 != e[j].0 by {
        assert(s[i].0 != s[j].0);
    }
    lemma_wf_entries(e);
}

/// Reading the tree that settings are saved as gives the settings back;
/// for settings within the format's limits that tree is well formed.
proof fn lemma_settings_tree(m: SettingsModel)
    ensures
        settings_of_tree(settings_tree(m)) == Ok::<
            (Seq<(Seq<char>, ValueModel)>, Seq<(Seq<char>, ValueModel)>, Seq<(Seq<char>, ValueModel)>),
            SettingsErrorModel,
        >((m.startup, m.runtime_global, m.runtime_per_user)),
        settings_wf(m) ==> wf_tree(settings_tree(m)),
{
    reveal_strlit("startup");
    reveal_strlit("runtime-global");
    reveal_strlit("runtime-per-user");
    let root = seq![
        (scope_name(ModSettingsScopeName::Startup), TreeModel::Dict(scope_tree_entries(m.startup))),
        (scope_name(ModSettingsScopeName::RuntimeGlobal), TreeModel::Dict(scope_tree_entries(m.runtime_global))),
        (scope_name(ModSettingsScopeName::RuntimePerUser), TreeModel::Dict(scope_tree_entries(m.runtime_per_user))),
    ];
    assert(root[0].0.len() == 7 && root[1].0.len() == 14 && root[2].0.len() == 16);
    assert(distinct_keys(root));
    lemma_lookup_at(root, 0);
    lemma_lookup_at(root, 1);
    lemma_lookup_at(root, 2);
    lemma_scope_tree(m.startup);
    lemma_scope_tree(m.runtime_global);
    lemma_scope_tree(m.runtime_per_user);
    if settings_wf(m) {
        lemma_scope_tree_wf(m.startup);
        lemma_scope_tree_wf(m.runtime_global);
        lemma_scope_tree_wf(m.runtime_per_user);
        assert forall|i: int| 0 <= i < root.len() implies {
            &&& (#[trigger] root[i]).0.len() > 0
            &&& wf_string(root[i].0)
            &&& wf_tree(root[i].1)
        } by {
            lemma_short_string(root[i].0);
        }
        lemma_wf_entries(root);
    }
}

/// Saving settings within the format's limits and reading the bytes back
/// gives the same version and the same settings, whatever bytes follow.
pub proof fn lemma_settings_round_trip(version: Seq<u8>, m: SettingsModel, rest: Seq<u8>)
    requires
        version.len() == 9,
        settings_wf(m),
    ensures
        settings_of_bytes(version + enc_tree(settings_tree(m)) + rest) == Ok::<
            (Seq<u8>, Seq<(Seq<char>, ValueModel)>, Seq<(Seq<char>, ValueModel)>, Seq<(Seq<char>, ValueModel)>),
            SettingsErrorModel,
        >((version, m.startup, m.runtime_global, m.runtime_per_user)),
{
    let t = settings_tree(m);
    let e = enc_tree(t);
    let b = version + e + rest;
    lemma_settings_tree(m);
    assert(b.subrange(9, 9 + e.len() as int) =~= e);
    lemma_load_tree(b, 9, t);
    assert(b.take(9) =~= version);
}

// ---------------------------------------------------------------------------
// Distinct names in what is read
// ---------------------------------------------------------------------------
/// Every dictionary in a tree has distinct keys.
pub open spec fn deep_distinct(t: TreeModel) -> bool
    decreases t,
{
    match t {
        TreeModel::List(items) => deep_distinct_items(items),
        TreeModel::Dict(entries) => distinct_keys(entries) && deep_distinct_entries(entries),
        _ => true,
    }
}

pub open spec fn deep_distinct_items(s: Seq<TreeModel>) -> bool
    decreases s,
{
    s.len() > 0 ==> deep_distinct(s[0]) && deep_distinct_items(s.skip(1))
}

pub open spec fn deep_distinct_entries(s: Seq<(Seq<char>, TreeModel)>) -> bool
    decreases s,
{
    s.len() > 0 ==> deep_distinct(s[0].1) && deep_distinct_entries(s.skip(1))
}

proof fn lemma_deep_items(s: Seq<TreeModel>)
    ensures
        deep_distinct_items(s) <==> forall|i: int| 0 <= i < s.len() ==> deep_distinct(#[trigger] s[i]),
    decreases s.len(),
{
    if s.len() > 0 {
        lemma_deep_items(s.skip(1));
        if forall|i: int| 0 <= i < s.len() ==> deep_distinct(#[trigger] s[i]) {
            assert forall|i: int| 0 <= i < s.skip(1).len() implies deep_distinct(#[trigger] s.skip(1)[i]) by {
                assert(s.skip(1)[i] == s[i + 1]);
            }
        }
        if deep_distinct_items(s) {
            assert forall|i: int| 0 <= i < s.len() implies deep_distinct(#[trigger] s[i]) by {
                if i > 0 {
                    assert(s[i] == s.skip(1)[i - 1]);
                }
            }
        }
    }
}

proof fn lemma_deep_entries(s: Seq<(Seq<char>, TreeModel)>)
    ensures
        deep_distinct_entries(s) <==> forall|i: int| 0 <= i < s.len() ==> deep_distinct(#[trigger] s[i].1),
    decreases s.len(),
{
    if s.len() > 0 {
        lemma_deep_entries(s.skip(1));
        if forall|i: int| 0 <= i < s.len() ==> deep_distinct(#[trigger] s[i].1) {
            assert forall|i: int| 0 <= i < s.skip(1).len() implies deep_distinct(#[trigger] s.skip(1)[i].1) by {
                assert(s.skip(1)[i] == s[i + 1]);
            }
        }
        if deep_distinct_entries(s) {
            assert forall|i: int| 0 <= i < s.len() implies deep_distinct(#[trigger] s[i].1) by {
                if i > 0 {
                    assert(s[i] == s.skip(1)[i - 1]);
                }
            }
        }
    }
}

proof fn lemma_dict_insert_distinct(d: Seq<(Seq<char>, TreeModel)>, k: Seq<char>, v: TreeModel)
    requires
        distinct_keys(d),
        forall|i: int| 0 <= i < d.len() ==> deep_distinct(#[trigger] d[i].1),
        deep_distinct(v),
    ensures
        distinct_keys(dict_insert(d, k, v)),
        forall|i: int| 0 <= i < dict_insert(d, k, v).len() ==> deep_distinct(#[trigger] dict_insert(d, k, v)[i].1),
{
    lemma_key_index_bounds(d, k);
    let n = dict_insert(d, k, v);
    let i = key_index(d, k);
    if i >= 0 {
        assert forall|a: int, b: int| 0 <= a < b < n.len() implies n[a].0 != n[b].0 by {
            assert(n[a].0 == d[a].0 && n[b].0 == d[b].0);
        }
        assert forall|j: int| 0 <= j < n.len() implies deep_distinct(#[trigger] n[j].1) by {
            if j != i {
                assert(n[j] == d[j]);
            }
        }
    } else {
        assert forall|a: int, b: int| 0 <= a < b < n.len() implies n[a].0 != n[b].0 by {
            if b < d.len() {
                assert(n[a] == d[a] && n[b] == d[b]);
            } else {
                assert(n[a] == d[a]);
                assert(d[a].0 != k);
            }
        }
        assert forall|j: int| 0 <= j < n.len() implies deep_distinct(#[trigger] n[j].1) by {
            if j < d.len() {
                assert(n[j] == d[j]);
            }
        }
    }
}

proof fn lemma_load_tree_distinct(b: Seq<u8>, p: int)
    ensures
        load_tree(b, p) matches Ok((t, _)) ==> deep_distinct(t),
    decreases b.len() - p, 0int,
{
    if 0 <= p && p + 2 <= b.len() {
        let t = b[p];
        let q = p + 2;
        if (t == 4 || t == 5) && q + 4 <= b.len() {
            let n = vstd::bytes::spec_u32_from_le_bytes(b.subrange(q, q + 4)) as nat;
            if t == 4 {
                lemma_load_items_distinct(b, q + 4, n, Seq::empty());
                if let Ok((items, _)) = load_items(b, q + 4, n, Seq::empty()) {
                    lemma_deep_items(items);
                }
            } else {
                lemma_load_entries_distinct(b, q + 4, n, Seq::empty());
                if let Ok((entries, _)) = load_entries(b, q + 4, n, Seq::empty()) {
                    lemma_deep_entries(entries);
                }
            }
        }
    }
}

proof fn lemma_load_items_distinct(b: Seq<u8>, p: int, n: nat, acc: Seq<TreeModel>)
    requires
        forall|i: int| 0 <= i < acc.len() ==> deep_distinct(#[trigger] acc[i]),
    ensures
        load_items(b, p, n, acc) matches Ok((items, _)) ==> forall|i: int| 0 <= i < items.len() ==> deep_distinct(#[trigger] items[i]),
    decreases b.len() - p, 1int,
{
    if n > 0 {
        if let Ok((_k, p1)) = read_string(b, p) {
            if p < p1 <= b.len() {
                lemma_load_tree_distinct(b, p1);
                if let Ok((v, p2)) = load_tree(b, p1) {
                    if p1 < p2 <= b.len() {
                        let acc2 = acc.push(v);
                        assert forall|i: int| 0 <= i < acc2.len() implies deep_distinct(#[trigger] acc2[i]) by {
                            if i < acc.len() {
                                assert(acc2[i] == acc[i]);
                            }
                        }
                        lemma_load_items_distinct(b, p2, (n - 1) as nat, acc2);
                    }
                }
            }
        }
    }
}

proof fn lemma_load_entries_distinct(b: Seq<u8>, p: int, n: nat, acc: Seq<(Seq<char>, TreeModel)>)
    requires
        distinct_keys(acc),
        forall|i: int| 0 <= i < acc.len() ==> deep_distinct(#[trigger] acc[i].1),
    ensures
        load_entries(b, p, n, acc) matches Ok((entries, _)) ==> distinct_keys(entries) && forall|i: int|
            0 <= i < entries.len() ==> deep_distinct(#[trigger] entries[i].1),
    decreases b.len() - p, 1int,
{
    if n > 0 {
        if let Ok((k, p1)) = read_string(b, p) {
            if k.len() > 0 && p < p1 <= b.len() {
                lemma_load_tree_distinct(b, p1);
                if let Ok((v, p2)) = load_tree(b, p1) {
                    if p1 < p2 <= b.len() {
                        lemma_dict_insert_distinct(acc, k, v);
                        lemma_load_entries_distinct(b, p2, (n - 1) as nat, dict_insert(acc, k, v));
                    }
                }
            }
        }
    }
}

proof fn lemma_scope_entries_keys(d: Seq<(Seq<char>, TreeModel)>)
    ensures
        scope_entries(d) matches Ok(s) ==> s.len() == d.len() && forall|i: int| 0 <= i < s.len() ==> (#[trigger] s[i]).0 == d[i].0,
    decreases d.len(),
{
    if d.len() > 0 {
        lemma_scope_entries_keys(d.skip(1));
        if let Ok(s) = scope_entries(d) {
            let rest = scope_entries(d.skip(1))->Ok_0;
            assert forall|i: int| 0 <= i < s.len() implies (#[trigger] s[i]).0 == d[i].0 by {
                if i > 0 {
                    assert(s[i] == rest[i - 1]);
                    assert(d.skip(1)[i - 1] == d[i]);
                }
            }
        }
    }
}

proof fn lemma_scope_of_root_distinct(root: Seq<(Seq<char>, TreeModel)>, sc: ModSettingsScopeName)
    requires
        forall|i: int| 0 <= i < root.len() ==> deep_distinct(#[trigger] root[i].1),
    ensures
        scope_of_root(root, sc) matches Ok(s) ==> unique_keys(s),
{
    lemma_key_index_bounds(root, scope_name(sc));
    if let Some(TreeModel::Dict(d)) = lookup(root, scope_name(sc)) {
        let i = key_index(root, scope_name(sc));
        assert(deep_distinct(root[i].1));
        lemma_scope_entries_keys(d);
        if let Ok(s) = scope_entries(d) {
            assert forall|a: int, c: int| 0 <= a < c < s.len() implies s[a].0 != s[c].0 by {
                assert(s[a].0 == d[a].0 && s[c].0 == d[c].0);
            }
        }
    }
}

/// Every scope of a settings file that reads without error names each
/// setting once: dictionaries keep the last of entries with the same key.
pub proof fn lemma_read_settings_distinct(b: Seq<u8>)
    ensures
        settings_of_bytes(b) matches Ok((_, st, rg, rp)) ==> unique_keys(st) && unique_keys(rg) && unique_keys(rp),
{
    if b.len() >= 9 {
        lemma_load_tree_distinct(b, 9);
        if let Ok((TreeModel::Dict(root), _)) = load_tree(b, 9) {
            lemma_deep_entries(root);
            lemma_scope_of_root_distinct(root, ModSettingsScopeName::Startup);
            lemma_scope_of_root_distinct(root, ModSettingsScopeName::RuntimeGlobal);
            lemma_scope_of_root_distinct(root, ModSettingsScopeName::RuntimePerUser);
        }
    }
}

proof fn lemma_scope_entries_values(d: Seq<(Seq<char>, TreeModel)>)
    ensures
        scope_entries(d) matches Ok(s) ==> {
            &&& s.len() == d.len()
            &&& forall|i: int|
                0 <= i < s.len() ==> (#[trigger] s[i]).0 == d[i].0 && setting_value(d[i].0, d[i].1) == Ok::<
                    ValueModel,
                    SettingsErrorModel,
                >(s[i].1)
        },
    decreases d.len(),
{
    if d.len() > 0 {
        lemma_scope_entries_values(d.skip(1));
        if let Ok(s) = scope_entries(d) {
            let rest = scope_entries(d.skip(1))->Ok_0;
            assert forall|i: int| 0 <= i < s.len() implies (#[trigger] s[i]).0 == d[i].0 && setting_value(
                d[i].0,
                d[i].1,
            ) == Ok::<ValueModel, SettingsErrorModel>(s[i].1) by {
                if i > 0 {
                    assert(s[i] == rest[i - 1]);
                    assert(d.skip(1)[i - 1] == d[i]);
                }
            }
        }
    }
}

proof fn lemma_setting_value_wf(key: Seq<char>, w: TreeModel)
    requires
        wf_tree(w),
    ensures
        setting_value(key, w) matches Ok(v) ==> value_wf(v),
{
    if let TreeModel::Dict(e) = w {
        lemma_wf_entries_elems(e);
        lemma_key_index_bounds(e, "value"@);
    }
}

proof fn lemma_scope_of_root_wf(root: Seq<(Seq<char>, TreeModel)>, sc: ModSettingsScopeName)
    requires
        wf_entries(root),
    ensures
        scope_of_root(root, sc) matches Ok(s) ==> scope_wf(s),
{
    lemma_wf_entries_elems(root);
    lemma_key_index_bounds(root, scope_name(sc));
    if let Some(TreeModel::Dict(d)) = lookup(root, scope_name(sc)) {
        let i = key_index(root, scope_name(sc));
        assert(wf_tree(root[i].1));
        lemma_wf_entries_elems(d);
        lemma_scope_entries_values(d);
        if let Ok(s) = scope_entries(d) {
            assert forall|j: int| 0 <= j < s.len() implies {
                &&& (#[trigger] s[j]).0.len() > 0
                &&& wf_string(s[j].0)
                &&& value_wf(s[j].1)
            } by {
                lemma_setting_value_wf(d[j].0, d[j].1);
            }
            assert forall|a: int, c: int| 0 <= a < c < s.len() implies s[a].0 != s[c].0 by {
                assert(s[a].0 == d[a].0 && s[c].0 == d[c].0);
            }
        }
    }
}

/// Every settings file that reads without error holds settings the format
/// gives back unchanged: each scope has fewer than 2^32 settings with
/// distinct, non-empty names, and names and values within the format's
/// limits.
pub proof fn lemma_read_settings_wf(b: Seq<u8>)
    ensures
        settings_of_bytes(b) matches Ok((v, st, rg, rp)) ==> v.len() == 9 && settings_wf(
            SettingsModel { startup: st, runtime_global: rg, runtime_per_user: rp },
        ),
{
    if b.len() >= 9 {
        lemma_loaded_tree_wf(b, 9);
        if let Ok((TreeModel::Dict(root), _)) = load_tree(b, 9) {
            lemma_scope_of_root_wf(root, ModSettingsScopeName::Startup);
            lemma_scope_of_root_wf(root, ModSettingsScopeName::RuntimeGlobal);
            lemma_scope_of_root_wf(root, ModSettingsScopeName::RuntimePerUser);
        }
    }
}

/// Setting a non-empty name within the format's limits to a value within
/// them, or removing it, keeps a scope one the format gives back unchanged,
/// as long as the scope has room for one more setting.
pub proof fn lemma_scope_set_wf(s: Seq<(Seq<char>, ValueModel)>, k: Seq<char>, v: Option<ValueModel>)
    requires
        scope_wf(s),
        s.len() < u32::MAX,
        k.len() > 0,
        wf_string(k),
        v matches Some(x) ==> value_wf(x),
    ensures
        scope_wf(scope_set(s, k, v)),
{
    lemma_scope_set(s, k, v, k);
    lemma_setting_index(s, k);
    let n = scope_set(s, k, v);
    let i = setting_index(s, k);
    match v {
        Some(x) => {
            assert forall|j: int| 0 <= j < n.len() implies {
                &&& (#[trigger] n[j]).0.len() > 0
                &&& wf_string(n[j].0)
                &&& value_wf(n[j].1)
            } by {
                if !(j == i || j == s.len()) {
                    assert(n[j] == s[j]);
                }
            }
        },
        None => {
            if i >= 0 {
                assert forall|j: int| 0 <= j < n.len() implies {
                    &&& (#[trigger] n[j]).0.len() > 0
                    &&& wf_string(n[j].0)
                    &&& value_wf(n[j].1)
                } by {
                    if j < i {
                        assert(n[j] == s[j]);
                    } else {
                        assert(n[j] == s[j + 1]);
                    }
                }
            }
        },
    }
}

proof fn lemma_changes_keep_wf(
    m: SettingsModel,
    changes: Seq<(ModSettingsScopeName, Seq<char>, Option<ValueModel>)>,
)
    requires
        settings_wf(m),
        changes_fit(m, changes),
    ensures
        settings_wf(settings_after_all(m, changes)),
    decreases changes.len(),
{
    if changes.len() > 0 {
        let (sc, k, v) = changes[0];
        lemma_scope_set_wf(m.scope(sc), k, v);
        lemma_changes_keep_wf(settings_after(m, sc, k, v), changes.skip(1));
    }
}

/// Reading a settings file, changing it by any series of `set` calls that
/// fit the format, saving it and reading it again gives the changed
/// settings and the same version.
pub proof fn lemma_read_change_save_read(
    b: Seq<u8>,
    changes: Seq<(ModSettingsScopeName, Seq<char>, Option<ValueModel>)>,
    rest: Seq<u8>,
)
    requires
        settings_of_bytes(b) is Ok,
        changes_fit(
            SettingsModel {
                startup: settings_of_bytes(b)->Ok_0.1,
                runtime_global: settings_of_bytes(b)->Ok_0.2,
                runtime_per_user: settings_of_bytes(b)->Ok_0.3,
            },
            changes,
        ),
    ensures
        ({
            let (v, st, rg, rp) = settings_of_bytes(b)->Ok_0;
            let m = settings_after_all(SettingsModel { startup: st, runtime_global: rg, runtime_per_user: rp }, changes);
            settings_of_bytes(v + enc_tree(settings_tree(m)) + rest) == Ok::<
                (Seq<u8>, Seq<(Seq<char>, ValueModel)>, Seq<(Seq<char>, ValueModel)>, Seq<(Seq<char>, ValueModel)>),
                SettingsErrorModel,
            >((v, m.startup, m.runtime_global, m.runtime_per_user))
        }),
{
    let (v, st, rg, rp) = settings_of_bytes(b)->Ok_0;
    let m0 = SettingsModel { startup: st, runtime_global: rg, runtime_per_user: rp };
    lemma_read_settings_wf(b);
    lemma_changes_keep_wf(m0, changes);
    lemma_settings_round_trip(v, settings_after_all(m0, changes), rest);
}

} // verus!

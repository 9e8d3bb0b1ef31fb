//! The tree of UCI configs kept in memory for a config directory.

use vstd::prelude::*;

use crate::search::first_index;
use crate::storage::uci::uci_config::{
    lookup_defined, lookup_spec, section_named, ConfigView, UciConfig,
};
use crate::storage::uci::uci_option::{OptionView, UciOption, UciOptionType};
use crate::storage::uci::uci_section::{option_pos, SectionView, UciSection};
use crate::text::{str_eq, views};
use crate::utils::error::{error_from_str, Error};

verus! {

/// The configs loaded from a directory, each under the name it was loaded by.
pub struct UciTree {
    dir: String,
    configs: Vec<(String, UciConfig)>,
}

/// The names and views of the loaded configs, in the tree's order.
pub open spec fn entry_views(v: Seq<(String, UciConfig)>) -> Seq<(Seq<char>, ConfigView)> {
    v.map_values(|e: (String, UciConfig)| (e.0@, e.1@))
}


/// The loaded configs, by name.
pub type ConfigMap = Map<Seq<char>, ConfigView>;

/// The configs once `name` is sure to be loaded, reading it from `disk` (what
/// reading and parsing its file gave) when it was not; or why loading failed.
pub open spec fn after_load(m: ConfigMap, name: Seq<char>, disk: Option<Result<UciConfig, Error>>) -> Result<ConfigMap, Seq<char>> {
    if m.contains_key(name) {
        Ok(m)
    } else {
        match disk {
            Some(Ok(c)) => Ok(m.insert(name, c@)),
            Some(Err(e)) => Err(e.message@),
            None => Err(Seq::empty()),
        }
    }
}

/// The file was read when the config was not loaded yet.
pub open spec fn disk_ready(m: ConfigMap, name: Seq<char>, disk: Option<Result<UciConfig, Error>>) -> bool {
    m.contains_key(name) || disk is Some
}

/// A result and the outcome it should report agree: both succeed, or both
/// fail with the same message.
pub open spec fn same_outcome<T>(r: Result<T, Error>, s: Result<(), Seq<char>>) -> bool {
    match (r, s) {
        (Ok(_), Ok(_)) => true,
        (Err(e), Err(m)) => e.message@ == m,
        _ => false,
    }
}

/// The type that `set_option_values` gives a new option: a list for more than one value.
pub open spec fn type_for(values: Seq<Seq<char>>) -> UciOptionType {
    if values.len() > 1 {
        UciOptionType::TypeList
    } else {
        UciOptionType::TypeOption
    }
}

pub open spec fn msg_values_not_found(section: Seq<char>, option: Seq<char>) -> Seq<char> {
    "values of "@ + section + "."@ + option + " not found"@
}

pub open spec fn msg_section_not_found(section: Seq<char>) -> Seq<char> {
    "section '"@ + section + "' not found"@
}

pub open spec fn msg_already_loaded(name: Seq<char>) -> Seq<char> {
    name + " already loaded"@
}

pub open spec fn msg_type_mismatch(config: Seq<char>, section: Seq<char>, got: Seq<char>, want: Seq<char>) -> Seq<char> {
    "type mismatch for "@ + config + "."@ + section + ", got "@ + got + ", want "@ + want
}

/// The option `option` of the section that `section` designates in config
/// `config`: nothing when the config is not loaded or has no such section or
/// option; an error when `section` is a bad selector.
pub open spec fn option_lookup_spec(m: ConfigMap, config: Seq<char>, section: Seq<char>, option: Seq<char>) -> Result<Option<OptionView>, Seq<char>> {
    if !m.contains_key(config) {
        Ok(None)
    } else {
        let secs = m[config].sections;
        match lookup_spec(secs, section) {
            Err(msg) => Err(msg),
            Ok(None) => Ok(None),
            Ok(Some(i)) => match option_pos(secs[i].options, option) {
                Some(j) => Ok(Some(secs[i].options[j])),
                None => Ok(None),
            },
        }
    }
}

/// The values of option `option` of the section that `section` designates in config `config`.
pub open spec fn values_spec(m: ConfigMap, config: Seq<char>, section: Seq<char>, option: Seq<char>) -> Result<Seq<Seq<char>>, Seq<char>> {
    match option_lookup_spec(m, config, section, option) {
        Ok(Some(o)) => Ok(o.values),
        Ok(None) => Err(msg_values_not_found(section, option)),
        Err(msg) => Err(msg),
    }
}

/// The lookups of `values_spec` do not panic.
pub open spec fn values_defined(m: ConfigMap, config: Seq<char>, section: Seq<char>) -> bool {
    m.contains_key(config) ==> lookup_defined(m[config].sections, section)
}

/// Whether the text of a UCI boolean means true.
pub open spec fn is_true_text(v: Seq<char>) -> bool {
    v == "1"@ || v == "on"@ || v == "true"@ || v == "yes"@ || v == "enabled"@
}

/// `cfg` with section `i` replaced by `sec`.
pub open spec fn with_section(cfg: ConfigView, i: int, sec: SectionView) -> ConfigView {
    ConfigView { sections: cfg.sections.update(i, sec), ..cfg }
}

/// The configs and outcome after setting the values of an option; an option
/// that the section lacks is created with type `opt_type`.
pub open spec fn set_option_spec(
    m: ConfigMap,
    config: Seq<char>,
    section: Seq<char>,
    option: Seq<char>,
    values: Seq<Seq<char>>,
    opt_type: UciOptionType,
    disk: Option<Result<UciConfig, Error>>,
) -> (ConfigMap, Result<(), Seq<char>>) {
    match after_load(m, config, disk) {
        Err(msg) => (m, Err(msg)),
        Ok(m1) => {
            let cfg = m1[config];
            match lookup_spec(cfg.sections, section) {
                Err(msg) => (m1, Err(msg)),
                Ok(None) => (m1, Err(msg_section_not_found(section))),
                Ok(Some(i)) => {
                    let sec = cfg.sections[i];
                    let options = match option_pos(sec.options, option) {
                        Some(j) => sec.options.update(j, OptionView { values: values, ..sec.options[j] }),
                        None => sec.options.push(
                            OptionView { name: option, values: values, opt_type: opt_type },
                        ),
                    };
                    (m1.insert(config, with_section(cfg, i, SectionView { options: options, ..sec })), Ok(()))
                },
            }
        },
    }
}

/// The configs after `del_option`; it fails only as loading or the section lookup fails.
pub open spec fn del_option_spec(
    m: ConfigMap,
    config: Seq<char>,
    section: Seq<char>,
    option: Seq<char>,
    disk: Option<Result<UciConfig, Error>>,
) -> (ConfigMap, Result<(), Seq<char>>) {
    match after_load(m, config, disk) {
        Err(msg) => (m, Err(msg)),
        Ok(m1) => {
            let cfg = m1[config];
            match lookup_spec(cfg.sections, section) {
                Err(msg) => (m1, Err(msg)),
                Ok(None) => (m1, Ok(())),
                Ok(Some(i)) => {
                    let sec = cfg.sections[i];
                    let found = option_pos(sec.options, option) is Some;
                    let options = match option_pos(sec.options, option) {
                        Some(j) => sec.options.remove(j),
                        None => sec.options,
                    };
                    let cfg2 = ConfigView {
                        modified: found,
                        ..with_section(cfg, i, SectionView { options: options, ..sec })
                    };
                    (m1.insert(config, cfg2), Ok(()))
                },
            }
        },
    }
}

/// The config that `add_section` works on: the loaded one, or a new empty
/// config marked modified when loading fails.
pub open spec fn add_base(m: ConfigMap, config: Seq<char>, disk: Option<Result<UciConfig, Error>>) -> ConfigMap {
    match after_load(m, config, disk) {
        Ok(m1) => m1,
        Err(_) => m.insert(config, ConfigView { name: config, sections: Seq::empty(), modified: true }),
    }
}

/// The configs and outcome after `add_section`.
pub open spec fn add_section_spec(
    m: ConfigMap,
    config: Seq<char>,
    sec_type: Seq<char>,
    name: Seq<char>,
    disk: Option<Result<UciConfig, Error>>,
) -> (ConfigMap, Result<(), Seq<char>>) {
    let m1 = add_base(m, config, disk);
    let cfg = m1[config];
    let added = m1.insert(
        config,
        ConfigView {
            sections: cfg.sections.push(SectionView { name: name, sec_type: sec_type, options: Seq::empty() }),
            modified: true,
            ..cfg
        },
    );
    if name.len() == 0 {
        (added, Ok(()))
    } else {
        match lookup_spec(cfg.sections, name) {
            Ok(Some(i)) => if cfg.sections[i].sec_type != sec_type {
                (m1, Err(msg_type_mismatch(config, name, cfg.sections[i].sec_type, sec_type)))
            } else {
                (m1, Ok(()))
            },
            _ => (added, Ok(())),
        }
    }
}

/// The configs and outcome after `del_section`.
pub open spec fn del_section_spec(
    m: ConfigMap,
    config: Seq<char>,
    name: Seq<char>,
    disk: Option<Result<UciConfig, Error>>,
) -> (ConfigMap, Result<(), Seq<char>>) {
    match after_load(m, config, disk) {
        Err(msg) => (m, Err(msg)),
        Ok(m1) => {
            let cfg = m1[config];
            let i = first_index(cfg.sections, section_named(name))->0;
            (m1.insert(config, ConfigView { sections: cfg.sections.remove(i), modified: true, ..cfg }), Ok(()))
        },
    }
}

/// The sections of type `sec_type`, in order.
pub open spec fn sections_of_type(secs: Seq<SectionView>, sec_type: Seq<char>) -> Seq<SectionView>
    decreases secs.len(),
{
    if secs.len() == 0 {
        secs
    } else if secs.last().sec_type == sec_type {
        sections_of_type(secs.drop_last(), sec_type).push(secs.last())
    } else {
        sections_of_type(secs.drop_last(), sec_type)
    }
}

/// The configs and whether `get_sections` finds config `config` (loading it
/// from `disk` when needed).
pub open spec fn get_sections_spec(m: ConfigMap, config: Seq<char>, sec_type: Seq<char>, disk: Option<Result<UciConfig, Error>>) -> (ConfigMap, Option<Seq<SectionView>>) {
    match after_load(m, config, disk) {
        Ok(m1) => (m1, Some(sections_of_type(m1[config].sections, sec_type))),
        Err(_) => (m, None),
    }
}

/// The views of a sequence of section references.
pub open spec fn section_ref_views(v: Seq<&UciSection>) -> Seq<SectionView> {
    v.map_values(|s: &UciSection| s@)
}


/// The configs and outcome after `load_config`.
pub open spec fn load_spec(m: ConfigMap, name: Seq<char>, disk: Option<Result<UciConfig, Error>>) -> (ConfigMap, Result<(), Seq<char>>) {
    if m.contains_key(name) {
        (m, Err(msg_already_loaded(name)))
    } else {
        match after_load(m, name, disk) {
            Ok(m1) => (m1, Ok(())),
            Err(msg) => (m, Err(msg)),
        }
    }
}

/// The configs and outcome after `load_config_force`.
pub open spec fn load_force_spec(m: ConfigMap, name: Seq<char>, disk: Result<UciConfig, Error>) -> (ConfigMap, Result<(), Seq<char>>) {
    match disk {
        Ok(c) => (m.insert(name, c@), Ok(())),
        Err(e) => (m, Err(e.message@)),
    }
}

/// The configs and outcome after `commit`, given how saving went.
pub open spec fn commit_spec(m: ConfigMap, saved: Result<(), Error>) -> (ConfigMap, Result<(), Seq<char>>) {
    match saved {
        Ok(_) => (m.map_values(|c: ConfigView| ConfigView { modified: false, ..c }), Ok(())),
        Err(e) => (m, Err(e.message@)),
    }
}

/// The configs and outcome after `set_config_package_name`.
pub open spec fn rename_spec(m: ConfigMap, config: Seq<char>, package: Seq<char>) -> (ConfigMap, Result<(), Seq<char>>) {
    if m.contains_key(config) {
        (m.insert(config, ConfigView { name: package, ..m[config] }), Ok(()))
    } else {
        (m, Err("config not found"@))
    }
}


/// The outcome `get_option_last_value` reports: the last value.
pub open spec fn last_value_spec(m: ConfigMap, config: Seq<char>, section: Seq<char>, option: Seq<char>) -> Result<Seq<char>, Seq<char>> {
    match values_spec(m, config, section, option) {
        Ok(vs) => Ok(vs.last()),
        Err(msg) => Err(msg),
    }
}

/// The lookups succeed only on options that have a value (`last` of no value panics).
pub open spec fn values_nonempty(m: ConfigMap, config: Seq<char>, section: Seq<char>, option: Seq<char>) -> bool {
    values_spec(m, config, section, option) matches Ok(vs) ==> vs.len() > 0
}


/// Once `config` is loaded, looking up `section` in it does not panic.
pub open spec fn loaded_lookup_defined(m: ConfigMap, config: Seq<char>, section: Seq<char>, disk: Option<Result<UciConfig, Error>>) -> bool {
    after_load(m, config, disk) matches Ok(m1) ==> lookup_defined(m1[config].sections, section)
}

/// The map from name to config that a list of entries stands for.
pub open spec fn entries_map(s: Seq<(Seq<char>, ConfigView)>) -> Map<Seq<char>, ConfigView>
    decreases s.len(),
{
    if s.len() == 0 {
        Map::empty()
    } else {
        entries_map(s.drop_last()).insert(s.last().0, s.last().1)
    }
}

/// No name occurs twice.
pub open spec fn unique_names(s: Seq<(Seq<char>, ConfigView)>) -> bool {
    forall|i: int, j: int| 0 <= i < s.len() && 0 <= j < s.len() && i != j ==> s[i].0 != s[j].0
}

/// With distinct names, the map holds exactly the entries.
pub proof fn lemma_entries_map(s: Seq<(Seq<char>, ConfigView)>)
    requires
        unique_names(s),
    ensures
        forall|k: Seq<char>| #[trigger] entries_map(s).contains_key(k) <==> exists|i: int| 0 <= i < s.len() && s[i].0 == k,
        forall|i: int| 0 <= i < s.len() ==> #[trigger] entries_map(s)[s[i].0] == s[i].1,
    decreases s.len(),
{
    if s.len() > 0 {
        let p = s.drop_last();
        let last = s.last();
        assert(unique_names(p));
        lemma_entries_map(p);
        assert(entries_map(s) == entries_map(p).insert(last.0, last.1));
        assert forall|k: Seq<char>| #[trigger] entries_map(s).contains_key(k) <==> exists|i: int| 0 <= i < s.len() && s[i].0 == k by {
            if entries_map(s).contains_key(k) {
                if k == last.0 {
                    assert(s[s.len() - 1].0 == k);
                } else {
                    assert(entries_map(p).contains_key(k));
                    let i = choose|i: int| 0 <= i < p.len() && p[i].0 == k;
                    assert(p[i] == s[i]);
                    assert(s[i].0 == k);
                }
            }
            if exists|i: int| 0 <= i < s.len() && s[i].0 == k {
                let i = choose|i: int| 0 <= i < s.len() && s[i].0 == k;
                if i < p.len() {
                    assert(p[i] == s[i]);
                    assert(p[i].0 == k);
                    assert(entries_map(p).contains_key(k));
                } else {
                    assert(k == last.0);
                }
            }
        }
        assert forall|i: int| 0 <= i < s.len() implies #[trigger] entries_map(s)[s[i].0] == s[i].1 by {
            if i < p.len() {
                assert(p[i] == s[i]);
                assert(s[i].0 != last.0);
                assert(entries_map(p)[p[i].0] == p[i].1);
            } else {
                assert(s[i] == last);
            }
        }
    }
}


/// Replacing the config of an entry replaces it in the map.
pub proof fn lemma_entries_update(s: Seq<(Seq<char>, ConfigView)>, i: int, v: ConfigView)
    requires
        unique_names(s),
        0 <= i < s.len(),
    ensures
        unique_names(s.update(i, (s[i].0, v))),
        entries_map(s.update(i, (s[i].0, v))) == entries_map(s).insert(s[i].0, v),
{
    let u = s.update(i, (s[i].0, v));
    assert(unique_names(u)) by {
        assert forall|a: int, b: int| 0 <= a < u.len() && 0 <= b < u.len() && a != b implies u[a].0 != u[b].0 by {
            assert(u[a].0 == s[a].0);
            assert(u[b].0 == s[b].0);
        }
    }
    lemma_entries_map(s);
    lemma_entries_map(u);
    let m1 = entries_map(u);
    let m2 = entries_map(s).insert(s[i].0, v);
    assert forall|k: Seq<char>| m1.contains_key(k) <==> m2.contains_key(k) by {
        if m1.contains_key(k) {
            let j = choose|j: int| 0 <= j < u.len() && u[j].0 == k;
            assert(s[j].0 == k);
            assert(entries_map(s).contains_key(k));
        }
        if m2.contains_key(k) && k != s[i].0 {
            let j = choose|j: int| 0 <= j < s.len() && s[j].0 == k;
            assert(u[j].0 == k);
        }
        if k == s[i].0 {
            assert(u[i].0 == k);
        }
    }
    assert forall|k: Seq<char>| m1.contains_key(k) implies m1[k] == m2[k] by {
        let j = choose|j: int| 0 <= j < u.len() && u[j].0 == k;
        assert(m1[u[j].0] == u[j].1);
        if j != i {
            assert(u[j] == s[j]);
            assert(entries_map(s)[s[j].0] == s[j].1);
        }
    }
    assert(m1 =~= m2);
}

/// Appending an entry under a new name inserts it in the map.
pub proof fn lemma_entries_push(s: Seq<(Seq<char>, ConfigView)>, k: Seq<char>, v: ConfigView)
    requires
        unique_names(s),
        !entries_map(s).contains_key(k),
    ensures
        unique_names(s.push((k, v))),
        entries_map(s.push((k, v))) == entries_map(s).insert(k, v),
{
    lemma_entries_map(s);
    let u = s.push((k, v));
    assert forall|a: int, b: int| 0 <= a < u.len() && 0 <= b < u.len() && a != b implies u[a].0 != u[b].0 by {
        if a < s.len() && b < s.len() {
            assert(u[a] == s[a] && u[b] == s[b]);
        } else if a < s.len() {
            assert(u[a] == s[a]);
            assert(entries_map(s).contains_key(s[a].0));
        } else if b < s.len() {
            assert(u[b] == s[b]);
            assert(entries_map(s).contains_key(s[b].0));
        }
    }
    assert(u.drop_last() =~= s);
}

/// Removing an entry removes its name from the map.
pub proof fn lemma_entries_remove(s: Seq<(Seq<char>, ConfigView)>, i: int)
    requires
        unique_names(s),
        0 <= i < s.len(),
    ensures
        unique_names(s.remove(i)),
        entries_map(s.remove(i)) == entries_map(s).remove(s[i].0),
{
    let u = s.remove(i);
    assert forall|a: int, b: int| 0 <= a < u.len() && 0 <= b < u.len() && a != b implies u[a].0 != u[b].0 by {
        let a2 = if a < i { a } else { a + 1 };
        let b2 = if b < i { b } else { b + 1 };
        assert(u[a] == s[a2]);
        assert(u[b] == s[b2]);
    }
    lemma_entries_map(s);
    lemma_entries_map(u);
    let m1 = entries_map(u);
    let m2 = entries_map(s).remove(s[i].0);
    assert forall|k: Seq<char>| m1.contains_key(k) <==> m2.contains_key(k) by {
        if m1.contains_key(k) {
            let j = choose|j: int| 0 <= j < u.len() && u[j].0 == k;
            let j2 = if j < i { j } else { j + 1 };
            assert(u[j] == s[j2]);
            assert(entries_map(s).contains_key(k));
        }
        if m2.contains_key(k) {
            let j = choose|j: int| 0 <= j < s.len() && s[j].0 == k;
            assert(j != i);
            let j2 = if j < i { j } else { j - 1 };
            assert(u[j2] == s[j]);
        }
    }
    assert forall|k: Seq<char>| m1.contains_key(k) implies m1[k] == m2[k] by {
        let j = choose|j: int| 0 <= j < u.len() && u[j].0 == k;
        let j2 = if j < i { j } else { j + 1 };
        assert(u[j] == s[j2]);
        assert(m1[u[j].0] == u[j].1);
        assert(entries_map(s)[s[j2].0] == s[j2].1);
    }
    assert(m1 =~= m2);
}

impl View for UciTree {
    type V = Map<Seq<char>, ConfigView>;

    /// The loaded configs, by name.
    closed spec fn view(&self) -> Map<Seq<char>, ConfigView> {
        entries_map(entry_views(self.configs@))
    }
}

impl UciTree {
    /// The tree's invariant: no config is loaded twice.
    pub closed spec fn wf(&self) -> bool {
        unique_names(entry_views(self.configs@))
    }

    /// The config directory.
    pub closed spec fn dir_view(&self) -> Seq<char> {
        self.dir@
    }

    /// An empty tree for the config directory `root`.
    pub fn new(root: &str) -> (t: UciTree)
        ensures
            t.wf(),
            t@ == Map::<Seq<char>, ConfigView>::empty(),
            t.dir_view() == root@,
    {
        let t = UciTree { dir: root.to_owned(), configs: Vec::new() };
        assert(entry_views(t.configs@) =~= Seq::<(Seq<char>, ConfigView)>::empty());
        t
    }

    /// The position of the config loaded under `name`.
    fn position(&self, name: &str) -> (r: Option<usize>)
        requires
            self.wf(),
        ensures
            match r {
                Some(i) => i < self.configs@.len() && self.configs@[i as int].0@ == name@
                    && self@.contains_key(name@) && self@[name@] == self.configs@[i as int].1@,
                None => !self@.contains_key(name@),
            },
    {
        let ghost s = entry_views(self.configs@);
        let mut i: usize = 0;
        while i < self.configs.len()
            invariant
                s == entry_views(self.configs@),
                unique_names(s),
                i <= s.len(),
                forall|j: int| 0 <= j < i ==> s[j].0 != name@,
            decreases s.len() - i,
        {
            if str_eq(self.configs[i].0.as_str(), name) {
                assert(s[i as int] == (self.configs@[i as int].0@, self.configs@[i as int].1@));
                assert(s[i as int].0 == name@);
                proof {
                    lemma_entries_map(s);
                    assert(entries_map(s)[s[i as int].0] == s[i as int].1);
                }
                return Some(i);
            }
            assert(s[i as int] == (self.configs@[i as int].0@, self.configs@[i as int].1@));
            i = i + 1;
        }
        proof {
            lemma_entries_map(s);
        }
        None
    }

    /// Loads `cfg` under `name`, replacing what was loaded under it.
    fn insert_config(&mut self, name: &str, cfg: UciConfig)
        requires
            old(self).wf(),
        ensures
            final(self).wf(),
            final(self)@ == old(self)@.insert(name@, cfg@),
            final(self).dir_view() == old(self).dir_view(),
    {
        let ghost s = entry_views(self.configs@);
        let ghost cv = cfg@;
        match self.position(name) {
            Some(i) => {
                self.configs[i].1 = cfg;
                proof {
                    lemma_entries_update(s, i as int, cv);
                    assert(entry_views(self.configs@) =~= s.update(i as int, (s[i as int].0, cv)));
                }
            },
            None => {
                self.configs.push((name.to_owned(), cfg));
                proof {
                    lemma_entries_push(s, name@, cv);
                    assert(entry_views(self.configs@) =~= s.push((name@, cv)));
                }
            },
        }
    }

    /// Drops the config loaded under `name`, if any.
    fn remove_config(&mut self, name: &str)
        requires
            old(self).wf(),
        ensures
            final(self).wf(),
            final(self)@ == old(self)@.remove(name@),
            final(self).dir_view() == old(self).dir_view(),
    {
        let ghost s = entry_views(self.configs@);
        match self.position(name) {
            Some(i) => {
                self.configs.remove(i);
                proof {
                    lemma_entries_remove(s, i as int);
                    assert(entry_views(self.configs@) =~= s.remove(i as int));
                }
            },
            None => {
                assert(old(self)@.remove(name@) =~= old(self)@);
            },
        }
    }

    fn _lookup_option(&self, config_name: &str, section_name: &str, option_name: &str) -> (r: Result<Option<&UciOption>, Error>)
        requires
            self.wf(),
            values_defined(self@, config_name@, section_name@),
        ensures
            match (r, option_lookup_spec(self@, config_name@, section_name@, option_name@)) {
                (Ok(Some(o)), Ok(Some(ov))) => o@ == ov,
                (Ok(None), Ok(None)) => true,
                (Err(e), Err(m)) => e.message@ == m,
                _ => false,
            },
    {
        match self.position(config_name) {
            None => Ok(None),
            Some(ci) => {
                let cfg = &self.configs[ci].1;
                match cfg.find(section_name) {
                    Err(e) => Err(e),
                    Ok(None) => Ok(None),
                    Ok(Some(si)) => {
                        let sec = &cfg.sections[si];
                        match sec.find(option_name) {
                            Some(oi) => Ok(Some(&sec.options[oi])),
                            None => Ok(None),
                        }
                    },
                }
            },
        }
    }

    fn _lookup_values(&self, config_name: &str, section_name: &str, option_name: &str) -> (r: Result<&Vec<String>, Error>)
        requires
            self.wf(),
            values_defined(self@, config_name@, section_name@),
        ensures
            match (r, values_spec(self@, config_name@, section_name@, option_name@)) {
                (Ok(v), Ok(vs)) => views(v@) == vs,
                (Err(e), Err(m)) => e.message@ == m,
                _ => false,
            },
    {
        match self._lookup_option(config_name, section_name, option_name) {
            Ok(Some(option)) => Ok(&option.values),
            Ok(None) => {
                let mut m = "values of ".to_owned();
                m.append(section_name);
                m.append(".");
                m.append(option_name);
                m.append(" not found");
                Err(Error::new(m))
            },
            Err(err) => Err(err),
        }
    }

    fn _set_option_with_type(
        &mut self,
        config_name: &str,
        section_name: &str,
        option_name: &str,
        opt_type: UciOptionType,
        values: Vec<String>,
        disk: Option<Result<UciConfig, Error>>,
    ) -> (r: Result<(), Error>)
        requires
            old(self).wf(),
            disk_ready(old(self)@, config_name@, disk),
            loaded_lookup_defined(old(self)@, config_name@, section_name@, disk),
        ensures
            final(self).wf(),
            final(self).dir_view() == old(self).dir_view(),
            final(self)@ == set_option_spec(old(self)@, config_name@, section_name@, option_name@, views(values@), opt_type, disk).0,
            same_outcome(r, set_option_spec(old(self)@, config_name@, section_name@, option_name@, views(values@), opt_type, disk).1),
    {
        let ghost vals = views(values@);
        let ci = match self.ensure_loaded(config_name, disk) {
            Ok(i) => i,
            Err(e) => return Err(e),
        };
        let ghost s0 = entry_views(self.configs@);
        let ghost cfg0 = self.configs@[ci as int].1@;
        match self.configs[ci].1.find(section_name) {
            Err(e) => Err(e),
            Ok(None) => {
                let mut m = "section '".to_owned();
                m.append(section_name);
                m.append("' not found");
                Err(Error::new(m))
            },
            Ok(Some(si)) => {
                let ghost sec0 = cfg0.sections[si as int];
                match self.configs[ci].1.sections[si].find(option_name) {
                    Some(oi) => {
                        self.configs[ci].1.sections[si].options[oi].set_values(values);
                    },
                    None => {
                        let o = UciOption::new(option_name.to_owned(), opt_type, values);
                        self.configs[ci].1.sections[si].add(o);
                    },
                }
                proof {
                    let cv = self.configs@[ci as int].1@;
                    let options = match option_pos(sec0.options, option_name@) {
                        Some(j) => sec0.options.update(j, OptionView { values: vals, ..sec0.options[j] }),
                        None => sec0.options.push(
                            OptionView { name: option_name@, values: vals, opt_type: opt_type },
                        ),
                    };
                    assert(cv.sections[si as int].options =~= options);
                    assert(cv.sections =~= cfg0.sections.update(si as int, SectionView { options: options, ..sec0 }));
                    assert(cv == with_section(cfg0, si as int, SectionView { options: options, ..sec0 }));
                    lemma_entries_update(s0, ci as int, cv);
                    assert(entry_views(self.configs@) =~= s0.update(ci as int, (s0[ci as int].0, cv)));
                }
                Ok(())
            },
        }
    }

    /// Makes sure `name` is loaded, from `disk` when it was not; gives its position.
    fn ensure_loaded(&mut self, name: &str, disk: Option<Result<UciConfig, Error>>) -> (r: Result<usize, Error>)
        requires
            old(self).wf(),
            disk_ready(old(self)@, name@, disk),
        ensures
            final(self).wf(),
            final(self).dir_view() == old(self).dir_view(),
            match after_load(old(self)@, name@, disk) {
                Ok(m1) => r matches Ok(i) && final(self)@ == m1 && i < final(self).configs@.len()
                    && final(self).configs@[i as int].0@ == name@
                    && final(self).configs@[i as int].1@ == m1[name@],
                Err(msg) => r matches Err(e) && e.message@ == msg && final(self)@ == old(self)@,
            },
    {
        match self.position(name) {
            Some(i) => Ok(i),
            None => match disk {
                Some(Ok(c)) => {
                    self.insert_config(name, c);
                    match self.position(name) {
                        Some(i) => Ok(i),
                        None => {
                            proof {
                                assert(false);
                            }
                            Err(error_from_str(""))
                        },
                    }
                },
                Some(Err(e)) => Err(e),
                None => {
                    proof {
                        assert(false);
                    }
                    Err(error_from_str(""))
                },
            },
        }
    }

    /// The names of the configs with unsaved changes, for saving.
    pub fn modified_names(&self) -> (r: Vec<String>)
        requires
            self.wf(),
        ensures
            forall|k: Seq<char>| #[trigger] views(r@).contains(k) <==> self@.contains_key(k) && self@[k].modified,
    {
        let ghost s = entry_views(self.configs@);
        let mut r: Vec<String> = Vec::new();
        let mut i: usize = 0;
        while i < self.configs.len()
            invariant
                s == entry_views(self.configs@),
                i <= s.len(),
                forall|k: Seq<char>| #[trigger] views(r@).contains(k) <==> exists|q: int|
                    0 <= q < i && s[q].0 == k && s[q].1.modified,
            decreases s.len() - i,
        {
            assert(s[i as int] == (self.configs@[i as int].0@, self.configs@[i as int].1@));
            let ghost old_r = r@;
            if self.configs[i].1.modified {
                let name = self.configs[i].0.clone();
                r.push(name);
                proof {
                    crate::text::lemma_views_push(old_r, name);
                }
            }
            assert forall|k: Seq<char>| #[trigger] views(r@).contains(k) <==> exists|q: int|
                0 <= q < i + 1 && s[q].0 == k && s[q].1.modified by {
                if views(r@).contains(k) && !views(old_r).contains(k) {
                    assert(views(r@) == views(old_r).push(s[i as int].0));
                    let j = choose|j: int| 0 <= j < views(r@).len() && views(r@)[j] == k;
                    if j < views(old_r).len() {
                        assert(views(old_r)[j] == k);
                    }
                }
                if exists|q: int| 0 <= q < i + 1 && s[q].0 == k && s[q].1.modified {
                    let q = choose|q: int| 0 <= q < i + 1 && s[q].0 == k && s[q].1.modified;
                    if q == i {
                        assert(views(r@) == views(old_r).push(s[i as int].0));
                        assert(views(r@)[views(old_r).len() as int] == k);
                    } else {
                        assert(views(old_r).contains(k));
                        let j = choose|j: int| 0 <= j < views(old_r).len() && views(old_r)[j] == k;
                        if self.configs@[i as int].1.modified {
                            assert(views(r@) == views(old_r).push(s[i as int].0));
                            assert(views(r@)[j] == k);
                        }
                    }
                }
            }
            i = i + 1;
        }
        proof {
            lemma_entries_map(s);
            assert forall|k: Seq<char>| #[trigger] views(r@).contains(k) <==> self@.contains_key(k) && self@[k].modified by {
                if views(r@).contains(k) {
                    let q = choose|q: int| 0 <= q < s.len() && s[q].0 == k && s[q].1.modified;
                    assert(self@[s[q].0] == s[q].1);
                }
                if self@.contains_key(k) && self@[k].modified {
                    let q = choose|q: int| 0 <= q < s.len() && s[q].0 == k;
                    assert(self@[s[q].0] == s[q].1);
                }
            }
        }
        r
    }
}


/// The operations on a tree of UCI configs. Where an operation may load a
/// config it takes `disk`: what reading and parsing the config's file gave,
/// which is only needed (and only used) when the config is not loaded yet.
pub trait Uci {
    /// The loaded configs, by name.
    spec fn configs_view(&self) -> ConfigMap;

    /// The config directory.
    spec fn dir_spec(&self) -> Seq<char>;

    /// The tree's invariant.
    spec fn inv(&self) -> bool;

    /// Loads config `name` from `disk`; fails when it is already loaded.
    fn load_config(&mut self, name: &str, disk: Option<Result<UciConfig, Error>>) -> (r: Result<(), Error>)
        requires
            old(self).inv(),
            disk_ready(old(self).configs_view(), name@, disk),
        ensures
            final(self).inv(),
            final(self).dir_spec() == old(self).dir_spec(),
            final(self).configs_view() == load_spec(old(self).configs_view(), name@, disk).0,
            same_outcome(r, load_spec(old(self).configs_view(), name@, disk).1),
    ;

    /// Loads config `name` from `disk`, replacing what was loaded under it.
    fn load_config_force(&mut self, name: &str, disk: Result<UciConfig, Error>) -> (r: Result<(), Error>)
        requires
            old(self).inv(),
        ensures
            final(self).inv(),
            final(self).dir_spec() == old(self).dir_spec(),
            final(self).configs_view() == load_force_spec(old(self).configs_view(), name@, disk).0,
            same_outcome(r, load_force_spec(old(self).configs_view(), name@, disk).1),
    ;

    /// Ends a commit: `saved` tells how saving the modified configs went; on
    /// success no config is marked modified any more.
    fn commit(&mut self, saved: Result<(), Error>) -> (r: Result<(), Error>)
        requires
            old(self).inv(),
        ensures
            final(self).inv(),
            final(self).dir_spec() == old(self).dir_spec(),
            final(self).configs_view() == commit_spec(old(self).configs_view(), saved).0,
            same_outcome(r, commit_spec(old(self).configs_view(), saved).1),
    ;

    /// Drops the named configs, with their unsaved changes.
    fn revert(&mut self, config_names: Vec<String>) -> (r: Result<(), Error>)
        requires
            old(self).inv(),
        ensures
            final(self).inv(),
            final(self).dir_spec() == old(self).dir_spec(),
            r is Ok,
            final(self).configs_view() == old(self).configs_view().remove_keys(views(config_names@).to_set()),
    ;

    /// Renames loaded config `config_name` to `package_name`, the file it is saved to.
    fn set_config_package_name(&mut self, config_name: &str, package_name: &str) -> (r: Result<(), Error>)
        requires
            old(self).inv(),
        ensures
            final(self).inv(),
            final(self).dir_spec() == old(self).dir_spec(),
            final(self).configs_view() == rename_spec(old(self).configs_view(), config_name@, package_name@).0,
            same_outcome(r, rename_spec(old(self).configs_view(), config_name@, package_name@).1),
    ;

    /// The config loaded under `config_name`.
    fn get_config(&self, config_name: &str) -> (r: Option<&UciConfig>)
        requires
            self.inv(),
        ensures
            r is Some == self.configs_view().contains_key(config_name@),
            r matches Some(c) ==> c@ == self.configs_view()[config_name@],
    ;

    /// The values of option `option_name` of the section that
    /// `section_type_name` designates in loaded config `config_name`.
    fn get_option_value(&self, config_name: &str, section_type_name: &str, option_name: &str) -> (r: Result<&Vec<String>, Error>)
        requires
            self.inv(),
            values_defined(self.configs_view(), config_name@, section_type_name@),
        ensures
            match (r, values_spec(self.configs_view(), config_name@, section_type_name@, option_name@)) {
                (Ok(v), Ok(vs)) => views(v@) == vs,
                (Err(e), Err(m)) => e.message@ == m,
                _ => false,
            },
    ;

    /// The last value of the option, as `get_option_value` finds it.
    fn get_option_last_value(&self, config_name: &str, section_type_name: &str, option_name: &str) -> (r: Result<Option<String>, Error>)
        requires
            self.inv(),
            values_defined(self.configs_view(), config_name@, section_type_name@),
            values_nonempty(self.configs_view(), config_name@, section_type_name@, option_name@),
        ensures
            match (r, last_value_spec(self.configs_view(), config_name@, section_type_name@, option_name@)) {
                (Ok(Some(v)), Ok(w)) => v@ == w,
                (Err(e), Err(m)) => e.message@ == m,
                _ => false,
            },
    ;

    /// The last value of the option read as a boolean: `1`, `on`, `true`,
    /// `yes` and `enabled` are true, anything else false.
    fn get_option_bool_value(&self, config_name: &str, section_type_name: &str, option_name: &str) -> (r: Result<bool, Error>)
        requires
            self.inv(),
            values_defined(self.configs_view(), config_name@, section_type_name@),
            values_nonempty(self.configs_view(), config_name@, section_type_name@, option_name@),
        ensures
            match (r, last_value_spec(self.configs_view(), config_name@, section_type_name@, option_name@)) {
                (Ok(b), Ok(w)) => b == is_true_text(w),
                (Err(e), Err(m)) => e.message@ == m,
                _ => false,
            },
    ;

    /// Sets the values of option `option_name` of the section that
    /// `section_type_name` designates in config `config_name` (loaded from
    /// `disk` if needed); creates the option, as a list when there is more
    /// than one value, when the section has none of that name.
    fn set_option_values(
        &mut self,
        config_name: &str,
        section_type_name: &str,
        option_name: &str,
        values: Vec<String>,
        disk: Option<Result<UciConfig, Error>>,
    ) -> (r: Result<(), Error>)
        requires
            old(self).inv(),
            disk_ready(old(self).configs_view(), config_name@, disk),
            loaded_lookup_defined(old(self).configs_view(), config_name@, section_type_name@, disk),
        ensures
            final(self).inv(),
            final(self).dir_spec() == old(self).dir_spec(),
            final(self).configs_view() == set_option_spec(
                old(self).configs_view(), config_name@, section_type_name@, option_name@, views(values@),
                type_for(views(values@)), disk).0,
            same_outcome(r, set_option_spec(
                old(self).configs_view(), config_name@, section_type_name@, option_name@, views(values@),
                type_for(views(values@)), disk).1),
    ;

    /// Adds an empty section of type `section_type` named `section_name` to
    /// config `config_name` (a new config when it cannot be loaded); an
    /// unnamed section is always added, a named one only when the name does
    /// not designate a section yet, and it fails when that section has
    /// another type.
    fn add_section(&mut self, config_name: &str, section_type: &str, section_name: &str, disk: Option<Result<UciConfig, Error>>) -> (r: Result<(), Error>)
        requires
            old(self).inv(),
            disk_ready(old(self).configs_view(), config_name@, disk),
            section_name@.len() > 0 ==> lookup_defined(
                add_base(old(self).configs_view(), config_name@, disk)[config_name@].sections,
                section_name@,
            ),
        ensures
            final(self).inv(),
            final(self).dir_spec() == old(self).dir_spec(),
            final(self).configs_view() == add_section_spec(old(self).configs_view(), config_name@, section_type@, section_name@, disk).0,
            same_outcome(r, add_section_spec(old(self).configs_view(), config_name@, section_type@, section_name@, disk).1),
    ;

    /// Removes option `option_name` from the section that `section_type_name`
    /// designates; the config's modified mark becomes whether there was one.
    fn del_option(&mut self, config_name: &str, section_type_name: &str, option_name: &str, disk: Option<Result<UciConfig, Error>>) -> (r: Result<(), Error>)
        requires
            old(self).inv(),
            disk_ready(old(self).configs_view(), config_name@, disk),
            loaded_lookup_defined(old(self).configs_view(), config_name@, section_type_name@, disk),
        ensures
            final(self).inv(),
            final(self).dir_spec() == old(self).dir_spec(),
            final(self).configs_view() == del_option_spec(old(self).configs_view(), config_name@, section_type_name@, option_name@, disk).0,
            same_outcome(r, del_option_spec(old(self).configs_view(), config_name@, section_type_name@, option_name@, disk).1),
    ;

    /// Removes the first section named `section_type_name` from config `config_name`.
    fn del_section(&mut self, config_name: &str, section_type_name: &str, disk: Option<Result<UciConfig, Error>>) -> (r: Result<(), Error>)
        requires
            old(self).inv(),
            disk_ready(old(self).configs_view(), config_name@, disk),
            after_load(old(self).configs_view(), config_name@, disk) matches Ok(m1) ==> first_index(
                m1[config_name@].sections,
                section_named(section_type_name@),
            ) is Some,
        ensures
            final(self).inv(),
            final(self).dir_spec() == old(self).dir_spec(),
            final(self).configs_view() == del_section_spec(old(self).configs_view(), config_name@, section_type_name@, disk).0,
            same_outcome(r, del_section_spec(old(self).configs_view(), config_name@, section_type_name@, disk).1),
    ;

    /// The sections of type `section_type` of config `config_name` (loaded
    /// from `disk` when needed); nothing when it cannot be loaded.
    fn get_sections(&mut self, config_name: &str, section_type: &str, disk: Option<Result<UciConfig, Error>>) -> (r: Option<Vec<&UciSection>>)
        requires
            old(self).inv(),
            disk_ready(old(self).configs_view(), config_name@, disk),
        ensures
            final(self).inv(),
            final(self).dir_spec() == old(self).dir_spec(),
            final(self).configs_view() == get_sections_spec(old(self).configs_view(), config_name@, section_type@, disk).0,
            match (r, get_sections_spec(old(self).configs_view(), config_name@, section_type@, disk).1) {
                (Some(v), Some(secs)) => section_ref_views(v@) == secs,
                (None, None) => true,
                _ => false,
            },
    ;

    /// The config directory.
    fn get_dir(&self) -> (r: &str)
        ensures
            r@ == self.dir_spec(),
    ;
}

impl Uci for UciTree {
    open spec fn configs_view(&self) -> ConfigMap {
        self@
    }

    open spec fn dir_spec(&self) -> Seq<char> {
        self.dir_view()
    }

    open spec fn inv(&self) -> bool {
        self.wf()
    }

    fn load_config(&mut self, name: &str, disk: Option<Result<UciConfig, Error>>) -> (r: Result<(), Error>) {
        if self.position(name).is_some() {
            let mut m = name.to_owned();
            m.append(" already loaded");
            return Err(Error::new(m));
        }
        match self.ensure_loaded(name, disk) {
            Ok(_) => Ok(()),
            Err(e) => Err(e),
        }
    }

    fn load_config_force(&mut self, name: &str, disk: Result<UciConfig, Error>) -> (r: Result<(), Error>) {
        match disk {
            Ok(c) => {
                self.insert_config(name, c);
                Ok(())
            },
            Err(e) => Err(e),
        }
    }

    fn commit(&mut self, saved: Result<(), Error>) -> (r: Result<(), Error>) {
        if let Err(e) = saved {
            return Err(e);
        }
        let ghost s0 = entry_views(self.configs@);
        let ghost m0 = self@;
        let mut i: usize = 0;
        while i < self.configs.len()
            invariant
                i <= s0.len(),
                self.configs@.len() == s0.len(),
                unique_names(s0),
                self.dir == old(self).dir,
                forall|j: int| 0 <= j < i ==> #[trigger] entry_views(self.configs@)[j] == (
                    s0[j].0,
                    ConfigView { modified: false, ..s0[j].1 },
                ),
                forall|j: int| i <= j < s0.len() ==> #[trigger] entry_views(self.configs@)[j] == s0[j],
            decreases s0.len() - i,
        {
            let ghost before = self.configs@;
            self.configs[i].1.modified = false;
            proof {
                assert forall|j: int| 0 <= j < s0.len() && j != i implies self.configs@[j] == before[j] by {}
                assert(entry_views(before)[i as int] == s0[i as int]);
                assert forall|j: int| 0 <= j < i + 1 implies #[trigger] entry_views(self.configs@)[j] == (
                    s0[j].0,
                    ConfigView { modified: false, ..s0[j].1 },
                ) by {
                    if j < i {
                        assert(self.configs@[j] == before[j]);
                        assert(entry_views(before)[j] == (s0[j].0, ConfigView { modified: false, ..s0[j].1 }));
                    }
                }
                assert forall|j: int| i + 1 <= j < s0.len() implies #[trigger] entry_views(self.configs@)[j] == s0[j] by {
                    assert(self.configs@[j] == before[j]);
                    assert(entry_views(before)[j] == s0[j]);
                }
            }
            i = i + 1;
        }
        proof {
            let s1 = entry_views(self.configs@);
            assert(unique_names(s1)) by {
                assert forall|a: int, b: int| 0 <= a < s1.len() && 0 <= b < s1.len() && a != b implies s1[a].0 != s1[b].0 by {
                    assert(s1[a].0 == s0[a].0);
                    assert(s1[b].0 == s0[b].0);
                }
            }
            lemma_entries_map(s0);
            lemma_entries_map(s1);
            let target = m0.map_values(|c: ConfigView| ConfigView { modified: false, ..c });
            assert forall|k: Seq<char>| self@.contains_key(k) <==> target.contains_key(k) by {
                if self@.contains_key(k) {
                    let q = choose|q: int| 0 <= q < s1.len() && s1[q].0 == k;
                    assert(s0[q].0 == k);
                }
                if target.contains_key(k) {
                    let q = choose|q: int| 0 <= q < s0.len() && s0[q].0 == k;
                    assert(s1[q].0 == k);
                }
            }
            assert forall|k: Seq<char>| self@.contains_key(k) implies self@[k] == target[k] by {
                let q = choose|q: int| 0 <= q < s1.len() && s1[q].0 == k;
                assert(s1[q].0 == s0[q].0);
                assert(self@[s1[q].0] == s1[q].1);
                assert(m0[s0[q].0] == s0[q].1);
            }
            assert(self@ =~= target);
        }
        Ok(())
    }

    fn revert(&mut self, config_names: Vec<String>) -> (r: Result<(), Error>) {
        let ghost names = views(config_names@);
        let mut i: usize = 0;
        while i < config_names.len()
            invariant
                names == views(config_names@),
                i <= names.len(),
                self.wf(),
                self.dir_view() == old(self).dir_view(),
                self@ == old(self)@.remove_keys(names.take(i as int).to_set()),
            decreases names.len() - i,
        {
            self.remove_config(config_names[i].as_str());
            proof {
                assert(names.take(i + 1) =~= names.take(i as int).push(names[i as int]));
                let t0 = names.take(i as int);
                let t1 = names.take(i + 1);
                assert forall|x: Seq<char>| t1.to_set().contains(x) <==> t0.to_set().insert(names[i as int]).contains(x) by {
                    if t1.contains(x) {
                        let j = choose|j: int| 0 <= j < t1.len() && t1[j] == x;
                        if j < i {
                            assert(t0[j] == x);
                        }
                    }
                    if t0.contains(x) {
                        let j = choose|j: int| 0 <= j < t0.len() && t0[j] == x;
                        assert(t1[j] == x);
                    }
                    if x == names[i as int] {
                        assert(t1[i as int] == x);
                    }
                }
                assert(t1.to_set() =~= t0.to_set().insert(names[i as int]));
                assert(self@ =~= old(self)@.remove_keys(names.take(i + 1).to_set()));
            }
            i = i + 1;
        }
        assert(names.take(i as int) =~= names);
        Ok(())
    }

    fn set_config_package_name(&mut self, config_name: &str, package_name: &str) -> (r: Result<(), Error>) {
        let ghost s0 = entry_views(self.configs@);
        match self.position(config_name) {
            Some(i) => {
                self.configs[i].1.name = package_name.to_owned();
                proof {
                    let cv = self.configs@[i as int].1@;
                    lemma_entries_update(s0, i as int, cv);
                    assert(entry_views(self.configs@) =~= s0.update(i as int, (s0[i as int].0, cv)));
                }
                Ok(())
            },
            None => Err(error_from_str("config not found")),
        }
    }

    fn get_config(&self, config_name: &str) -> (r: Option<&UciConfig>) {
        match self.position(config_name) {
            Some(i) => Some(&self.configs[i].1),
            None => None,
        }
    }

    fn get_option_value(&self, config_name: &str, section_type_name: &str, option_name: &str) -> (r: Result<&Vec<String>, Error>) {
        if let Ok(values) = self._lookup_values(config_name, section_type_name, option_name) {
            return Ok(values);
        }
        match self._lookup_values(config_name, section_type_name, option_name) {
            Ok(values) => Ok(values),
            Err(err) => Err(err),
        }
    }

    fn get_option_last_value(&self, config_name: &str, section_type_name: &str, option_name: &str) -> (r: Result<Option<String>, Error>) {
        match self.get_option_value(config_name, section_type_name, option_name) {
            Ok(values) => {
                let last = values.len() - 1;
                assert(views(values@).last() == values@[last as int]@);
                Ok(Some(values[last].clone()))
            },
            Err(err) => Err(err),
        }
    }

    fn get_option_bool_value(&self, config_name: &str, section_type_name: &str, option_name: &str) -> (r: Result<bool, Error>) {
        match self.get_option_last_value(config_name, section_type_name, option_name) {
            Ok(Some(val)) => {
                let v = val.as_str();
                if str_eq(v, "1") || str_eq(v, "on") || str_eq(v, "true") || str_eq(v, "yes") || str_eq(v, "enabled") {
                    Ok(true)
                } else {
                    Ok(false)
                }
            },
            Ok(None) => Ok(false),
            Err(err) => Err(err),
        }
    }

    fn set_option_values(
        &mut self,
        config_name: &str,
        section_type_name: &str,
        option_name: &str,
        values: Vec<String>,
        disk: Option<Result<UciConfig, Error>>,
    ) -> (r: Result<(), Error>) {
        assert(views(values@).len() == values@.len());
        if values.len() > 1 {
            self._set_option_with_type(config_name, section_type_name, option_name, UciOptionType::TypeList, values, disk)
        } else {
            self._set_option_with_type(config_name, section_type_name, option_name, UciOptionType::TypeOption, values, disk)
        }
    }

    fn add_section(&mut self, config_name: &str, section_type: &str, section_name: &str, disk: Option<Result<UciConfig, Error>>) -> (r: Result<(), Error>) {
        let ghost m = self@;
        let ci = match self.ensure_loaded(config_name, disk) {
            Ok(i) => i,
            Err(_) => {
                let mut new_cfg = UciConfig::new(config_name.to_owned());
                new_cfg.modified = true;
                assert(new_cfg@.sections =~= Seq::<SectionView>::empty());
                assert(new_cfg@ == (ConfigView { name: config_name@, sections: Seq::empty(), modified: true }));
                self.insert_config(config_name, new_cfg);
                match self.position(config_name) {
                    Some(i) => i,
                    None => {
                        proof {
                            assert(false);
                        }
                        0
                    },
                }
            },
        };
        let ghost m1 = self@;
        assert(m1 == add_base(m, config_name@, disk));
        let ghost s0 = entry_views(self.configs@);
        let ghost cfg0 = self.configs@[ci as int].1@;
        if !section_name.is_empty() {
            match self.configs[ci].1.find(section_name) {
                Ok(Some(si)) => {
                    if !str_eq(self.configs[ci].1.sections[si].sec_type.as_str(), section_type) {
                        let mut msg = "type mismatch for ".to_owned();
                        msg.append(config_name);
                        msg.append(".");
                        msg.append(section_name);
                        msg.append(", got ");
                        msg.append(self.configs[ci].1.sections[si].sec_type.as_str());
                        msg.append(", want ");
                        msg.append(section_type);
                        return Err(Error::new(msg));
                    }
                    return Ok(());
                },
                _ => {},
            }
        }
        let sec = UciSection::new(section_type.to_owned(), section_name.to_owned());
        let ghost sv = sec@;
        assert(sv.options =~= Seq::<OptionView>::empty());
        let _ = self.configs[ci].1.add(sec);
        self.configs[ci].1.modified = true;
        proof {
            let cv = self.configs@[ci as int].1@;
            assert(cv.sections =~= cfg0.sections.push(SectionView { name: section_name@, sec_type: section_type@, options: Seq::empty() }));
            assert(cv == ConfigView {
                sections: cfg0.sections.push(SectionView { name: section_name@, sec_type: section_type@, options: Seq::empty() }),
                modified: true,
                ..cfg0
            });
            lemma_entries_update(s0, ci as int, cv);
            assert(entry_views(self.configs@) =~= s0.update(ci as int, (s0[ci as int].0, cv)));
        }
        Ok(())
    }

    fn del_option(&mut self, config_name: &str, section_type_name: &str, option_name: &str, disk: Option<Result<UciConfig, Error>>) -> (r: Result<(), Error>) {
        let ci = match self.ensure_loaded(config_name, disk) {
            Ok(i) => i,
            Err(e) => return Err(e),
        };
        let ghost s0 = entry_views(self.configs@);
        let ghost cfg0 = self.configs@[ci as int].1@;
        match self.configs[ci].1.find(section_type_name) {
            Err(e) => Err(e),
            Ok(None) => Ok(()),
            Ok(Some(si)) => {
                let ghost sec0 = cfg0.sections[si as int];
                let found = self.configs[ci].1.sections[si].del(option_name);
                self.configs[ci].1.modified = found;
                proof {
                    let cv = self.configs@[ci as int].1@;
                    let options = match option_pos(sec0.options, option_name@) {
                        Some(j) => sec0.options.remove(j),
                        None => sec0.options,
                    };
                    assert(cv.sections =~= cfg0.sections.update(si as int, SectionView { options: options, ..sec0 }));
                    lemma_entries_update(s0, ci as int, cv);
                    assert(entry_views(self.configs@) =~= s0.update(ci as int, (s0[ci as int].0, cv)));
                }
                Ok(())
            },
        }
    }

    fn del_section(&mut self, config_name: &str, section_type_name: &str, disk: Option<Result<UciConfig, Error>>) -> (r: Result<(), Error>) {
        let ci = match self.ensure_loaded(config_name, disk) {
            Ok(i) => i,
            Err(e) => return Err(e),
        };
        let ghost s0 = entry_views(self.configs@);
        self.configs[ci].1.del(section_type_name);
        self.configs[ci].1.modified = true;
        proof {
            let cv = self.configs@[ci as int].1@;
            lemma_entries_update(s0, ci as int, cv);
            assert(entry_views(self.configs@) =~= s0.update(ci as int, (s0[ci as int].0, cv)));
        }
        Ok(())
    }

    fn get_sections(&mut self, config_name: &str, section_type: &str, disk: Option<Result<UciConfig, Error>>) -> (r: Option<Vec<&UciSection>>) {
        let ci = match self.ensure_loaded(config_name, disk) {
            Ok(i) => i,
            Err(_) => return None,
        };
        let cfg = &self.configs[ci].1;
        let ghost secs = cfg@.sections;
        let mut r: Vec<&UciSection> = Vec::new();
        let mut i: usize = 0;
        while i < cfg.sections.len()
            invariant
                secs == cfg@.sections,
                i <= secs.len(),
                section_ref_views(r@) == sections_of_type(secs.take(i as int), section_type@),
            decreases secs.len() - i,
        {
            assert(secs.take(i + 1).drop_last() =~= secs.take(i as int));
            assert(secs.take(i + 1).last() == secs[i as int]);
            if str_eq(cfg.sections[i].sec_type.as_str(), section_type) {
                let ghost old_r = r@;
                r.push(&cfg.sections[i]);
                assert(section_ref_views(r@) =~= section_ref_views(old_r).push(secs[i as int]));
            }
            i = i + 1;
        }
        assert(secs.take(i as int) =~= secs);
        Some(r)
    }

    fn get_dir(&self) -> (r: &str) {
        self.dir.as_str()
    }
}

} // verus!

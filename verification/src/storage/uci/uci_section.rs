//! A UCI section: a typed, optionally named, list of options.

use vstd::prelude::*;

use crate::search::{first_index, lemma_first_index};
use crate::storage::uci::uci_option::{dedup, OptionView, UciOption};
use crate::text::{str_eq, views};

verus! {

/// A section of a config; an empty `name` marks an unnamed section.
#[derive(Debug)]
pub struct UciSection {
    pub name: String,
    pub sec_type: String,
    pub options: Vec<UciOption>,
}

/// What a section holds, as mathematical values.
pub struct SectionView {
    pub name: Seq<char>,
    pub sec_type: Seq<char>,
    pub options: Seq<OptionView>,
}

/// The views of a sequence of options.
pub open spec fn option_views(s: Seq<UciOption>) -> Seq<OptionView> {
    s.map_values(|o: UciOption| o@)
}

impl View for UciSection {
    type V = SectionView;

    open spec fn view(&self) -> SectionView {
        SectionView { name: self.name@, sec_type: self.sec_type@, options: option_views(self.options@) }
    }
}

/// Pushing an option pushes its view.
pub proof fn lemma_option_views_push(v: Seq<UciOption>, o: UciOption)
    ensures
        option_views(v.push(o)) =~= option_views(v).push(o@),
{
    assert forall|j: int| 0 <= j < v.len() + 1 implies option_views(v.push(o))[j] == option_views(v).push(o@)[j] by {
        if j < v.len() {
            assert(v.push(o)[j] == v[j]);
        }
    }
}

/// Holds of the options named `name`.
pub open spec fn option_named(name: Seq<char>) -> spec_fn(OptionView) -> bool {
    |o: OptionView| o.name == name
}

/// The position of the first option named `name`.
pub open spec fn option_pos(options: Seq<OptionView>, name: Seq<char>) -> Option<int> {
    first_index(options, option_named(name))
}

/// The options after `merge` of `o`: values merged into the first option of
/// the same name, or `o` appended when there is none.
pub open spec fn merged_options(options: Seq<OptionView>, o: OptionView) -> Seq<OptionView> {
    match option_pos(options, o.name) {
        Some(i) => options.update(
            i,
            OptionView { values: dedup(options[i].values + o.values), ..options[i] },
        ),
        None => options.push(o),
    }
}

/// Whether two options hold the same name, values and type.
pub fn same_option(a: &UciOption, b: &UciOption) -> (r: bool)
    ensures
        r == (a@ == b@),
{
    if a.name != b.name || a.opt_type != b.opt_type {
        return false;
    }
    if a.values.len() != b.values.len() {
        assert(views(a.values@).len() != views(b.values@).len());
        return false;
    }
    let mut i: usize = 0;
    while i < a.values.len()
        invariant
            a.values@.len() == b.values@.len(),
            i <= a.values@.len(),
            forall|j: int| 0 <= j < i ==> a.values@[j]@ == b.values@[j]@,
        decreases a.values@.len() - i,
    {
        if a.values[i] != b.values[i] {
            assert(views(a.values@)[i as int] != views(b.values@)[i as int]);
            return false;
        }
        i = i + 1;
    }
    assert(views(a.values@) =~= views(b.values@));
    true
}

impl UciSection {
    /// An empty section of type `sec_type` named `name`.
    pub fn new(sec_type: String, name: String) -> (s: UciSection)
        ensures
            s.sec_type == sec_type,
            s.name == name,
            s@.options.len() == 0,
    {
        let s = UciSection { name, sec_type, options: Vec::new() };
        assert(s@.options =~= Seq::<OptionView>::empty());
        s
    }

    /// Whether two sections hold the same name, type and options.
    pub fn same_as(&self, other: &UciSection) -> (r: bool)
        ensures
            r == (self@ == other@),
    {
        if self.name != other.name || self.sec_type != other.sec_type {
            return false;
        }
        if self.options.len() != other.options.len() {
            assert(self@.options.len() != other@.options.len());
            return false;
        }
        let mut i: usize = 0;
        while i < self.options.len()
            invariant
                self.options@.len() == other.options@.len(),
                i <= self.options@.len(),
                forall|j: int| 0 <= j < i ==> self.options@[j]@ == other.options@[j]@,
            decreases self.options@.len() - i,
        {
            if !same_option(&self.options[i], &other.options[i]) {
                assert(self@.options[i as int] != other@.options[i as int]);
                return false;
            }
            i = i + 1;
        }
        assert(self@.options =~= other@.options);
        true
    }

    /// The position of the first option named `name`.
    pub fn find(&self, name: &str) -> (r: Option<usize>)
        ensures
            match r {
                Some(i) => option_pos(self@.options, name@) == Some(i as int) && i < self.options@.len(),
                None => option_pos(self@.options, name@) is None,
            },
    {
        let mut i: usize = 0;
        while i < self.options.len()
            invariant
                i <= self.options@.len(),
                forall|j: int| 0 <= j < i ==> !option_named(name@)(#[trigger] self@.options[j]),
            decreases self.options@.len() - i,
        {
            if str_eq(self.options[i].name.as_str(), name) {
                proof {
                    lemma_first_index(self@.options, option_named(name@), i as int);
                }
                return Some(i);
            }
            i = i + 1;
        }
        proof {
            lemma_first_index(self@.options, option_named(name@), i as int);
        }
        None
    }

    /// The first option named `name`, if any.
    pub fn get(&self, name: &str) -> (r: Option<&UciOption>)
        ensures
            r is Some == option_pos(self@.options, name@) is Some,
            r matches Some(o) ==> o@ == self@.options[option_pos(self@.options, name@)->0],
    {
        match self.find(name) {
            Some(i) => Some(&self.options[i]),
            None => None,
        }
    }

    /// Appends an option.
    pub fn add(&mut self, option: UciOption)
        ensures
            final(self)@ == (SectionView { options: old(self)@.options.push(option@), ..old(self)@ }),
    {
        self.options.push(option);
        assert(self@.options =~= old(self)@.options.push(option@));
    }

    /// Merges the values of `option` into the first option of the same name,
    /// or appends `option` when there is none.
    pub fn merge(&mut self, option: UciOption)
        ensures
            final(self)@ == (SectionView { options: merged_options(old(self)@.options, option@), ..old(self)@ }),
    {
        match self.find(option.name.as_str()) {
            Some(i) => {
                let ghost before = self@.options;
                self.options[i].merge_values(option.values);
                assert forall|j: int| 0 <= j < before.len() && j != i implies self@.options[j] == before[j] by {
                    assert(self.options@[j] == old(self).options@[j]);
                }
                assert(self@.options =~= merged_options(before, option@));
            },
            None => {
                self.options.push(option);
                assert(self@.options =~= old(self)@.options.push(option@));
            },
        }
    }

    /// Removes the first option named `name`; tells whether there was one.
    pub fn del(&mut self, name: &str) -> (found: bool)
        ensures
            found == option_pos(old(self)@.options, name@) is Some,
            final(self)@ == (SectionView {
                options: match option_pos(old(self)@.options, name@) {
                    Some(i) => old(self)@.options.remove(i),
                    None => old(self)@.options,
                },
                ..old(self)@
            }),
    {
        match self.find(name) {
            Some(i) => {
                let ghost before = self@.options;
                self.options.remove(i);
                assert(self@.options =~= before.remove(i as int));
                true
            },
            None => false,
        }
    }
}

} // verus!

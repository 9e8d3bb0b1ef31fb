//! A UCI option: a name with one value (`option`) or a list of values (`list`).

use vstd::prelude::*;

use crate::text::{contains_string, copy_strings, views};

verus! {

/// Whether an option holds a single value or a list.
#[derive(Debug, Clone, Copy, PartialEq, Eq, Structural)]
pub enum UciOptionType {
    TypeOption,
    TypeList,
}

/// A named option of a section.
#[derive(Debug)]
pub struct UciOption {
    pub name: String,
    pub values: Vec<String>,
    pub opt_type: UciOptionType,
}

/// What an option holds, as mathematical values.
pub struct OptionView {
    pub name: Seq<char>,
    pub values: Seq<Seq<char>>,
    pub opt_type: UciOptionType,
}

impl View for UciOption {
    type V = OptionView;

    open spec fn view(&self) -> OptionView {
        OptionView { name: self.name@, values: views(self.values@), opt_type: self.opt_type }
    }
}

/// `s` with every value kept at its first occurrence only, in order.
pub open spec fn dedup(s: Seq<Seq<char>>) -> Seq<Seq<char>>
    decreases s.len(),
{
    if s.len() == 0 {
        s
    } else if s.drop_last().contains(s.last()) {
        dedup(s.drop_last())
    } else {
        dedup(s.drop_last()).push(s.last())
    }
}

/// `dedup` keeps every value and repeats none.
pub proof fn lemma_dedup(s: Seq<Seq<char>>)
    ensures
        forall|x: Seq<char>| dedup(s).contains(x) <==> s.contains(x),
        dedup(s).no_duplicates(),
    decreases s.len(),
{
    if s.len() > 0 {
        let p = s.drop_last();
        lemma_dedup(p);
        assert(s =~= p.push(s.last()));
        assert forall|x: Seq<char>| s.contains(x) <==> (p.contains(x) || x == s.last()) by {
            if s.contains(x) {
                let j = choose|j: int| 0 <= j < s.len() && s[j] == x;
                if j < p.len() {
                    assert(p[j] == x);
                }
            }
            if p.contains(x) {
                let j = choose|j: int| 0 <= j < p.len() && p[j] == x;
                assert(s[j] == x);
            }
            if x == s.last() {
                assert(s[s.len() - 1] == x);
            }
        }
        if !p.contains(s.last()) {
            let d = dedup(p);
            assert forall|x: Seq<char>| d.push(s.last()).contains(x) <==> (d.contains(x) || x == s.last()) by {
                if d.push(s.last()).contains(x) {
                    let j = choose|j: int| 0 <= j < d.len() + 1 && d.push(s.last())[j] == x;
                    if j < d.len() {
                        assert(d[j] == x);
                    }
                }
                if d.contains(x) {
                    let j = choose|j: int| 0 <= j < d.len() && d[j] == x;
                    assert(d.push(s.last())[j] == x);
                }
                if x == s.last() {
                    assert(d.push(s.last())[d.len() as int] == x);
                }
            }
            assert forall|i: int, j: int| 0 <= i < d.push(s.last()).len() && 0 <= j < d.push(s.last()).len() && i != j
                implies d.push(s.last())[i] != d.push(s.last())[j] by {
                if i == d.len() as int && j < d.len() {
                    assert(d.contains(d[j]));
                }
                if j == d.len() as int && i < d.len() {
                    assert(d.contains(d[i]));
                }
            }
        }
    }
}

/// A sequence without repeated values is its own `dedup`.
proof fn lemma_dedup_of_distinct(s: Seq<Seq<char>>)
    requires
        s.no_duplicates(),
    ensures
        dedup(s) == s,
    decreases s.len(),
{
    if s.len() > 0 {
        let p = s.drop_last();
        assert(p.no_duplicates());
        assert(!p.contains(s.last())) by {
            if p.contains(s.last()) {
                let j = choose|j: int| 0 <= j < p.len() && p[j] == s.last();
                assert(s[j] == s[s.len() - 1]);
            }
        }
        lemma_dedup_of_distinct(p);
        assert(p.push(s.last()) =~= s);
    }
}

/// Appending values that already occur leaves `dedup` as it was.
proof fn lemma_dedup_absorbs(d: Seq<Seq<char>>, b: Seq<Seq<char>>)
    requires
        forall|i: int| 0 <= i < b.len() ==> d.contains(#[trigger] b[i]),
    ensures
        dedup(d + b) == dedup(d),
    decreases b.len(),
{
    if b.len() == 0 {
        assert(d + b =~= d);
    } else {
        let s = d + b;
        assert(s.drop_last() =~= d + b.drop_last());
        assert(s.last() == b[b.len() - 1]);
        let j = choose|j: int| 0 <= j < d.len() && d[j] == b[b.len() - 1];
        assert(s.drop_last()[j] == s.last());
        lemma_dedup_absorbs(d, b.drop_last());
    }
}

/// Merging the same values a second time changes nothing, and merging no
/// values only drops the repeated ones.
pub proof fn law_merge_values_idempotent(current: Seq<Seq<char>>, values: Seq<Seq<char>>)
    ensures
        dedup(dedup(current + values) + values) == dedup(current + values),
        dedup(current + Seq::<Seq<char>>::empty()) == dedup(current),
{
    let d = dedup(current + values);
    lemma_dedup(current + values);
    assert forall|i: int| 0 <= i < values.len() implies d.contains(#[trigger] values[i]) by {
        assert((current + values)[current.len() + i] == values[i]);
        assert((current + values).contains(values[i]));
    }
    lemma_dedup_absorbs(d, values);
    lemma_dedup_of_distinct(d);
    assert(current + Seq::<Seq<char>>::empty() =~= current);
}

impl UciOption {
    /// An option named `name` of type `opt_type` holding `values`.
    pub fn new(name: String, opt_type: UciOptionType, values: Vec<String>) -> (o: UciOption)
        ensures
            o.name == name,
            o.values == values,
            o.opt_type == opt_type,
    {
        UciOption { name: name, opt_type: opt_type, values: values }
    }

    /// Replaces the values; name and type stay.
    pub fn set_values(&mut self, values: Vec<String>)
        ensures
            final(self).name == old(self).name,
            final(self).opt_type == old(self).opt_type,
            final(self).values == values,
    {
        self.values = values;
    }

    /// Appends one value.
    pub fn add_values(&mut self, value: String)
        ensures
            final(self).name == old(self).name,
            final(self).opt_type == old(self).opt_type,
            final(self).values@ == old(self).values@.push(value),
    {
        self.values.push(value);
    }

    /// Replaces the values by the set of the old and the given values: each
    /// value is kept once, at its first occurrence in the old values followed
    /// by the given ones.
    pub fn merge_values(&mut self, values: Vec<String>)
        ensures
            final(self).name == old(self).name,
            final(self).opt_type == old(self).opt_type,
            final(self)@.values == dedup(old(self)@.values + views(values@)),
    {
        let mut all = copy_strings(&self.values);
        let ghost old_vals = views(self.values@);
        let mut k: usize = 0;
        while k < values.len()
            invariant
                k <= values@.len(),
                views(all@) == old_vals + views(values@).take(k as int),
            decreases values@.len() - k,
        {
            let ghost old_all = all@;
            let c = values[k].clone();
            all.push(c);
            proof {
                crate::text::lemma_views_push(old_all, c);
            }
            assert(views(all@) =~= old_vals + views(values@).take(k + 1));
            k = k + 1;
        }
        assert(views(values@).take(k as int) =~= views(values@));
        let ghost combined = views(all@);
        let mut result: Vec<String> = Vec::new();
        let mut i: usize = 0;
        while i < all.len()
            invariant
                i <= all@.len(),
                combined == views(all@),
                views(result@) == dedup(combined.take(i as int)),
            decreases all@.len() - i,
        {
            let ghost pre = combined.take(i as int);
            assert(combined.take(i + 1).drop_last() =~= pre);
            assert(combined.take(i + 1).last() == all@[i as int]@);
            proof {
                lemma_dedup(pre);
            }
            if !contains_string(&result, &all[i]) {
                let ghost old_result = result@;
                let c = all[i].clone();
                result.push(c);
                proof {
                    crate::text::lemma_views_push(old_result, c);
                }
                assert(views(result@) =~= dedup(pre).push(all@[i as int]@));
            }
            i = i + 1;
        }
        assert(combined.take(i as int) =~= combined);
        self.values = result;
    }
}

} // verus!

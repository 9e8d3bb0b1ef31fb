//! A UCI config: a named list of sections, with lookup by name or by
//! `@type[index]` selectors.

use vstd::prelude::*;
use vstd::utf8::encode_utf8;

use crate::search::{first_index, lemma_first_index, lemma_first_index_found};
use crate::storage::uci::uci_option::{OptionView, UciOption, UciOptionType};
use crate::storage::uci::uci_section::{merged_options, option_views, SectionView, UciSection};
use crate::text::{
    chars_of, decimal, int_error_text, parse_i32, parse_i32_spec, str_eq, string_from_chars,
    usize_to_decimal, utf8_len_at_least, views, IntErrorKind,
};
use crate::utils::error::{error_from_str, Error};

verus! {

/// A config file's contents; `modified` marks unsaved changes.
#[derive(Debug)]
pub struct UciConfig {
    pub name: String,
    pub sections: Vec<UciSection>,
    pub modified: bool,
}

/// What a config holds, as mathematical values.
pub struct ConfigView {
    pub name: Seq<char>,
    pub sections: Seq<SectionView>,
    pub modified: bool,
}

/// The views of a sequence of sections.
pub open spec fn section_views(s: Seq<UciSection>) -> Seq<SectionView> {
    s.map_values(|x: UciSection| x@)
}

impl View for UciConfig {
    type V = ConfigView;

    open spec fn view(&self) -> ConfigView {
        ConfigView { name: self.name@, sections: section_views(self.sections@), modified: self.modified }
    }
}

/// Holds of the sections named `name`.
pub open spec fn section_named(name: Seq<char>) -> spec_fn(SectionView) -> bool {
    |s: SectionView| s.name == name
}

/// Holds of the sections equal to `sec`.
pub open spec fn section_equal(sec: SectionView) -> spec_fn(SectionView) -> bool {
    |s: SectionView| s == sec
}

/// How many of `secs` have type `t`.
pub open spec fn count_type(secs: Seq<SectionView>, t: Seq<char>) -> nat
    decreases secs.len(),
{
    if secs.len() == 0 {
        0
    } else {
        count_type(secs.drop_last(), t) + if secs.last().sec_type == t { 1nat } else { 0nat }
    }
}

/// The position in `secs` of the section of type `t` that has `n` sections of
/// that type before it.
pub open spec fn nth_of_type(secs: Seq<SectionView>, t: Seq<char>, n: int) -> Option<int>
    decreases secs.len(),
{
    if secs.len() == 0 {
        None
    } else if secs.last().sec_type == t && count_type(secs.drop_last(), t) == n {
        Some(secs.len() - 1)
    } else {
        nth_of_type(secs.drop_last(), t, n)
    }
}

pub open spec fn msg_too_short() -> Seq<char> {
    "implausible section selector: must be at least 5 characters long"@
}

pub open spec fn msg_no_at() -> Seq<char> {
    "invalid syntax: section selector must start with @ sign"@
}

pub open spec fn msg_many_at() -> Seq<char> {
    "invalid syntax: multiple @ signs found"@
}

pub open spec fn msg_many_open() -> Seq<char> {
    "invalid syntax: multiple open brackets found"@
}

pub open spec fn msg_many_closed() -> Seq<char> {
    "invalid syntax: multiple closed brackets found"@
}

pub open spec fn msg_format() -> Seq<char> {
    "invalid syntax: section selector must have format '@type[index]'"@
}

pub open spec fn msg_not_numeric() -> Seq<char> {
    "invalid syntax: index must be numeric: "@
}

pub open spec fn msg_out_of_bounds() -> Seq<char> {
    "invalid name: index out of bounds"@
}

/// The scan of the first `k` characters of a selector: the first syntax error
/// met, and the position of the open bracket seen (0 when none).
pub open spec fn selector_scan(s: Seq<char>, k: int) -> (Option<Seq<char>>, int)
    decreases k,
{
    if k <= 0 {
        (None, 0)
    } else {
        let (e, bra) = selector_scan(s, k - 1);
        let i = k - 1;
        let r = s[i];
        if e is Some {
            (e, bra)
        } else if i != 0 && r == '@' {
            (Some(msg_many_at()), bra)
        } else if bra > 0 && r == '[' {
            (Some(msg_many_open()), bra)
        } else if i != s.len() - 1 && r == ']' {
            (Some(msg_many_closed()), bra)
        } else if r == '[' {
            (None, i)
        } else {
            (None, bra)
        }
    }
}

/// Whether the splitting of selector `s` passes every syntax check and goes
/// on to read the index between the open bracket and the last character.
pub open spec fn selector_reaches_index(s: Seq<char>) -> bool {
    let (e, bra) = selector_scan(s, s.len() as int);
    &&& encode_utf8(s).len() >= 5
    &&& s[0] == '@'
    &&& e is None
    &&& 0 < bra < s.len() - 1
}

/// Splits a selector `@type[index]` into its type and its index. The length
/// check counts UTF-8 bytes; the index stops before the last character,
/// whatever that character is.
pub open spec fn unmangle_spec(s: Seq<char>) -> Result<(Seq<char>, i32), Seq<char>> {
    let (e, bra) = selector_scan(s, s.len() as int);
    if encode_utf8(s).len() < 5 {
        Err(msg_too_short())
    } else if s[0] != '@' {
        Err(msg_no_at())
    } else if e is Some {
        Err(e->0)
    } else if bra == 0 || bra >= s.len() - 1 {
        Err(msg_format())
    } else {
        match parse_i32_spec(s.subrange(bra + 1, s.len() - 1)) {
            Ok(n) => Ok((s.subrange(1, bra), n)),
            Err(k) => Err(msg_not_numeric() + int_error_text(k)),
        }
    }
}

/// The selectors whose splitting does not cut a UTF-8 character apart: when
/// the index is read, the last character is ASCII.
pub open spec fn selector_well_cut(s: Seq<char>) -> bool {
    selector_reaches_index(s) ==> (s.last() as u32) <= 0x7F
}

/// Once the scan has met an error, it keeps it.
proof fn lemma_scan_error_persists(s: Seq<char>, k: int, n: int)
    requires
        0 <= k <= n,
        selector_scan(s, k).0 is Some,
    ensures
        selector_scan(s, n).0 == selector_scan(s, k).0,
    decreases n - k,
{
    if n > k {
        lemma_scan_error_persists(s, k, n - 1);
    }
}

/// Whether `name` is a `@type[index]` selector rather than a section name.
pub open spec fn is_selector(name: Seq<char>) -> bool {
    name.len() > 0 && name[0] == '@'
}

/// What `get` finds: the position of the section, nothing, or an error message.
pub open spec fn lookup_spec(secs: Seq<SectionView>, name: Seq<char>) -> Result<Option<int>, Seq<char>> {
    if is_selector(name) {
        match unmangle_spec(name) {
            Err(m) => Err(m),
            Ok((t, k)) => {
                let c = count_type(secs, t);
                let idx = if k >= 0 { k as int } else { c + k };
                if idx < 0 || idx >= c {
                    Err(msg_out_of_bounds())
                } else {
                    Ok(nth_of_type(secs, t, idx))
                }
            },
        }
    } else {
        Ok(first_index(secs, section_named(name)))
    }
}

/// The inputs on which `get` does not panic: a selector must not cut a
/// UTF-8 character apart, and the section count must fit the `i32` that the
/// index is computed in.
pub open spec fn lookup_defined(secs: Seq<SectionView>, name: Seq<char>) -> bool {
    is_selector(name) ==> secs.len() <= i32::MAX && selector_well_cut(name)
}



/// A type count never exceeds the number of sections.
pub proof fn lemma_count_type_bound(secs: Seq<SectionView>, t: Seq<char>)
    ensures
        count_type(secs, t) <= secs.len(),
    decreases secs.len(),
{
    if secs.len() > 0 {
        lemma_count_type_bound(secs.drop_last(), t);
    }
}

/// Counting over a prefix counts no more.
pub proof fn lemma_count_type_prefix(secs: Seq<SectionView>, t: Seq<char>, k: int)
    requires
        0 <= k <= secs.len(),
    ensures
        count_type(secs.take(k), t) <= count_type(secs, t),
    decreases secs.len(),
{
    if k < secs.len() {
        assert(secs.drop_last().take(k) =~= secs.take(k));
        lemma_count_type_prefix(secs.drop_last(), t, k);
    } else {
        assert(secs.take(k) =~= secs);
    }
}

/// What `nth_of_type` finds is a section of that type with `n` of its type before it.
pub proof fn lemma_nth_of_type_found(secs: Seq<SectionView>, t: Seq<char>, n: int)
    ensures
        nth_of_type(secs, t, n) matches Some(g) ==> 0 <= g < secs.len() && secs[g].sec_type == t
            && count_type(secs.take(g), t) == n,
    decreases secs.len(),
{
    if secs.len() > 0 {
        let p = secs.drop_last();
        if secs.last().sec_type == t && count_type(p, t) == n {
            assert(secs.take(secs.len() - 1) =~= p);
        } else {
            lemma_nth_of_type_found(p, t, n);
            if let Some(g) = nth_of_type(p, t, n) {
                assert(p.take(g) =~= secs.take(g));
            }
        }
    }
}

/// A section found in a prefix is also what is found in the whole.
pub proof fn lemma_nth_of_type_extends(secs: Seq<SectionView>, t: Seq<char>, n: int, k: int)
    requires
        0 <= k <= secs.len(),
        nth_of_type(secs.take(k), t, n) is Some,
    ensures
        nth_of_type(secs, t, n) == nth_of_type(secs.take(k), t, n),
    decreases secs.len() - k,
{
    if k == secs.len() {
        assert(secs.take(k) =~= secs);
    } else {
        let p = secs.drop_last();
        assert(p.take(k) =~= secs.take(k));
        lemma_nth_of_type_extends(p, t, n, k);
        let g = nth_of_type(p, t, n)->0;
        lemma_nth_of_type_found(p, t, n);
        assert(p.take(g + 1).drop_last() =~= p.take(g));
        assert(p.take(g + 1).last() == p[g]);
        lemma_count_type_prefix(p, t, g + 1);
    }
}


/// The position of `sec` among the sections of its type: how many sections of
/// that type come before the first section equal to it.
pub open spec fn type_index_spec(secs: Seq<SectionView>, sec: SectionView) -> Option<int> {
    match first_index(secs, section_equal(sec)) {
        Some(g) => Some(count_type(secs.take(g), sec.sec_type) as int),
        None => None,
    }
}

/// `get_section_name`: the name, or for an unnamed section `type[position]`
/// with its position among all sections.
pub open spec fn display_name(secs: Seq<SectionView>, sec: SectionView) -> Seq<char> {
    if sec.name.len() > 0 {
        sec.name
    } else {
        sec.sec_type + "["@ + decimal(first_index(secs, section_equal(sec))->0 as nat) + "]"@
    }
}

/// `section_name`: the name, or for an unnamed section the selector
/// `@type[index]` with its position among the sections of its type.
pub open spec fn selector_name(secs: Seq<SectionView>, sec: SectionView) -> Seq<char> {
    if sec.name.len() > 0 {
        sec.name
    } else {
        "@"@ + sec.sec_type + "["@ + decimal(type_index_spec(secs, sec)->0 as nat) + "]"@
    }
}

/// Holds of the sections whose `get_section_name` is `n`.
pub open spec fn displayed_as(secs: Seq<SectionView>, n: Seq<char>) -> spec_fn(SectionView) -> bool {
    |x: SectionView| display_name(secs, x) == n
}

/// The options after merging each of `os` in turn.
pub open spec fn merge_all(acc: Seq<OptionView>, os: Seq<OptionView>) -> Seq<OptionView>
    decreases os.len(),
{
    if os.len() == 0 {
        acc
    } else {
        merged_options(merge_all(acc, os.drop_last()), os.last())
    }
}

/// The position of the section that `merge` of `sec` merges into: the first
/// section shown under the same name as `sec`; nothing when there is none
/// (and then `sec` is appended).
pub open spec fn merge_target(secs: Seq<SectionView>, sec: SectionView) -> Option<int> {
    if secs.len() == 0 {
        None
    } else {
        first_index(secs, displayed_as(secs, display_name(secs, sec)))
    }
}

/// The sections before the options are merged: unchanged, or with `sec` appended.
pub open spec fn merge_base(secs: Seq<SectionView>, sec: SectionView) -> Seq<SectionView> {
    match merge_target(secs, sec) {
        Some(i) => secs,
        None => secs.push(sec),
    }
}

/// Where the merged section stands after `merge` of `sec`.
pub open spec fn merge_pos(secs: Seq<SectionView>, sec: SectionView) -> int {
    match merge_target(secs, sec) {
        Some(i) => i,
        None => secs.len() as int,
    }
}

/// The sections after `merge` of `sec`: the target section (or `sec` itself,
/// appended) has each of its own options merged into it in turn.
pub open spec fn merged_sections(secs: Seq<SectionView>, sec: SectionView) -> Seq<SectionView> {
    let s1 = merge_base(secs, sec);
    let t = merge_pos(secs, sec);
    s1.update(t, SectionView { options: merge_all(s1[t].options, s1[t].options), ..s1[t] })
}

/// The inputs on which `merge` does not panic: an unnamed section must be one
/// of the config's own, unless the config has no section.
pub open spec fn merge_defined(secs: Seq<SectionView>, sec: SectionView) -> bool {
    secs.len() > 0 && sec.name.len() == 0 ==> first_index(secs, section_equal(sec)) is Some
}

/// A copy of an option with the same name, values and type.
pub fn copy_option(o: &UciOption) -> (r: UciOption)
    ensures
        r@ == o@,
{
    UciOption { name: o.name.clone(), values: crate::text::copy_strings(&o.values), opt_type: o.opt_type }
}

/// Copies of each option.
pub fn copy_options(v: &Vec<UciOption>) -> (r: Vec<UciOption>)
    ensures
        option_views(r@) == option_views(v@),
{
    let mut r: Vec<UciOption> = Vec::new();
    let mut i: usize = 0;
    while i < v.len()
        invariant
            i <= v@.len(),
            option_views(r@) == option_views(v@).take(i as int),
        decreases v@.len() - i,
    {
        let c = copy_option(&v[i]);
        let ghost old_r = r@;
        r.push(c);
        proof {
            crate::storage::uci::uci_section::lemma_option_views_push(old_r, c);
        }
        assert(option_views(r@) =~= option_views(v@).take(i + 1));
        i = i + 1;
    }
    assert(option_views(v@).take(i as int) =~= option_views(v@));
    r
}


/// The lines `\tlist name 'value'` of a list option, one per value.
pub open spec fn list_text(name: Seq<char>, values: Seq<Seq<char>>) -> Seq<char>
    decreases values.len(),
{
    if values.len() == 0 {
        Seq::empty()
    } else {
        list_text(name, values.drop_last()) + "\tlist "@ + name + " '"@ + values.last() + "'\n"@
    }
}

/// The text of an option: `\toption name 'value'` with its first value, or
/// one `list` line per value.
pub open spec fn option_text(o: OptionView) -> Seq<char> {
    match o.opt_type {
        UciOptionType::TypeOption => "\toption "@ + o.name + " '"@ + o.values[0] + "'\n"@,
        UciOptionType::TypeList => list_text(o.name, o.values),
    }
}

/// The text of a sequence of options.
pub open spec fn options_text(os: Seq<OptionView>) -> Seq<char>
    decreases os.len(),
{
    if os.len() == 0 {
        Seq::empty()
    } else {
        options_text(os.drop_last()) + option_text(os.last())
    }
}

/// The header line of a section, `config type` or `config type 'name'`, after a blank line.
pub open spec fn section_header(s: SectionView) -> Seq<char> {
    if s.name.len() == 0 {
        "\nconfig "@ + s.sec_type + "\n"@
    } else {
        "\nconfig "@ + s.sec_type + " '"@ + s.name + "'\n"@
    }
}

/// The text of a sequence of sections.
pub open spec fn sections_text(secs: Seq<SectionView>) -> Seq<char>
    decreases secs.len(),
{
    if secs.len() == 0 {
        Seq::empty()
    } else {
        sections_text(secs.drop_last()) + section_header(secs.last()) + options_text(secs.last().options)
    }
}

/// The text that `write_in` writes for a config: its sections, then a newline.
pub open spec fn config_text(c: ConfigView) -> Seq<char> {
    sections_text(c.sections) + "\n"@
}

/// The configs that `write_in` can write: every single-value option has a value.
pub open spec fn writable(c: ConfigView) -> bool {
    forall|i: int, j: int|
        0 <= i < c.sections.len() && 0 <= j < c.sections[i].options.len()
            && c.sections[i].options[j].opt_type == UciOptionType::TypeOption
            ==> #[trigger] c.sections[i].options[j].values.len() > 0
}


/// What `get` finds is one of the sections.
pub proof fn lemma_lookup_in_range(secs: Seq<SectionView>, name: Seq<char>)
    ensures
        lookup_spec(secs, name) matches Ok(Some(i)) ==> 0 <= i < secs.len(),
{
    lemma_first_index_found(secs, section_named(name));
    if let Ok((t, k)) = unmangle_spec(name) {
        let c = count_type(secs, t);
        let idx = if k >= 0 { k as int } else { c + k };
        lemma_nth_of_type_found(secs, t, idx);
    }
}

fn text_error(k: IntErrorKind) -> (m: String)
    ensures
        m@ == int_error_text(k),
{
    match k {
        IntErrorKind::Empty => "cannot parse integer from empty string".to_owned(),
        IntErrorKind::InvalidDigit => "invalid digit found in string".to_owned(),
        IntErrorKind::PosOverflow => "number too large to fit in target type".to_owned(),
        IntErrorKind::NegOverflow => "number too small to fit in target type".to_owned(),
    }
}

impl UciConfig {
    /// An empty, unmodified config named `name`.
    pub fn new(name: String) -> (c: UciConfig)
        ensures
            c.name == name,
            c@.sections.len() == 0,
            !c.modified,
    {
        UciConfig { name: name, sections: Vec::new(), modified: false }
    }

    /// Splits a selector `@type[index]` into its type and its index.
    fn _unmangle_section_name(&self, section_name: &str) -> (r: Result<(String, i32), Error>)
        requires
            selector_well_cut(section_name@),
        ensures
            match (r, unmangle_spec(section_name@)) {
                (Ok((t, n)), Ok((st, sn))) => t@ == st && n == sn,
                (Err(e), Err(m)) => e.message@ == m,
                _ => false,
            },
    {
        let ghost s = section_name@;
        let chars = chars_of(section_name);
        if !utf8_len_at_least(&chars, 5) {
            return Err(error_from_str("implausible section selector: must be at least 5 characters long"));
        }
        if chars.len() == 0 {
            assert(encode_utf8(s).len() == 0);
            return Err(error_from_str("implausible section selector: must be at least 5 characters long"));
        }
        if chars[0] != '@' {
            return Err(error_from_str("invalid syntax: section selector must start with @ sign"));
        }
        let len = chars.len();
        let ket = len - 1;
        let mut bra: usize = 0;
        let mut i: usize = 0;
        while i < len
            invariant
                chars@ == s,
                s == section_name@,
                encode_utf8(s).len() >= 5,
                s[0] == '@',
                len == s.len(),
                ket == len - 1,
                i <= len,
                selector_scan(s, i as int) == (None::<Seq<char>>, bra as int),
                bra < len,
            decreases len - i,
        {
            let r = chars[i];
            if i != 0 && r == '@' {
                proof { lemma_scan_error_persists(s, i + 1, len as int); }
                return Err(error_from_str("invalid syntax: multiple @ signs found"));
            }
            if bra > 0 && r == '[' {
                proof { lemma_scan_error_persists(s, i + 1, len as int); }
                return Err(error_from_str("invalid syntax: multiple open brackets found"));
            }
            if i != ket && r == ']' {
                proof { lemma_scan_error_persists(s, i + 1, len as int); }
                return Err(error_from_str("invalid syntax: multiple closed brackets found"));
            }
            if r == '[' {
                bra = i;
            }
            i = i + 1;
        }
        if bra == 0 || bra >= ket {
            return Err(error_from_str("invalid syntax: section selector must have format '@type[index]'"));
        }
        let sec_type = string_from_chars(&chars, 1, bra);
        match parse_i32(&chars, bra + 1, ket) {
            Ok(n) => Ok((sec_type, n)),
            Err(k) => {
                let mut m = "invalid syntax: index must be numeric: ".to_owned();
                let t = text_error(k);
                m.append(t.as_str());
                Err(Error::new(m))
            },
        }
    }

    /// How many sections have type `sec_type`.
    fn _count(&self, sec_type: &str) -> (n: usize)
        ensures
            n == count_type(self@.sections, sec_type@),
    {
        let ghost secs = self@.sections;
        let mut n: usize = 0;
        let mut i: usize = 0;
        while i < self.sections.len()
            invariant
                secs == self@.sections,
                i <= secs.len(),
                n == count_type(secs.take(i as int), sec_type@),
            decreases secs.len() - i,
        {
            proof {
                assert(secs.take(i + 1).drop_last() =~= secs.take(i as int));
                lemma_count_type_bound(secs.take(i as int), sec_type@);
            }
            if str_eq(self.sections[i].sec_type.as_str(), sec_type) {
                n = n + 1;
            }
            i = i + 1;
        }
        assert(secs.take(i as int) =~= secs);
        n
    }

    /// The position of the section of type `sec_type` that has `n` sections of
    /// its type before it.
    fn position_of_type(&self, sec_type: &str, n: usize) -> (g: usize)
        requires
            n < count_type(self@.sections, sec_type@),
        ensures
            nth_of_type(self@.sections, sec_type@, n as int) == Some(g as int),
            g < self@.sections.len(),
    {
        let ghost secs = self@.sections;
        let ghost t = sec_type@;
        let mut cnt: usize = 0;
        let mut i: usize = 0;
        while i < self.sections.len()
            invariant
                secs == self@.sections,
                t == sec_type@,
                n < count_type(secs, t),
                i <= secs.len(),
                cnt <= n,
                cnt == count_type(secs.take(i as int), t),
                nth_of_type(secs.take(i as int), t, n as int) is None,
            decreases secs.len() - i,
        {
            proof {
                assert(secs.take(i + 1).drop_last() =~= secs.take(i as int));
                assert(secs.take(i + 1).last() == secs[i as int]);
            }
            if str_eq(self.sections[i].sec_type.as_str(), sec_type) {
                if cnt == n {
                    proof {
                        lemma_nth_of_type_extends(secs, t, n as int, i + 1);
                    }
                    return i;
                }
                cnt = cnt + 1;
            }
            i = i + 1;
        }
        assert(secs.take(i as int) =~= secs);
        proof {
            assert(false);
        }
        0
    }

    /// The first section named `name`.
    fn _get_named(&self, name: &str) -> (r: Option<usize>)
        ensures
            match r {
                Some(i) => first_index(self@.sections, section_named(name@)) == Some(i as int)
                    && i < self@.sections.len(),
                None => first_index(self@.sections, section_named(name@)) is None,
            },
    {
        let mut i: usize = 0;
        while i < self.sections.len()
            invariant
                i <= self@.sections.len(),
                forall|j: int| 0 <= j < i ==> !section_named(name@)(#[trigger] self@.sections[j]),
            decreases self@.sections.len() - i,
        {
            if str_eq(self.sections[i].name.as_str(), name) {
                proof {
                    lemma_first_index(self@.sections, section_named(name@), i as int);
                }
                return Some(i);
            }
            i = i + 1;
        }
        proof {
            lemma_first_index(self@.sections, section_named(name@), i as int);
        }
        None
    }

    /// The section that selector `name` points at.
    fn _get_unnamed(&self, name: &str) -> (r: Result<Option<usize>, Error>)
        requires
            is_selector(name@),
            lookup_defined(self@.sections, name@),
        ensures
            match (r, lookup_spec(self@.sections, name@)) {
                (Ok(Some(i)), Ok(Some(j))) => i == j && i < self@.sections.len(),
                (Err(e), Err(m)) => e.message@ == m,
                _ => false,
            },
    {
        let (sec_type, sec_index) = self._unmangle_section_name(name)?;
        let count = self._count(sec_type.as_str());
        proof {
            lemma_count_type_bound(self@.sections, sec_type@);
        }
        let index: i32 = if sec_index >= 0 { sec_index } else { count as i32 + sec_index };
        if index < 0 || index >= count as i32 {
            return Err(error_from_str("invalid name: index out of bounds"));
        }
        Ok(Some(self.position_of_type(sec_type.as_str(), index as usize)))
    }

    /// The position of the section that `name` designates: a selector
    /// `@type[index]` (negative indexes count from the end), or a section name.
    pub fn find(&self, name: &str) -> (r: Result<Option<usize>, Error>)
        requires
            lookup_defined(self@.sections, name@),
        ensures
            match (r, lookup_spec(self@.sections, name@)) {
                (Ok(Some(i)), Ok(Some(j))) => i == j && i < self@.sections.len(),
                (Ok(None), Ok(None)) => true,
                (Err(e), Err(m)) => e.message@ == m,
                _ => false,
            },
    {
        let chars = chars_of(name);
        if chars.len() > 0 && chars[0] == '@' {
            self._get_unnamed(name)
        } else {
            Ok(self._get_named(name))
        }
    }

    /// The section that `name` designates: a selector `@type[index]` (negative
    /// indexes count from the end), or a section name.
    pub fn get(&self, name: &str) -> (r: Result<Option<&UciSection>, Error>)
        requires
            lookup_defined(self@.sections, name@),
        ensures
            match (r, lookup_spec(self@.sections, name@)) {
                (Ok(Some(sec)), Ok(Some(j))) => sec@ == self@.sections[j],
                (Ok(None), Ok(None)) => true,
                (Err(e), Err(m)) => e.message@ == m,
                _ => false,
            },
    {
        match self.find(name) {
            Ok(Some(i)) => Ok(Some(&self.sections[i])),
            Ok(None) => Ok(None),
            Err(e) => Err(e),
        }
    }

    /// Appends a section and returns it.
    pub fn add(&mut self, section: UciSection) -> (r: &UciSection)
        ensures
            final(self)@ == (ConfigView { sections: old(self)@.sections.push(section@), ..old(self)@ }),
            r@ == section@,
    {
        self.sections.push(section);
        assert(self@.sections =~= old(self)@.sections.push(section@));
        let last = self.sections.len() - 1;
        &self.sections[last]
    }

    /// The position of the first section equal to `section`.
    fn _index(&self, section: &UciSection) -> (g: usize)
        requires
            first_index(self@.sections, section_equal(section@)) is Some,
        ensures
            first_index(self@.sections, section_equal(section@)) == Some(g as int),
    {
        let mut i: usize = 0;
        proof {
            lemma_first_index_found(self@.sections, section_equal(section@));
        }
        while i < self.sections.len()
            invariant
                i <= self@.sections.len(),
                first_index(self@.sections, section_equal(section@)) is Some,
                forall|j: int| 0 <= j < i ==> !section_equal(section@)(#[trigger] self@.sections[j]),
            decreases self@.sections.len() - i,
        {
            if self.sections[i].same_as(section) {
                proof {
                    lemma_first_index(self@.sections, section_equal(section@), i as int);
                }
                return i;
            }
            i = i + 1;
        }
        proof {
            lemma_first_index(self@.sections, section_equal(section@), i as int);
        }
        0
    }

    /// The section's name, or for an unnamed section `type[position]`, its
    /// position counted among all sections.
    pub fn get_section_name(&self, section: &UciSection) -> (n: String)
        requires
            section@.name.len() == 0 ==> first_index(self@.sections, section_equal(section@)) is Some,
        ensures
            n@ == display_name(self@.sections, section@),
    {
        if !section.name.as_str().is_empty() {
            return section.name.clone();
        }
        let g = self._index(section);
        let mut n = section.sec_type.clone();
        n.append("[");
        let d = usize_to_decimal(g);
        n.append(d.as_str());
        n.append("]");
        n
    }

    /// The position of `section` among the sections of its type, if it is one
    /// of the config's sections.
    pub fn index(&self, section: &UciSection) -> (r: Option<usize>)
        ensures
            match r {
                Some(k) => type_index_spec(self@.sections, section@) == Some(k as int),
                None => type_index_spec(self@.sections, section@) is None,
            },
    {
        let ghost secs = self@.sections;
        let mut cnt: usize = 0;
        let mut i: usize = 0;
        while i < self.sections.len()
            invariant
                secs == self@.sections,
                i <= secs.len(),
                cnt == count_type(secs.take(i as int), section@.sec_type),
                forall|j: int| 0 <= j < i ==> !section_equal(section@)(#[trigger] secs[j]),
            decreases secs.len() - i,
        {
            proof {
                assert(secs.take(i + 1).drop_last() =~= secs.take(i as int));
                lemma_count_type_bound(secs.take(i as int), section@.sec_type);
            }
            if self.sections[i].same_as(section) {
                proof {
                    lemma_first_index(secs, section_equal(section@), i as int);
                }
                return Some(cnt);
            }
            if str_eq(self.sections[i].sec_type.as_str(), section.sec_type.as_str()) {
                cnt = cnt + 1;
            }
            i = i + 1;
        }
        proof {
            lemma_first_index(secs, section_equal(section@), i as int);
        }
        None
    }

    /// The section's name, or for an unnamed section the selector
    /// `@type[index]` that designates it.
    pub fn section_name(&self, section: &UciSection) -> (n: String)
        requires
            section@.name.len() == 0 ==> first_index(self@.sections, section_equal(section@)) is Some,
        ensures
            n@ == selector_name(self@.sections, section@),
    {
        if !section.name.as_str().is_empty() {
            return section.name.clone();
        }
        let k = match self.index(section) {
            Some(k) => k,
            None => {
                proof {
                    assert(false);
                }
                0
            },
        };
        let mut n = "@".to_owned();
        n.append(section.sec_type.as_str());
        n.append("[");
        let d = usize_to_decimal(k);
        n.append(d.as_str());
        n.append("]");
        n
    }

    /// Removes the first section named `name`.
    pub fn del(&mut self, name: &str)
        requires
            first_index(old(self)@.sections, section_named(name@)) is Some,
        ensures
            final(self)@ == (ConfigView {
                sections: old(self)@.sections.remove(first_index(old(self)@.sections, section_named(name@))->0),
                ..old(self)@
            }),
    {
        match self._get_named(name) {
            Some(i) => {
                let ghost before = self@.sections;
                self.sections.remove(i);
                assert(self@.sections =~= before.remove(i as int));
            },
            None => {},
        }
    }

    /// The first section whose `get_section_name` is `key`.
    fn find_displayed(&self, key: &String) -> (r: Option<usize>)
        ensures
            match r {
                Some(i) => first_index(self@.sections, displayed_as(self@.sections, key@)) == Some(i as int)
                    && i < self@.sections.len(),
                None => first_index(self@.sections, displayed_as(self@.sections, key@)) is None,
            },
    {
        let ghost secs = self@.sections;
        let mut i: usize = 0;
        while i < self.sections.len()
            invariant
                secs == self@.sections,
                i <= secs.len(),
                forall|j: int| 0 <= j < i ==> !displayed_as(secs, key@)(#[trigger] secs[j]),
            decreases secs.len() - i,
        {
            proof {
                assert(section_equal(secs[i as int])(secs[i as int]));
                lemma_first_index_found(secs, section_equal(secs[i as int]));
            }
            let n = self.get_section_name(&self.sections[i]);
            if n == *key {
                proof {
                    lemma_first_index(secs, displayed_as(secs, key@), i as int);
                }
                return Some(i);
            }
            i = i + 1;
        }
        proof {
            lemma_first_index(secs, displayed_as(secs, key@), i as int);
        }
        None
    }

    /// Merges `section` into the config: the first section shown under the
    /// same `get_section_name` (or `section` itself, appended when there is
    /// none) has each of its own options merged into it; returns that section.
    pub fn merge(&mut self, section: UciSection) -> (r: &UciSection)
        requires
            merge_defined(old(self)@.sections, section@),
        ensures
            final(self)@ == (ConfigView { sections: merged_sections(old(self)@.sections, section@), ..old(self)@ }),
            r@ == merged_sections(old(self)@.sections, section@)[merge_pos(old(self)@.sections, section@)],
    {
        let ghost secs = self@.sections;
        let ghost sec = section@;
        let mut target: Option<usize> = None;
        if self.sections.len() > 0 {
            let key = self.get_section_name(&section);
            target = self.find_displayed(&key);
        }
        let t = match target {
            Some(i) => i,
            None => {
                self.sections.push(section);
                assert(self@.sections =~= secs.push(sec));
                self.sections.len() - 1
            },
        };
        let ghost s1 = self@.sections;
        assert(s1 == merge_base(secs, sec));
        assert(t as int == merge_pos(secs, sec));
        let snapshot = copy_options(&self.sections[t].options);
        let ghost snap = option_views(snapshot@);
        let mut k: usize = 0;
        while k < snapshot.len()
            invariant
                t < s1.len(),
                self.sections@.len() == s1.len(),
                snap == s1[t as int].options,
                snap == option_views(snapshot@),
                k <= snapshot@.len(),
                self.name == old(self).name,
                self.modified == old(self).modified,
                self@.sections == s1.update(
                    t as int,
                    SectionView { options: merge_all(snap, snap.take(k as int)), ..s1[t as int] },
                ),
            decreases snapshot@.len() - k,
        {
            let o = copy_option(&snapshot[k]);
            assert(o@ == snap[k as int]);
            let ghost ov = o@;
            let ghost before = self@.sections;
            let ghost before_exec = self.sections@;
            self.sections[t].merge(o);
            proof {
                assert(snap.take(k + 1).drop_last() =~= snap.take(k as int));
                assert(snap.take(k + 1).last() == snap[k as int]);
                assert(merge_all(snap, snap.take(k + 1)) == merged_options(merge_all(snap, snap.take(k as int)), ov));
                assert(self@.sections[t as int] == self.sections@[t as int]@);
                assert(before[t as int] == before_exec[t as int]@);
                assert(before[t as int].options == merge_all(snap, snap.take(k as int)));
                assert(self@.sections[t as int].options == merge_all(snap, snap.take(k + 1)));
                assert(self@.sections[t as int].name == s1[t as int].name);
                assert(self@.sections[t as int].sec_type == s1[t as int].sec_type);
                assert forall|j: int| 0 <= j < before.len() && j != t implies self@.sections[j] == before[j] by {
                    assert(self.sections@[j] == before_exec[j]);
                }
            }
            proof {
                let target = s1.update(
                    t as int,
                    SectionView { options: merge_all(snap, snap.take(k + 1)), ..s1[t as int] },
                );
                assert(self@.sections.len() == target.len());
                assert forall|j: int| 0 <= j < target.len() implies self@.sections[j] == target[j] by {
                    if j != t {
                        assert(self@.sections[j] == before[j]);
                    }
                }
                assert(self@.sections =~= target);
            }
            k = k + 1;
        }
        assert(snap.take(k as int) =~= snap);
        assert(self@.sections =~= merged_sections(secs, sec));
        &self.sections[t]
    }

    /// Appends the config's text to `out`.
    pub fn write_in(&self, out: &mut String)
        requires
            writable(self@),
        ensures
            final(out)@ == old(out)@ + config_text(self@),
    {
        let ghost secs = self@.sections;
        let mut i: usize = 0;
        while i < self.sections.len()
            invariant
                secs == self@.sections,
                writable(self@),
                i <= secs.len(),
                out@ == old(out)@ + sections_text(secs.take(i as int)),
            decreases secs.len() - i,
        {
            let sec = &self.sections[i];
            let ghost before = out@;
            out.append("\nconfig ");
            out.append(sec.sec_type.as_str());
            if sec.name.as_str().is_empty() {
                out.append("\n");
            } else {
                out.append(" '");
                out.append(sec.name.as_str());
                out.append("'\n");
            }
            assert(out@ =~= before + section_header(secs[i as int]));
            let ghost os = secs[i as int].options;
            let mut j: usize = 0;
            while j < sec.options.len()
                invariant
                    sec@ == secs[i as int],
                    os == sec@.options,
                    i < secs.len(),
                    writable(self@),
                    secs == self@.sections,
                    j <= os.len(),
                    out@ == before + section_header(secs[i as int]) + options_text(os.take(j as int)),
                decreases os.len() - j,
            {
                let opt = &sec.options[j];
                let ghost before_opt = out@;
                assert(os[j as int] == opt@);
                match opt.opt_type {
                    UciOptionType::TypeOption => {
                        assert(opt@.values.len() > 0) by {
                            assert(self@.sections[i as int].options[j as int].values.len() > 0);
                        }
                        out.append("\toption ");
                        out.append(opt.name.as_str());
                        out.append(" '");
                        out.append(opt.values[0].as_str());
                        out.append("'\n");
                        assert(out@ =~= before_opt + option_text(opt@));
                    },
                    UciOptionType::TypeList => {
                        let ghost vals = opt@.values;
                        let mut k: usize = 0;
                        while k < opt.values.len()
                            invariant
                                vals == opt@.values,
                                k <= vals.len(),
                                out@ == before_opt + list_text(opt@.name, vals.take(k as int)),
                            decreases vals.len() - k,
                        {
                            let ghost before_v = out@;
                            out.append("\tlist ");
                            out.append(opt.name.as_str());
                            out.append(" '");
                            out.append(opt.values[k].as_str());
                            out.append("'\n");
                            assert(vals.take(k + 1).drop_last() =~= vals.take(k as int));
                            assert(out@ =~= before_opt + list_text(opt@.name, vals.take(k + 1)));
                            k = k + 1;
                        }
                        assert(vals.take(k as int) =~= vals);
                    },
                }
                assert(os.take(j + 1).drop_last() =~= os.take(j as int));
                assert(out@ =~= before + section_header(secs[i as int]) + options_text(os.take(j + 1)));
                j = j + 1;
            }
            assert(os.take(j as int) =~= os);
            assert(secs.take(i + 1).drop_last() =~= secs.take(i as int));
            assert(out@ =~= old(out)@ + sections_text(secs.take(i + 1)));
            i = i + 1;
        }
        assert(secs.take(i as int) =~= secs);
        out.append("\n");
    }
}

} // verus!

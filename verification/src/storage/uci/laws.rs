//! Laws of the configuration tree that relate several of its operations.

use vstd::prelude::*;

use crate::search::{first_index, lemma_first_index, lemma_first_index_congruent, lemma_first_index_found};
use crate::storage::uci::tree::{
    add_base, add_section_spec, commit_spec, sections_of_type, after_load, is_true_text, last_value_spec, load_spec, option_lookup_spec,
    set_option_spec, type_for, values_nonempty, values_spec, with_section, ConfigMap,
};
use crate::storage::uci::uci_config::{
    lemma_count_type_prefix, lemma_nth_of_type_extends, lookup_defined, section_equal, selector_name,
    selector_scan, selector_well_cut, type_index_spec, unmangle_spec,
    count_type, display_name, displayed_as, is_selector, lookup_spec, merge_base, merge_pos, merge_target,
    merged_sections, nth_of_type, section_named, UciConfig, config_text, merge_all, option_text, options_text,
    section_header, sections_text, ConfigView,
};
use crate::storage::uci::uci_option::{OptionView, UciOptionType};
use crate::storage::uci::uci_section::{merged_options, option_named, option_pos, SectionView};
use crate::text::{
    decimal, is_digit, lemma_decimal_digits, lemma_encode_utf8_len_at_least, lemma_parse_decimal,
    lemma_parse_signed_decimal, signed_decimal,
};
use crate::storage::uci::uci_option::{dedup, lemma_dedup};
use crate::utils::error::Error;
use vstd::utf8::encode_utf8;

verus! {

/// Sections with the same names and types, in the same order.
pub open spec fn same_shape(a: Seq<SectionView>, b: Seq<SectionView>) -> bool {
    a.len() == b.len() && forall|i: int| 0 <= i < a.len() ==> #[trigger] a[i].name == b[i].name && a[i].sec_type == b[i].sec_type
}

proof fn lemma_count_same_shape(a: Seq<SectionView>, b: Seq<SectionView>, t: Seq<char>)
    requires
        same_shape(a, b),
    ensures
        count_type(a, t) == count_type(b, t),
    decreases a.len(),
{
    if a.len() > 0 {
        assert(a.last().sec_type == b.last().sec_type) by {
            assert(a[a.len() - 1].name == b[a.len() - 1].name);
        }
        assert(same_shape(a.drop_last(), b.drop_last())) by {
            assert forall|i: int| 0 <= i < a.drop_last().len() implies #[trigger] a.drop_last()[i].name == b.drop_last()[i].name
                && a.drop_last()[i].sec_type == b.drop_last()[i].sec_type by {
                assert(a[i].name == b[i].name);
            }
        }
        lemma_count_same_shape(a.drop_last(), b.drop_last(), t);
    }
}

proof fn lemma_nth_same_shape(a: Seq<SectionView>, b: Seq<SectionView>, t: Seq<char>, n: int)
    requires
        same_shape(a, b),
    ensures
        nth_of_type(a, t, n) == nth_of_type(b, t, n),
    decreases a.len(),
{
    if a.len() > 0 {
        assert(a.last().sec_type == b.last().sec_type) by {
            assert(a[a.len() - 1].name == b[a.len() - 1].name);
        }
        assert(same_shape(a.drop_last(), b.drop_last())) by {
            assert forall|i: int| 0 <= i < a.drop_last().len() implies #[trigger] a.drop_last()[i].name == b.drop_last()[i].name
                && a.drop_last()[i].sec_type == b.drop_last()[i].sec_type by {
                assert(a[i].name == b[i].name);
            }
        }
        lemma_count_same_shape(a.drop_last(), b.drop_last(), t);
        lemma_nth_same_shape(a.drop_last(), b.drop_last(), t, n);
    }
}

/// Changing only the options of sections changes no lookup of a section.
pub proof fn lemma_lookup_same_shape(a: Seq<SectionView>, b: Seq<SectionView>, name: Seq<char>)
    requires
        same_shape(a, b),
    ensures
        lookup_spec(a, name) == lookup_spec(b, name),
{
    assert forall|i: int| 0 <= i < a.len() implies section_named(name)(a[i]) == section_named(name)(b[i]) by {
        assert(a[i].name == b[i].name);
    }
    lemma_first_index_congruent(a, b, section_named(name), section_named(name));
    if let Ok((t, k)) = crate::storage::uci::uci_config::unmangle_spec(name) {
        lemma_count_same_shape(a, b, t);
        let c = count_type(a, t);
        let idx = if k >= 0 { k as int } else { c + k };
        lemma_nth_same_shape(a, b, t, idx);
    }
}

/// What setting an option's values leaves under that option: the option
/// it found with the new values, or a new option of type `opt_type`.
proof fn lemma_set_lookup(
    m: ConfigMap,
    config: Seq<char>,
    section: Seq<char>,
    option: Seq<char>,
    values: Seq<Seq<char>>,
    opt_type: UciOptionType,
    disk: Option<Result<UciConfig, Error>>,
)
    requires
        set_option_spec(m, config, section, option, values, opt_type, disk).1 is Ok,
    ensures
        after_load(m, config, disk) is Ok,
        option_lookup_spec(after_load(m, config, disk)->Ok_0, config, section, option) is Ok,
        option_lookup_spec(set_option_spec(m, config, section, option, values, opt_type, disk).0, config, section, option)
            == Ok::<Option<OptionView>, Seq<char>>(Some(
                match option_lookup_spec(after_load(m, config, disk)->Ok_0, config, section, option) {
                    Ok(Some(o0)) => OptionView { values: values, ..o0 },
                    _ => OptionView { name: option, values: values, opt_type: opt_type },
                },
            )),
{
    let m1 = after_load(m, config, disk)->Ok_0;
    let cfg = m1[config];
    let i = lookup_spec(cfg.sections, section)->Ok_0->0;
    crate::storage::uci::uci_config::lemma_lookup_in_range(cfg.sections, section);
    let sec = cfg.sections[i];
    let options = match option_pos(sec.options, option) {
        Some(j) => sec.options.update(j, OptionView { values: values, ..sec.options[j] }),
        None => sec.options.push(OptionView { name: option, values: values, opt_type: opt_type }),
    };
    let cfg2 = with_section(cfg, i, SectionView { options: options, ..sec });
    let m2 = set_option_spec(m, config, section, option, values, opt_type, disk).0;
    assert(m1.contains_key(config));
    assert(m2 == m1.insert(config, cfg2));
    assert(m2[config] == cfg2);
    assert(same_shape(cfg.sections, cfg2.sections)) by {
        assert forall|q: int| 0 <= q < cfg.sections.len() implies #[trigger] cfg.sections[q].name == cfg2.sections[q].name
            && cfg.sections[q].sec_type == cfg2.sections[q].sec_type by {}
    }
    lemma_lookup_same_shape(cfg.sections, cfg2.sections, section);
    lemma_first_index_found(cfg.sections, section_named(section));
    match option_pos(sec.options, option) {
        Some(j) => {
            lemma_first_index_found(sec.options, option_named(option));
            assert forall|q: int| 0 <= q < sec.options.len() implies option_named(option)(sec.options[q])
                == option_named(option)(options[q]) by {}
            lemma_first_index_congruent(sec.options, options, option_named(option), option_named(option));
        },
        None => {
            lemma_first_index_found(sec.options, option_named(option));
            assert forall|q: int| 0 <= q < sec.options.len() implies !option_named(option)(#[trigger] options[q]) by {
                assert(options[q] == sec.options[q]);
            }
            lemma_first_index(options, option_named(option), sec.options.len() as int);
        },
    }
}

/// Reading after writing: once setting an option's values succeeds (with
/// whatever type a new option gets), the option's values are the ones written.
pub proof fn law_set_then_get(
    m: ConfigMap,
    config: Seq<char>,
    section: Seq<char>,
    option: Seq<char>,
    values: Seq<Seq<char>>,
    opt_type: UciOptionType,
    disk: Option<Result<UciConfig, Error>>,
)
    requires
        set_option_spec(m, config, section, option, values, opt_type, disk).1 is Ok,
    ensures
        values_spec(set_option_spec(m, config, section, option, values, opt_type, disk).0, config, section, option) == Ok::<
            Seq<Seq<char>>,
            Seq<char>,
        >(values),
{
    lemma_set_lookup(m, config, section, option, values, opt_type, disk);
}

/// `set_option_values` keeps the type of an option that exists; an option it
/// creates holds a single value when given at most one value, and is a list
/// when given two or more.
pub proof fn law_set_values_type(
    m: ConfigMap,
    config: Seq<char>,
    section: Seq<char>,
    option: Seq<char>,
    values: Seq<Seq<char>>,
    disk: Option<Result<UciConfig, Error>>,
)
    requires
        set_option_spec(m, config, section, option, values, type_for(values), disk).1 is Ok,
    ensures
        option_lookup_spec(set_option_spec(m, config, section, option, values, type_for(values), disk).0, config, section, option)
            matches Ok(Some(o)) && o.name == option && o.values == values && match option_lookup_spec(
            after_load(m, config, disk)->Ok_0,
            config,
            section,
            option,
        ) {
            Ok(Some(o0)) => o.opt_type == o0.opt_type,
            _ => (values.len() <= 1 ==> o.opt_type == UciOptionType::TypeOption) && (values.len() >= 2
                ==> o.opt_type == UciOptionType::TypeList),
        },
{
    lemma_set_lookup(m, config, section, option, values, type_for(values), disk);
    let m1 = after_load(m, config, disk)->Ok_0;
    if let Ok(Some(o0)) = option_lookup_spec(m1, config, section, option) {
        let cfg = m1[config];
        let i = lookup_spec(cfg.sections, section)->Ok_0->0;
        let j = option_pos(cfg.sections[i].options, option)->0;
        lemma_first_index_found(cfg.sections[i].options, option_named(option));
        assert(o0.name == option);
    }
}

/// The last value that `get_option_last_value` reports is the last of the
/// values that `get_option_value` reports.
pub proof fn law_last_value_is_last(m: ConfigMap, config: Seq<char>, section: Seq<char>, option: Seq<char>)
    requires
        values_nonempty(m, config, section, option),
    ensures
        values_spec(m, config, section, option) matches Ok(vs) ==> last_value_spec(m, config, section, option)
            == Ok::<Seq<char>, Seq<char>>(vs[vs.len() - 1]),
        values_spec(m, config, section, option) matches Err(msg) ==> last_value_spec(m, config, section, option)
            == Err::<Seq<char>, Seq<char>>(msg),
{
}

/// After the values of an option are set, its last value reads back as the
/// last value written.
pub proof fn law_set_then_last(
    m: ConfigMap,
    config: Seq<char>,
    section: Seq<char>,
    option: Seq<char>,
    values: Seq<Seq<char>>,
    opt_type: UciOptionType,
    disk: Option<Result<UciConfig, Error>>,
)
    requires
        set_option_spec(m, config, section, option, values, opt_type, disk).1 is Ok,
        values.len() > 0,
    ensures
        last_value_spec(set_option_spec(m, config, section, option, values, opt_type, disk).0, config, section, option)
            == Ok::<Seq<char>, Seq<char>>(values[values.len() - 1]),
{
    law_set_then_get(m, config, section, option, values, opt_type, disk);
    law_last_value_is_last(set_option_spec(m, config, section, option, values, opt_type, disk).0, config, section, option);
}

/// The texts that read as true are exactly `1`, `on`, `true`, `yes` and
/// `enabled`; every other text, `0`, `off`, `false`, `no`, `disabled` and
/// the empty text among them, reads as false.
pub proof fn law_bool_texts(w: Seq<char>)
    ensures
        is_true_text(w) <==> (w == "1"@ || w == "on"@ || w == "true"@ || w == "yes"@ || w == "enabled"@),
        is_true_text("1"@),
        is_true_text("on"@),
        is_true_text("true"@),
        is_true_text("yes"@),
        is_true_text("enabled"@),
        !is_true_text("0"@),
        !is_true_text("off"@),
        !is_true_text("false"@),
        !is_true_text("no"@),
        !is_true_text("disabled"@),
        !is_true_text(Seq::empty()),
{
    reveal_strlit("1");
    reveal_strlit("on");
    reveal_strlit("true");
    reveal_strlit("yes");
    reveal_strlit("enabled");
    reveal_strlit("0");
    reveal_strlit("off");
    reveal_strlit("false");
    reveal_strlit("no");
    reveal_strlit("disabled");
    assert("0"@[0] != "1"@[0]);
    assert("off"@[0] != "yes"@[0]);
    assert("no"@[0] != "on"@[0]);
    assert("off"@.len() == 3 && "false"@.len() == 5);
    assert("1"@.len() == 1 && "on"@.len() == 2 && "true"@.len() == 4 && "yes"@.len() == 3 && "enabled"@.len() == 7);
    assert("off"@ != "true"@ && "false"@ != "true"@ && "false"@ != "yes"@ && "false"@ != "enabled"@);
}

/// Loading a config a second time fails as already loaded and changes nothing.
pub proof fn law_load_twice(
    m: ConfigMap,
    name: Seq<char>,
    first: Option<Result<UciConfig, Error>>,
    second: Option<Result<UciConfig, Error>>,
)
    requires
        load_spec(m, name, first).1 is Ok,
    ensures
        load_spec(load_spec(m, name, first).0, name, second) == (
            load_spec(m, name, first).0,
            Err::<(), Seq<char>>(crate::storage::uci::tree::msg_already_loaded(name)),
        ),
{
}

/// After a successful commit no config is marked modified.
pub proof fn law_commit_clears(m: ConfigMap, saved: Result<(), Error>)
    requires
        saved is Ok,
    ensures
        forall|k: Seq<char>| #[trigger] commit_spec(m, saved).0.contains_key(k) ==> !commit_spec(m, saved).0[k].modified,
{
}

/// After `add_section` with a plain name succeeds, that name designates a
/// section of the requested type.
pub proof fn law_add_then_get(
    m: ConfigMap,
    config: Seq<char>,
    sec_type: Seq<char>,
    name: Seq<char>,
    disk: Option<Result<UciConfig, Error>>,
)
    requires
        name.len() > 0,
        !is_selector(name),
        add_section_spec(m, config, sec_type, name, disk).1 is Ok,
    ensures
        add_section_spec(m, config, sec_type, name, disk).0.contains_key(config),
        lookup_spec(add_section_spec(m, config, sec_type, name, disk).0[config].sections, name) matches Ok(Some(i))
            && add_section_spec(m, config, sec_type, name, disk).0[config].sections[i].sec_type == sec_type,
{
    let m1 = add_base(m, config, disk);
    let cfg = m1[config];
    assert(m1.contains_key(config));
    crate::storage::uci::uci_config::lemma_lookup_in_range(cfg.sections, name);
    match lookup_spec(cfg.sections, name) {
        Ok(Some(i)) => {},
        _ => {
            let secs2 = cfg.sections.push(SectionView { name: name, sec_type: sec_type, options: Seq::empty() });
            lemma_first_index_found(cfg.sections, section_named(name));
            assert forall|q: int| 0 <= q < cfg.sections.len() implies !section_named(name)(#[trigger] secs2[q]) by {
                assert(secs2[q] == cfg.sections[q]);
            }
            lemma_first_index(secs2, section_named(name), cfg.sections.len() as int);
        },
    }
}

/// The scan of a selector `@type[index]` whose type and index hold no `@`,
/// `[` or `]` meets no error and finds the bracket after the type.
proof fn lemma_scan_selector(t: Seq<char>, d: Seq<char>, k: int)
    requires
        !t.contains('@'),
        !t.contains('['),
        !t.contains(']'),
        d.len() >= 1,
        forall|i: int| 0 <= i < d.len() ==> #[trigger] d[i] != '@' && d[i] != '[' && d[i] != ']',
        0 <= k <= t.len() + d.len() + 3,
    ensures
        selector_scan(seq!['@'] + t + seq!['['] + d + seq![']'], k) == (
            None::<Seq<char>>,
            if k <= t.len() + 1 { 0int } else { t.len() as int + 1 },
        ),
    decreases k,
{
    let s = seq!['@'] + t + seq!['['] + d + seq![']'];
    let bra = t.len() + 1;
    if k > 0 {
        lemma_scan_selector(t, d, k - 1);
        let i = k - 1;
        if i == 0 {
            assert(s[0] == '@');
        } else if i < bra {
            assert(s[i] == t[i - 1]);
            assert(t.contains(t[i - 1]));
        } else if i == bra {
            assert(s[i] == '[');
        } else if i < s.len() - 1 {
            assert(s[i] == d[i - bra - 1]);
        } else {
            assert(s[i] == ']');
        }
    }
}

/// With one section of type `t` at `g` having `n` of its type before it,
/// `nth_of_type` finds it.
proof fn lemma_nth_of_type_at(secs: Seq<SectionView>, t: Seq<char>, g: int)
    requires
        0 <= g < secs.len(),
        secs[g].sec_type == t,
    ensures
        nth_of_type(secs, t, count_type(secs.take(g), t) as int) == Some(g),
{
    let n = count_type(secs.take(g), t) as int;
    assert(secs.take(g + 1).drop_last() =~= secs.take(g));
    assert(secs.take(g + 1).last() == secs[g]);
    assert(nth_of_type(secs.take(g + 1), t, n) == Some(g));
    lemma_nth_of_type_extends(secs, t, n, g + 1);
}

/// The selector `@type[index]` that `section_name` gives an unnamed section
/// designates that section again, when the type holds no `@`, `[` or `]` and
/// the selector has the five bytes that a selector needs.
pub proof fn law_selector_roundtrip(secs: Seq<SectionView>, sec: SectionView)
    requires
        sec.name.len() == 0,
        first_index(secs, section_equal(sec)) is Some,
        secs.len() <= i32::MAX,
        !sec.sec_type.contains('@'),
        !sec.sec_type.contains('['),
        !sec.sec_type.contains(']'),
        !(sec.sec_type.len() == 0 && type_index_spec(secs, sec)->0 < 10),
    ensures
        lookup_defined(secs, selector_name(secs, sec)),
        lookup_spec(secs, selector_name(secs, sec)) matches Ok(Some(i)) && secs[i] == sec,
{
    let t = sec.sec_type;
    let g = first_index(secs, section_equal(sec))->0;
    lemma_first_index_found(secs, section_equal(sec));
    assert(secs[g] == sec);
    let k = count_type(secs.take(g), t);
    assert(type_index_spec(secs, sec) == Some(k as int));
    let d = decimal(k);
    lemma_decimal_digits(k);
    let sel = selector_name(secs, sec);
    assert(sel =~= seq!['@'] + t + seq!['['] + d + seq![']']) by {
        reveal_strlit("@");
        reveal_strlit("[");
        reveal_strlit("]");
    }
    let bra: int = t.len() as int + 1;
    let ket: int = sel.len() - 1;
    // enough bytes
    lemma_encode_utf8_len_at_least(sel);
    assert(encode_utf8(sel).len() >= 5);
    // the scan
    assert forall|i: int| 0 <= i < d.len() implies #[trigger] d[i] != '@' && d[i] != '[' && d[i] != ']' by {
        assert(is_digit(d[i]));
    }
    lemma_scan_selector(t, d, sel.len() as int);
    assert(selector_scan(sel, sel.len() as int) == (None::<Seq<char>>, bra));
    assert(sel[0] == '@');
    assert(sel.last() == ']');
    // the type and the index
    assert(sel.subrange(1, bra) =~= t);
    assert(sel.subrange(bra + 1, ket) =~= d);
    lemma_count_type_prefix(secs, t, g + 1);
    assert(secs.take(g + 1).drop_last() =~= secs.take(g));
    assert(secs.take(g + 1).last() == secs[g]);
    crate::storage::uci::uci_config::lemma_count_type_bound(secs, t);
    assert(k < count_type(secs, t));
    lemma_parse_decimal(k);
    assert(unmangle_spec(sel) == Ok::<(Seq<char>, i32), Seq<char>>((t, k as i32)));
    lemma_nth_of_type_at(secs, t, g);
    assert(is_selector(sel));
    assert(selector_well_cut(sel));
}

/// Reverting a config that was just loaded, and was not loaded before,
/// gives back the configs as they were.
pub proof fn law_revert_undoes_load(m: ConfigMap, name: Seq<char>, disk: Option<Result<UciConfig, Error>>)
    requires
        !m.contains_key(name),
        load_spec(m, name, disk).1 is Ok,
    ensures
        load_spec(m, name, disk).0.remove_keys(set![name]) == m,
{
    assert(load_spec(m, name, disk).0.remove_keys(set![name]) =~= m);
}

/// Splitting a selector written as `@type[index]` gives back the type and
/// the index, negative indexes included, when the type holds no `@`, `[` or
/// `]` and the selector has the five bytes that a selector needs; the
/// splitting of such a selector does not panic.
pub proof fn law_unmangle_inverts_format(t: Seq<char>, k: i32)
    requires
        !t.contains('@'),
        !t.contains('['),
        !t.contains(']'),
        encode_utf8("@"@ + t + "["@ + signed_decimal(k as int) + "]"@).len() >= 5,
    ensures
        selector_well_cut("@"@ + t + "["@ + signed_decimal(k as int) + "]"@),
        unmangle_spec("@"@ + t + "["@ + signed_decimal(k as int) + "]"@) == Ok::<(Seq<char>, i32), Seq<char>>((t, k)),
{
    let d = signed_decimal(k as int);
    lemma_parse_signed_decimal(k);
    let sel = "@"@ + t + "["@ + d + "]"@;
    assert(sel =~= seq!['@'] + t + seq!['['] + d + seq![']']) by {
        reveal_strlit("@");
        reveal_strlit("[");
        reveal_strlit("]");
    }
    assert forall|i: int| 0 <= i < d.len() implies #[trigger] d[i] != '@' && d[i] != '[' && d[i] != ']' by {
        assert(is_digit(d[i]) || d[i] == '-');
    }
    lemma_scan_selector(t, d, sel.len() as int);
    let bra: int = t.len() as int + 1;
    let ket: int = sel.len() - 1;
    assert(selector_scan(sel, sel.len() as int) == (None::<Seq<char>>, bra));
    assert(sel[0] == '@');
    assert(sel.last() == ']');
    assert(sel.subrange(1, bra) =~= t);
    assert(sel.subrange(bra + 1, ket) =~= d);
}

/// What the scan of a selector without error has seen: no `@` after the
/// first character, no `]` before the last one, and no `[` but the one at
/// the bracket position it gives (when that position is not 0).
proof fn lemma_scan_facts(s: Seq<char>, k: int)
    requires
        0 <= k <= s.len(),
        selector_scan(s, k).0 is None,
    ensures
        selector_scan(s, k).1 == 0 || 0 < selector_scan(s, k).1 < k,
        selector_scan(s, k).1 > 0 ==> s[selector_scan(s, k).1] == '[',
        forall|i: int| 1 <= i < k ==> #[trigger] s[i] != '@',
        forall|i: int| 0 <= i < k && i != s.len() - 1 ==> #[trigger] s[i] != ']',
        forall|i: int| 1 <= i < k && i != selector_scan(s, k).1 ==> #[trigger] s[i] != '[',
    decreases k,
{
    if k > 0 {
        let (e, bra0) = selector_scan(s, k - 1);
        assert(e is None);
        lemma_scan_facts(s, k - 1);
    }
}

/// The splitting of a selector does not panic when the selector is shorter
/// than five bytes or ends in an ASCII character; when it succeeds, the
/// selector begins with `@`, the type and `[`, and the type holds no `@`,
/// `[` or `]`.
pub proof fn law_unmangle_result(name: Seq<char>)
    ensures
        encode_utf8(name).len() < 5 || (name.len() > 0 && (name.last() as u32) <= 0x7F) ==> selector_well_cut(name),
        unmangle_spec(name) matches Ok((t, k)) ==> {
            &&& name.len() >= t.len() + 2
            &&& name.subrange(0, t.len() + 2 as int) == seq!['@'] + t + seq!['[']
            &&& !t.contains('@')
            &&& !t.contains('[')
            &&& !t.contains(']')
        },
{
    if let Ok((t, k)) = unmangle_spec(name) {
        let (e, bra) = selector_scan(name, name.len() as int);
        lemma_scan_facts(name, name.len() as int);
        assert(t == name.subrange(1, bra));
        assert(name.subrange(0, t.len() + 2 as int) =~= seq!['@'] + t + seq!['[']);
        assert forall|j: int| 0 <= j < t.len() implies #[trigger] t[j] != '@' && t[j] != '[' && t[j] != ']' by {
            assert(t[j] == name[j + 1]);
        }
    }
}

/// The named sections have distinct names.
pub open spec fn names_distinct(secs: Seq<SectionView>) -> bool {
    forall|i: int, j: int|
        0 <= i < secs.len() && 0 <= j < secs.len() && i != j && secs[i].name.len() > 0 ==> secs[i].name
            != secs[j].name
}

/// `merge` keeps the name and type of every section, in order. It merges
/// into the first section shown under the same `get_section_name` as the
/// merged one, and appends a section with that one's name and type only
/// when no section is shown under that name; so merging a named section
/// keeps the named sections distinct.
pub proof fn law_merge_keeps_names(secs: Seq<SectionView>, sec: SectionView)
    ensures
        forall|j: int| 0 <= j < secs.len() ==> #[trigger] merged_sections(secs, sec)[j].name == secs[j].name
            && merged_sections(secs, sec)[j].sec_type == secs[j].sec_type,
        merge_target(secs, sec) matches Some(i) ==> {
            &&& 0 <= i < secs.len()
            &&& merged_sections(secs, sec).len() == secs.len()
            &&& display_name(secs, secs[i]) == display_name(secs, sec)
            &&& forall|j: int| 0 <= j < i ==> display_name(secs, #[trigger] secs[j]) != display_name(secs, sec)
        },
        merge_target(secs, sec) is None ==> {
            &&& merged_sections(secs, sec).len() == secs.len() + 1
            &&& merged_sections(secs, sec).last().name == sec.name
            &&& merged_sections(secs, sec).last().sec_type == sec.sec_type
            &&& forall|j: int| 0 <= j < secs.len() ==> display_name(secs, #[trigger] secs[j]) != display_name(secs, sec)
        },
        sec.name.len() > 0 && names_distinct(secs) ==> names_distinct(merged_sections(secs, sec)),
{
    let key = display_name(secs, sec);
    let p = displayed_as(secs, key);
    lemma_first_index_found(secs, p);
    let r = merged_sections(secs, sec);
    let s1 = merge_base(secs, sec);
    let t = merge_pos(secs, sec);
    assert forall|j: int| 0 <= j < secs.len() implies #[trigger] r[j].name == secs[j].name
        && r[j].sec_type == secs[j].sec_type by {
        assert(s1[j] == secs[j]);
    }
    match merge_target(secs, sec) {
        Some(i) => {
            assert(secs.len() > 0);
            assert forall|j: int| 0 <= j < i implies display_name(secs, #[trigger] secs[j]) != key by {
                assert(!p(secs[j]));
            }
        },
        None => {
            assert forall|j: int| 0 <= j < secs.len() implies display_name(secs, #[trigger] secs[j]) != key by {
                if secs.len() > 0 {
                    assert(!p(secs[j]));
                }
            }
            assert(r.last() == r[secs.len() as int]);
            if sec.name.len() > 0 && names_distinct(secs) {
                assert forall|a: int, b: int|
                    0 <= a < r.len() && 0 <= b < r.len() && a != b && r[a].name.len() > 0 implies r[a].name
                    != r[b].name by {
                    if a == secs.len() {
                        assert(display_name(secs, secs[b]) != key);
                    } else if b == secs.len() {
                        assert(display_name(secs, secs[a]) != key);
                    }
                }
            }
        },
    }
}

/// Adding a section under a plain name a second time succeeds and changes
/// nothing: no second section of that name is added, and the modified mark
/// stays as it was.
pub proof fn law_add_twice(
    m: ConfigMap,
    config: Seq<char>,
    sec_type: Seq<char>,
    name: Seq<char>,
    disk: Option<Result<UciConfig, Error>>,
    disk_again: Option<Result<UciConfig, Error>>,
)
    requires
        name.len() > 0,
        !is_selector(name),
        add_section_spec(m, config, sec_type, name, disk).1 is Ok,
    ensures
        add_section_spec(add_section_spec(m, config, sec_type, name, disk).0, config, sec_type, name, disk_again) == (
            add_section_spec(m, config, sec_type, name, disk).0,
            Ok::<(), Seq<char>>(()),
        ),
{
    law_add_then_get(m, config, sec_type, name, disk);
    let m2 = add_section_spec(m, config, sec_type, name, disk).0;
    assert(add_base(m2, config, disk_again) == m2);
}

/// A list option is written as one `list` line per value, whatever the
/// number of values, a single value included; an option of the single-value
/// type is written as one `option` line with its first value.
pub proof fn law_option_lines(name: Seq<char>, values: Seq<Seq<char>>, v: Seq<char>)
    ensures
        option_text(OptionView { name: name, values: Seq::empty(), opt_type: UciOptionType::TypeList })
            == Seq::<char>::empty(),
        option_text(OptionView { name: name, values: values.push(v), opt_type: UciOptionType::TypeList })
            == option_text(OptionView { name: name, values: values, opt_type: UciOptionType::TypeList }) + "\tlist "@
            + name + " '"@ + v + "'\n"@,
        option_text(OptionView { name: name, values: seq![v], opt_type: UciOptionType::TypeList }) == "\tlist "@ + name
            + " '"@ + v + "'\n"@,
        option_text(OptionView { name: name, values: seq![v] + values, opt_type: UciOptionType::TypeOption })
            == "\toption "@ + name + " '"@ + v + "'\n"@,
{
    assert(values.push(v).drop_last() =~= values);
    assert(seq![v].drop_last() =~= Seq::<Seq<char>>::empty());
    assert(Seq::<char>::empty() + "\tlist "@ + name + " '"@ + v + "'\n"@ =~= "\tlist "@ + name + " '"@ + v + "'\n"@);
    assert((seq![v] + values)[0] == v);
}

/// A config is written as its sections in order, each a `config` header
/// line (with the name in quotes for a named section) followed by the text
/// of its options in order, and a final newline.
pub proof fn law_config_layout(c: ConfigView, s: SectionView, os: Seq<OptionView>, o: OptionView)
    ensures
        config_text(ConfigView { sections: Seq::empty(), ..c }) == "\n"@,
        config_text(ConfigView { sections: c.sections.push(s), ..c }) == sections_text(c.sections) + section_header(s)
            + options_text(s.options) + "\n"@,
        s.name.len() == 0 ==> section_header(s) == "\nconfig "@ + s.sec_type + "\n"@,
        s.name.len() > 0 ==> section_header(s) == "\nconfig "@ + s.sec_type + " '"@ + s.name + "'\n"@,
        options_text(Seq::empty()) == Seq::<char>::empty(),
        options_text(os.push(o)) == options_text(os) + option_text(o),
{
    assert(c.sections.push(s).drop_last() =~= c.sections);
    assert(os.push(o).drop_last() =~= os);
    assert(Seq::<char>::empty() + "\n"@ =~= "\n"@);
}

/// `opts` has an option named like `o` that holds every value of `o`.
pub open spec fn option_covers(opts: Seq<OptionView>, o: OptionView) -> bool {
    exists|j: int|
        #![trigger opts[j]]
        0 <= j < opts.len() && opts[j].name == o.name && forall|v: Seq<char>| #[trigger] o.values.contains(v)
            ==> opts[j].values.contains(v)
}

/// Merging an option keeps what was there and brings the merged option's
/// name and values in.
proof fn lemma_merged_options_covers(acc: Seq<OptionView>, o: OptionView)
    ensures
        option_covers(merged_options(acc, o), o),
        forall|x: OptionView| option_covers(acc, x) ==> #[trigger] option_covers(merged_options(acc, o), x),
{
    let r = merged_options(acc, o);
    lemma_first_index_found(acc, option_named(o.name));
    match option_pos(acc, o.name) {
        Some(i) => {
            let all = acc[i].values + o.values;
            lemma_dedup(all);
            assert forall|v: Seq<char>| #[trigger] o.values.contains(v) implies r[i].values.contains(v) by {
                let k = choose|k: int| 0 <= k < o.values.len() && o.values[k] == v;
                assert(all[acc[i].values.len() + k] == v);
                assert(all.contains(v));
                assert(r[i].values == dedup(all));
            }
            assert(r[i].name == o.name);
            assert forall|x: OptionView| option_covers(acc, x) implies #[trigger] option_covers(r, x) by {
                let j = choose|j: int|
                    #![trigger acc[j]]
                    0 <= j < acc.len() && acc[j].name == x.name && forall|v: Seq<char>| #[trigger] x.values.contains(v)
                        ==> acc[j].values.contains(v);
                if j == i {
                    assert forall|v: Seq<char>| #[trigger] x.values.contains(v) implies r[j].values.contains(v) by {
                        assert(acc[j].values.contains(v));
                        let k = choose|k: int| 0 <= k < acc[j].values.len() && acc[j].values[k] == v;
                        assert(all[k] == v);
                        assert(all.contains(v));
                        assert(r[j].values == dedup(all));
                    }
                } else {
                    assert(r[j] == acc[j]);
                }
                assert(r[j].name == x.name);
            }
        },
        None => {
            assert(r[acc.len() as int] == o);
            assert forall|x: OptionView| option_covers(acc, x) implies #[trigger] option_covers(r, x) by {
                let j = choose|j: int|
                    #![trigger acc[j]]
                    0 <= j < acc.len() && acc[j].name == x.name && forall|v: Seq<char>| #[trigger] x.values.contains(v)
                        ==> acc[j].values.contains(v);
                assert(r[j] == acc[j]);
            }
        },
    }
}

/// Merging options one after another keeps what was there and brings in
/// the name and values of each merged option.
proof fn lemma_merge_all_covers(acc: Seq<OptionView>, os: Seq<OptionView>)
    ensures
        forall|x: OptionView| option_covers(acc, x) ==> #[trigger] option_covers(merge_all(acc, os), x),
        forall|k: int| 0 <= k < os.len() ==> option_covers(merge_all(acc, os), #[trigger] os[k]),
    decreases os.len(),
{
    if os.len() > 0 {
        let p = os.drop_last();
        lemma_merge_all_covers(acc, p);
        let before = merge_all(acc, p);
        lemma_merged_options_covers(before, os.last());
        assert forall|k: int| 0 <= k < os.len() implies option_covers(merge_all(acc, os), #[trigger] os[k]) by {
            if k < p.len() {
                assert(os[k] == p[k]);
                assert(option_covers(before, p[k]));
            }
        }
    }
}

/// Every option of a section is covered by its own options.
proof fn lemma_covers_own(opts: Seq<OptionView>, k: int)
    requires
        0 <= k < opts.len(),
    ensures
        option_covers(opts, opts[k]),
{
    assert(opts[k].name == opts[k].name);
}

/// `merge` loses no option: the section it merges into ends up holding,
/// under each name, every value that section held before; when the merged
/// section is appended, every option of the merged section is there with
/// all its values.
pub proof fn law_merge_keeps_options(secs: Seq<SectionView>, sec: SectionView)
    ensures
        merge_target(secs, sec) is None ==> forall|k: int|
            0 <= k < sec.options.len() ==> option_covers(
                merged_sections(secs, sec).last().options,
                #[trigger] sec.options[k],
            ),
        merge_target(secs, sec) matches Some(i) ==> 0 <= i < secs.len() && forall|k: int|
            0 <= k < secs[i].options.len() ==> option_covers(
                merged_sections(secs, sec)[i].options,
                #[trigger] secs[i].options[k],
            ),
{
    let s1 = merge_base(secs, sec);
    let t = merge_pos(secs, sec);
    let r = merged_sections(secs, sec);
    let key = display_name(secs, sec);
    lemma_first_index_found(secs, displayed_as(secs, key));
    lemma_merge_all_covers(s1[t].options, s1[t].options);
    assert forall|k: int| 0 <= k < s1[t].options.len() implies option_covers(r[t].options, #[trigger] s1[t].options[k]) by {
        lemma_covers_own(s1[t].options, k);
    }
    if merge_target(secs, sec) is None {
        assert(s1[t] == sec);
        assert(r.last() == r[t]);
    }
}

/// `get_sections` gives the sections of the type asked for, every one of
/// them, in their order: the section of that type with `n` of its type
/// before it comes `n`-th.
pub proof fn law_sections_of_type(secs: Seq<SectionView>, t: Seq<char>)
    ensures
        sections_of_type(secs, t).len() == count_type(secs, t),
        forall|i: int| 0 <= i < sections_of_type(secs, t).len() ==> (#[trigger] sections_of_type(secs, t)[i]).sec_type == t,
        forall|g: int|
            0 <= g < secs.len() && (#[trigger] secs[g]).sec_type == t ==> sections_of_type(secs, t)[count_type(
                secs.take(g),
                t,
            ) as int] == secs[g],
    decreases secs.len(),
{
    if secs.len() > 0 {
        let p = secs.drop_last();
        law_sections_of_type(p, t);
        let r = sections_of_type(secs, t);
        let rp = sections_of_type(p, t);
        assert forall|i: int| 0 <= i < r.len() implies (#[trigger] r[i]).sec_type == t by {
            if i < rp.len() {
                assert(r[i] == rp[i]);
            }
        }
        assert forall|g: int| 0 <= g < secs.len() && (#[trigger] secs[g]).sec_type == t implies r[count_type(
            secs.take(g),
            t,
        ) as int] == secs[g] by {
            if g < p.len() {
                assert(secs.take(g) =~= p.take(g));
                assert(p[g] == secs[g]);
                lemma_count_type_prefix(p, t, g + 1);
                assert(p.take(g + 1).drop_last() =~= p.take(g));
                assert(p.take(g + 1).last() == p[g]);
                assert(count_type(p.take(g), t) < rp.len());
            } else {
                assert(secs.take(g) =~= p);
            }
        }
    }
}

} // verus!

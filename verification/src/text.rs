//! String helpers shared by the library: character access, decimal rendering,
//! signed integer parsing and UTF-8 lengths.

use vstd::prelude::*;
use vstd::utf8::*;

verus! {

/// The characters of `s`, in order.
pub fn chars_of(s: &str) -> (v: Vec<char>)
    ensures
        v@ == s@,
{
    let mut v: Vec<char> = Vec::new();
    for c in it: s.chars()
        invariant
            v@ == it.seq().take(it.index() as int),
            it.seq() == s@,
    {
        v.push(c);
    }
    v
}

/// `std`'s `==` on string slices: true exactly when both hold the same characters.
#[verifier::external_body]
pub(crate) fn str_eq(a: &str, b: &str) -> (r: bool)
    ensures
        r == (a@ == b@),
{
    a == b
}

/// `std`'s `String::push`: appends one character.
#[verifier::external_body]
pub(crate) fn push_char(s: &mut String, c: char)
    ensures
        final(s)@ == old(s)@.push(c),
{
    s.push(c)
}

/// A string holding exactly the characters of `chars`.
pub fn string_from_chars(chars: &Vec<char>, from: usize, to: usize) -> (s: String)
    requires
        from <= to <= chars@.len(),
    ensures
        s@ == chars@.subrange(from as int, to as int),
{
    let mut s = String::new();
    let mut i = from;
    while i < to
        invariant
            from <= i <= to <= chars@.len(),
            s@ == chars@.subrange(from as int, i as int),
        decreases to - i,
    {
        push_char(&mut s, chars[i]);
        i = i + 1;
    }
    s
}

/// The decimal digit character for `d < 10`.
pub open spec fn digit_char(d: nat) -> char {
    ((48 + d) as u32) as char
}

/// The decimal notation of `n`, most significant digit first, without sign or leading zeros.
pub open spec fn decimal(n: nat) -> Seq<char>
    decreases n,
{
    if n < 10 {
        seq![digit_char(n)]
    } else {
        decimal(n / 10).push(digit_char(n % 10))
    }
}

fn digit(d: usize) -> (c: char)
    requires
        d < 10,
    ensures
        c == digit_char(d as nat),
{
    let b: u8 = 48 + d as u8;
    b as char
}

/// Renders `n` in decimal, as `std`'s `Display` for integers does.
pub fn usize_to_decimal(n: usize) -> (s: String)
    ensures
        s@ == decimal(n as nat),
    decreases n,
{
    if n < 10 {
        let mut s = String::new();
        push_char(&mut s, digit(n));
        s
    } else {
        let mut s = usize_to_decimal(n / 10);
        push_char(&mut s, digit(n % 10));
        s
    }
}


/// Why `str::parse::<i32>` refused its input (`std::num::IntErrorKind`).
#[derive(Debug, Clone, Copy, PartialEq, Eq, Structural)]
pub enum IntErrorKind {
    Empty,
    InvalidDigit,
    PosOverflow,
    NegOverflow,
}

/// The text that `std` displays for a `ParseIntError` of the given kind.
pub open spec fn int_error_text(k: IntErrorKind) -> Seq<char> {
    match k {
        IntErrorKind::Empty => "cannot parse integer from empty string"@,
        IntErrorKind::InvalidDigit => "invalid digit found in string"@,
        IntErrorKind::PosOverflow => "number too large to fit in target type"@,
        IntErrorKind::NegOverflow => "number too small to fit in target type"@,
    }
}

pub open spec fn is_digit(c: char) -> bool {
    '0' <= c && c <= '9'
}

pub open spec fn digit_value(c: char) -> int {
    (c as int) - 48
}

/// Reads the decimal digits `s` from left to right, as `std` does: the first
/// character that is no digit, or the first step that leaves the range of
/// `i32`, decides the error; `negative` subtracts each digit instead of adding it.
pub open spec fn digits_value(s: Seq<char>, negative: bool) -> Result<i32, IntErrorKind>
    decreases s.len(),
{
    if s.len() == 0 {
        Ok(0i32)
    } else {
        match digits_value(s.drop_last(), negative) {
            Err(e) => Err(e),
            Ok(v) => {
                let c = s.last();
                if !is_digit(c) {
                    Err(IntErrorKind::InvalidDigit)
                } else {
                    let w = if negative {
                        v * 10 - digit_value(c)
                    } else {
                        v * 10 + digit_value(c)
                    };
                    if w > i32::MAX {
                        Err(IntErrorKind::PosOverflow)
                    } else if w < i32::MIN {
                        Err(IntErrorKind::NegOverflow)
                    } else {
                        Ok(w as i32)
                    }
                }
            },
        }
    }
}

/// What `str::parse::<i32>` returns for the characters `s`: an optional sign
/// followed by at least one decimal digit, within the range of `i32`.
pub open spec fn parse_i32_spec(s: Seq<char>) -> Result<i32, IntErrorKind> {
    if s.len() == 0 {
        Err(IntErrorKind::Empty)
    } else if s.len() == 1 && (s[0] == '+' || s[0] == '-') {
        Err(IntErrorKind::InvalidDigit)
    } else if s[0] == '+' {
        digits_value(s.drop_first(), false)
    } else if s[0] == '-' {
        digits_value(s.drop_first(), true)
    } else {
        digits_value(s, false)
    }
}

/// Parses `chars[from..to]` as `str::parse::<i32>` parses the same text.
pub fn parse_i32(chars: &Vec<char>, from: usize, to: usize) -> (r: Result<i32, IntErrorKind>)
    requires
        from <= to <= chars@.len(),
    ensures
        r == parse_i32_spec(chars@.subrange(from as int, to as int)),
{
    let ghost s = chars@.subrange(from as int, to as int);
    if from == to {
        return Err(IntErrorKind::Empty);
    }
    let first = chars[from];
    if to - from == 1 && (first == '+' || first == '-') {
        return Err(IntErrorKind::InvalidDigit);
    }
    let negative = first == '-';
    let start = if first == '+' || first == '-' { from + 1 } else { from };
    let ghost digits = chars@.subrange(start as int, to as int);
    assert(first == '+' || first == '-' ==> digits =~= s.drop_first());
    assert(!(first == '+' || first == '-') ==> digits =~= s);
    assert(parse_i32_spec(s) == digits_value(digits, negative));
    let mut v: i32 = 0;
    let mut i = start;
    while i < to
        invariant
            start <= i <= to <= chars@.len(),
            digits == chars@.subrange(start as int, to as int),
            parse_i32_spec(chars@.subrange(from as int, to as int)) == digits_value(digits, negative),
            digits_value(chars@.subrange(start as int, i as int), negative) == Ok::<i32, IntErrorKind>(v),
        decreases to - i,
    {
        let c = chars[i];
        assert(chars@.subrange(start as int, i + 1).drop_last() =~= chars@.subrange(start as int, i as int));
        if !('0' <= c && c <= '9') {
            assert(chars@.subrange(start as int, i + 1) =~= digits.take(i - start + 1));
            assert(digits_value(digits.take(i - start + 1), negative) == Err::<i32, IntErrorKind>(IntErrorKind::InvalidDigit));
            proof { lemma_digits_error_extends(digits, (i - start) as int, negative); }
            return Err(IntErrorKind::InvalidDigit);
        }
        let d = (c as u32 - 48) as i64;
        let w: i64 = if negative { (v as i64) * 10 - d } else { (v as i64) * 10 + d };
        if w > 2147483647 {
            assert(chars@.subrange(start as int, i + 1) =~= digits.take(i - start + 1));
            assert(digits_value(digits.take(i - start + 1), negative) == Err::<i32, IntErrorKind>(IntErrorKind::PosOverflow));
            proof { lemma_digits_error_extends(digits, (i - start) as int, negative); }
            return Err(IntErrorKind::PosOverflow);
        }
        if w < -2147483648 {
            assert(chars@.subrange(start as int, i + 1) =~= digits.take(i - start + 1));
            assert(digits_value(digits.take(i - start + 1), negative) == Err::<i32, IntErrorKind>(IntErrorKind::NegOverflow));
            proof { lemma_digits_error_extends(digits, (i - start) as int, negative); }
            return Err(IntErrorKind::NegOverflow);
        }
        v = w as i32;
        i = i + 1;
    }
    assert(chars@.subrange(start as int, to as int) =~= digits);
    Ok(v)
}

/// Once a prefix of the digits fails, every longer prefix fails the same way.
proof fn lemma_digits_error_extends(s: Seq<char>, k: int, negative: bool)
    requires
        0 <= k < s.len(),
        digits_value(s.take(k + 1), negative) is Err,
    ensures
        digits_value(s, negative) == digits_value(s.take(k + 1), negative),
    decreases s.len() - k,
{
    if k + 1 == s.len() {
        assert(s.take(k + 1) =~= s);
    } else {
        assert(s.drop_last().take(k + 1) =~= s.take(k + 1));
        lemma_digits_error_extends(s.drop_last(), k, negative);
    }
}


/// Number of bytes that UTF-8 spends on `c`.
pub open spec fn char_width(c: char) -> nat {
    if (c as u32) <= 0x7F {
        1
    } else if (c as u32) <= 0x7FF {
        2
    } else if (c as u32) <= 0xFFFF {
        3
    } else {
        4
    }
}

proof fn lemma_encode_scalar_len(c: char)
    ensures
        encode_scalar(c as u32).len() == char_width(c),
{
    broadcast use char_is_scalar;
}

/// Appending a character lengthens the UTF-8 encoding by that character's width.
pub proof fn lemma_encode_utf8_push_len(s: Seq<char>, c: char)
    ensures
        encode_utf8(s.push(c)).len() == encode_utf8(s).len() + char_width(c),
    decreases s.len(),
{
    if s.len() == 0 {
        assert(s.push(c).drop_first() =~= Seq::<char>::empty());
        assert(encode_utf8(Seq::<char>::empty()) =~= Seq::<u8>::empty());
        assert(s.push(c)[0] == c);
        lemma_encode_scalar_len(c);
    } else {
        assert(s.push(c).drop_first() =~= s.drop_first().push(c));
        assert(s.push(c)[0] == s[0]);
        lemma_encode_utf8_push_len(s.drop_first(), c);
    }
}

fn width_of(c: char) -> (w: usize)
    ensures
        w == char_width(c),
{
    let u = c as u32;
    if u <= 0x7F {
        1
    } else if u <= 0x7FF {
        2
    } else if u <= 0xFFFF {
        3
    } else {
        4
    }
}

/// Whether the UTF-8 encoding of `chars` (what `str::len` counts) has at least `k` bytes.
pub fn utf8_len_at_least(chars: &Vec<char>, k: usize) -> (r: bool)
    ensures
        r == (encode_utf8(chars@).len() >= k),
{
    let mut total: usize = 0;
    let mut i: usize = 0;
    while i < chars.len()
        invariant
            i <= chars@.len(),
            total <= k,
            total == if encode_utf8(chars@.take(i as int)).len() >= k {
                k as int
            } else {
                encode_utf8(chars@.take(i as int)).len() as int
            },
        decreases chars@.len() - i,
    {
        let w = width_of(chars[i]);
        proof {
            assert(chars@.take(i + 1) =~= chars@.take(i as int).push(chars@[i as int]));
            lemma_encode_utf8_push_len(chars@.take(i as int), chars@[i as int]);
        }
        if total >= k || k - total <= w {
            total = k;
        } else {
            total = total + w;
        }
        i = i + 1;
    }
    assert(chars@.take(i as int) =~= chars@);
    total >= k
}


/// The characters of each string of `v`.
pub open spec fn views(v: Seq<String>) -> Seq<Seq<char>> {
    v.map_values(|s: String| s@)
}

/// Pushing a string pushes its characters onto the views.
pub proof fn lemma_views_push(v: Seq<String>, s: String)
    ensures
        views(v.push(s)) =~= views(v).push(s@),
{
    assert forall|j: int| 0 <= j < v.len() + 1 implies views(v.push(s))[j] == views(v).push(s@)[j] by {
        if j < v.len() {
            assert(v.push(s)[j] == v[j]);
        }
    }
}

/// Whether some string of `v` holds the same characters as `s`.
pub fn contains_string(v: &Vec<String>, s: &String) -> (r: bool)
    ensures
        r == views(v@).contains(s@),
{
    let mut i: usize = 0;
    while i < v.len()
        invariant
            i <= v@.len(),
            forall|j: int| 0 <= j < i ==> v@[j]@ != s@,
        decreases v@.len() - i,
    {
        if v[i] == *s {
            assert(views(v@)[i as int] == s@);
            return true;
        }
        i = i + 1;
    }
    assert forall|j: int| 0 <= j < views(v@).len() implies views(v@)[j] != s@ by {
        assert(views(v@)[j] == v@[j]@);
    }
    false
}

/// A copy of `v` whose strings hold the same characters.
pub fn copy_strings(v: &Vec<String>) -> (r: Vec<String>)
    ensures
        views(r@) == views(v@),
{
    let mut r: Vec<String> = Vec::new();
    let mut i: usize = 0;
    while i < v.len()
        invariant
            i <= v@.len(),
            views(r@) == views(v@).take(i as int),
        decreases v@.len() - i,
    {
        let ghost old_r = r@;
        let c = v[i].clone();
        r.push(c);
        proof {
            lemma_views_push(old_r, c);
        }
        assert(views(r@) =~= views(v@).take(i + 1));
        i = i + 1;
    }
    assert(views(v@).take(i as int) =~= views(v@));
    r
}


/// The pieces of `s` between occurrences of `sep`, as `str::split` with a
/// character gives them: one piece more than there are separators.
pub open spec fn split_on(s: Seq<char>, sep: char) -> Seq<Seq<char>>
    decreases s.len(),
{
    if s.len() == 0 {
        seq![Seq::<char>::empty()]
    } else {
        let rest = split_on(s.drop_last(), sep);
        if s.last() == sep {
            rest.push(Seq::<char>::empty())
        } else {
            rest.update(rest.len() - 1, rest.last().push(s.last()))
        }
    }
}

/// The pieces joined with `sep` between consecutive ones.
pub open spec fn join_with(pieces: Seq<Seq<char>>, sep: char) -> Seq<char>
    decreases pieces.len(),
{
    if pieces.len() == 0 {
        Seq::empty()
    } else if pieces.len() == 1 {
        pieces[0]
    } else {
        join_with(pieces.drop_last(), sep).push(sep) + pieces.last()
    }
}

/// `split_on` always gives at least one piece.
pub proof fn lemma_split_on_len(s: Seq<char>, sep: char)
    ensures
        split_on(s, sep).len() >= 1,
    decreases s.len(),
{
    if s.len() > 0 {
        lemma_split_on_len(s.drop_last(), sep);
    }
}

/// Joining the pieces of a split with the same separator gives the text back.
pub proof fn lemma_join_split(s: Seq<char>, sep: char)
    ensures
        join_with(split_on(s, sep), sep) == s,
    decreases s.len(),
{
    if s.len() > 0 {
        let p = s.drop_last();
        let rest = split_on(p, sep);
        lemma_join_split(p, sep);
        lemma_split_on_len(p, sep);
        if s.last() == sep {
            let q = rest.push(Seq::<char>::empty());
            assert(q.drop_last() =~= rest);
            assert(join_with(q, sep) =~= join_with(rest, sep).push(sep) + Seq::<char>::empty());
            assert(s =~= p.push(sep));
        } else {
            let q = rest.update(rest.len() - 1, rest.last().push(s.last()));
            if rest.len() == 1 {
                assert(join_with(rest, sep) == rest[0]);
                assert(q[0] =~= p.push(s.last()));
                assert(s =~= p.push(s.last()));
            } else {
                assert(q.drop_last() =~= rest.drop_last());
                assert(join_with(rest, sep) == join_with(rest.drop_last(), sep).push(sep) + rest.last());
                assert(join_with(q, sep) =~= join_with(rest.drop_last(), sep).push(sep) + rest.last().push(s.last()));
                assert(s =~= p.push(s.last()));
            }
        }
    }
}

/// Splits `s` at every `sep`, as `s.split(sep).map(String::from).collect()` does.
pub fn split_string(s: &str, sep: char) -> (r: Vec<String>)
    ensures
        views(r@) == split_on(s@, sep),
{
    let chars = chars_of(s);
    let mut pieces: Vec<String> = Vec::new();
    let mut cur = String::new();
    let mut i: usize = 0;
    while i < chars.len()
        invariant
            chars@ == s@,
            i <= chars@.len(),
            views(pieces@).push(cur@) == split_on(chars@.take(i as int), sep),
        decreases chars@.len() - i,
    {
        let ghost p = chars@.take(i as int);
        assert(chars@.take(i + 1).drop_last() =~= p);
        assert(chars@.take(i + 1).last() == chars@[i as int]);
        let ghost old_pieces = pieces@;
        let ghost old_cur = cur@;
        if chars[i] == sep {
            let done = cur;
            pieces.push(done);
            proof {
                lemma_views_push(old_pieces, done);
            }
            cur = String::new();
            assert(views(pieces@).push(cur@) =~= split_on(chars@.take(i + 1), sep));
        } else {
            push_char(&mut cur, chars[i]);
            assert(views(pieces@).push(cur@) =~= split_on(chars@.take(i + 1), sep));
        }
        i = i + 1;
    }
    assert(chars@.take(i as int) =~= chars@);
    let done = cur;
    let ghost old_pieces = pieces@;
    pieces.push(done);
    proof {
        lemma_views_push(old_pieces, done);
    }
    pieces
}


/// Text without the separator is a single piece.
pub proof fn lemma_split_no_sep(s: Seq<char>, sep: char)
    requires
        !s.contains(sep),
    ensures
        split_on(s, sep) == seq![s],
    decreases s.len(),
{
    if s.len() > 0 {
        let p = s.drop_last();
        assert(!p.contains(sep)) by {
            if p.contains(sep) {
                let j = choose|j: int| 0 <= j < p.len() && p[j] == sep;
                assert(s[j] == sep);
            }
        }
        lemma_split_no_sep(p, sep);
        assert(s[s.len() - 1] != sep);
        assert(p.push(s.last()) =~= s);
        assert(seq![p].update(0, p.push(s.last())) =~= seq![s]);
    } else {
        assert(s =~= Seq::<char>::empty());
    }
}

/// Splitting at a separator between two texts splits each of them.
pub proof fn lemma_split_concat(a: Seq<char>, b: Seq<char>, sep: char)
    ensures
        split_on(a.push(sep) + b, sep) == split_on(a, sep) + split_on(b, sep),
    decreases b.len(),
{
    let ab = a.push(sep) + b;
    if b.len() == 0 {
        assert(ab =~= a.push(sep));
        assert(ab.drop_last() =~= a);
        assert(split_on(b, sep) =~= seq![Seq::<char>::empty()]);
        assert(split_on(a, sep).push(Seq::<char>::empty()) =~= split_on(a, sep) + seq![Seq::<char>::empty()]);
    } else {
        let bp = b.drop_last();
        assert(ab.drop_last() =~= a.push(sep) + bp);
        assert(ab.last() == b.last());
        lemma_split_concat(a, bp, sep);
        lemma_split_on_len(bp, sep);
        let l = split_on(a, sep);
        let r = split_on(bp, sep);
        if b.last() == sep {
            assert((l + r).push(Seq::<char>::empty()) =~= l + r.push(Seq::<char>::empty()));
        } else {
            assert((l + r).update((l + r).len() - 1, (l + r).last().push(b.last())) =~= l + r.update(
                r.len() - 1,
                r.last().push(b.last()),
            ));
        }
    }
}


/// Every character of a decimal notation is a digit, and there is at least one.
pub proof fn lemma_decimal_digits(n: nat)
    ensures
        decimal(n).len() >= 1,
        forall|i: int| 0 <= i < decimal(n).len() ==> is_digit(#[trigger] decimal(n)[i]),
        n >= 10 <==> decimal(n).len() >= 2,
    decreases n,
{
    if n >= 10 {
        lemma_decimal_digits(n / 10);
        assert forall|i: int| 0 <= i < decimal(n).len() implies is_digit(#[trigger] decimal(n)[i]) by {
            if i < decimal(n / 10).len() {
                assert(decimal(n)[i] == decimal(n / 10)[i]);
            }
        }
    }
}

/// Reading the decimal notation of `n` back gives `n`.
pub proof fn lemma_digits_value_decimal(n: nat)
    requires
        n <= i32::MAX,
    ensures
        digits_value(decimal(n), false) == Ok::<i32, IntErrorKind>(n as i32),
    decreases n,
{
    let d = n % 10;
    assert(digit_char(d) as int == 48 + d);
    assert(is_digit(digit_char(d)));
    if n < 10 {
        assert(decimal(n).drop_last() =~= Seq::<char>::empty());
        assert(decimal(n).last() == digit_char(n));
        assert(digits_value(decimal(n).drop_last(), false) == Ok::<i32, IntErrorKind>(0i32));
        assert(digit_value(decimal(n).last()) == n);
    } else {
        lemma_digits_value_decimal(n / 10);
        assert(decimal(n).drop_last() =~= decimal(n / 10));
        assert(decimal(n).last() == digit_char(d));
        assert((n / 10) * 10 + d == n);
        assert(digit_value(decimal(n).last()) == d);
        let v = (n / 10) as i32;
        assert(v as int == n / 10);
        assert(v * 10 + digit_value(decimal(n).last()) == n);
    }
}

/// `str::parse::<i32>` reads the decimal notation of `n` back as `n`.
pub proof fn lemma_parse_decimal(n: nat)
    requires
        n <= i32::MAX,
    ensures
        parse_i32_spec(decimal(n)) == Ok::<i32, IntErrorKind>(n as i32),
{
    lemma_decimal_digits(n);
    lemma_digits_value_decimal(n);
    assert(is_digit(decimal(n)[0]));
}

/// How an integer is written in decimal: `-` before the digits of a negative one.
pub open spec fn signed_decimal(k: int) -> Seq<char> {
    if k < 0 {
        seq!['-'] + decimal((-k) as nat)
    } else {
        decimal(k as nat)
    }
}

/// Reading the digits of `n` as a negative number gives `-n`.
proof fn lemma_digits_value_decimal_neg(n: nat)
    requires
        n <= 2147483648,
    ensures
        digits_value(decimal(n), true) == Ok::<i32, IntErrorKind>((-n) as i32),
    decreases n,
{
    let d = n % 10;
    assert(digit_char(d) as int == 48 + d);
    assert(is_digit(digit_char(d)));
    if n < 10 {
        assert(decimal(n).drop_last() =~= Seq::<char>::empty());
        assert(decimal(n).last() == digit_char(n));
        assert(digits_value(decimal(n).drop_last(), true) == Ok::<i32, IntErrorKind>(0i32));
        assert(digit_value(decimal(n).last()) == n);
    } else {
        lemma_digits_value_decimal_neg(n / 10);
        assert(decimal(n).drop_last() =~= decimal(n / 10));
        assert(decimal(n).last() == digit_char(d));
        assert((n / 10) * 10 + d == n);
        assert(digit_value(decimal(n).last()) == d);
        let v = (-(n / 10)) as i32;
        assert(v as int == -(n / 10));
        assert(v * 10 - digit_value(decimal(n).last()) == -n);
    }
}

/// `str::parse::<i32>` reads the decimal notation of every `i32` back, and
/// that notation is digits with perhaps a leading `-`.
pub proof fn lemma_parse_signed_decimal(k: i32)
    ensures
        parse_i32_spec(signed_decimal(k as int)) == Ok::<i32, IntErrorKind>(k),
        signed_decimal(k as int).len() >= 1,
        forall|i: int| 0 <= i < signed_decimal(k as int).len()
            ==> is_digit(#[trigger] signed_decimal(k as int)[i]) || signed_decimal(k as int)[i] == '-',
{
    if k >= 0 {
        lemma_parse_decimal(k as nat);
        lemma_decimal_digits(k as nat);
    } else {
        let n = (-k) as nat;
        let s = signed_decimal(k as int);
        lemma_decimal_digits(n);
        lemma_digits_value_decimal_neg(n);
        assert(s.drop_first() =~= decimal(n));
        assert(s[0] == '-');
        assert(s.len() >= 2);
        assert forall|i: int| 0 <= i < s.len() implies is_digit(#[trigger] s[i]) || s[i] == '-' by {
            if i > 0 {
                assert(s[i] == decimal(n)[i - 1]);
            }
        }
    }
}

/// A text has at least as many UTF-8 bytes as characters.
pub proof fn lemma_encode_utf8_len_at_least(s: Seq<char>)
    ensures
        encode_utf8(s).len() >= s.len(),
    decreases s.len(),
{
    if s.len() > 0 {
        lemma_encode_utf8_len_at_least(s.drop_last());
        lemma_encode_utf8_push_len(s.drop_last(), s.last());
        assert(s.drop_last().push(s.last()) =~= s);
    }
}

} // verus!

//! The text grammar of a redirect configuration payload.
//!
//! A payload is a sequence of fields separated by `;` followed by zero or
//! more spaces. Each field splits at its first `=` into a key and a value; a
//! field without `=` is a key with an empty value. Duplicate keys are
//! resolved last-occurrence-wins. The spec functions here are the
//! mathematical statement of that grammar; the executable functions are
//! proved against them.

use vstd::prelude::*;

verus! {

/// Index of the first occurrence of `c` in `s`, or `s.len()` if absent.
pub open spec fn first_at(s: Seq<char>, c: char) -> int
    decreases s.len(),
{
    if s.len() == 0 {
        0
    } else if s[0] == c {
        0
    } else {
        1 + first_at(s.drop_first(), c)
    }
}

/// `first_at` is the least index holding `c`, and `s.len()` exactly when
/// `c` does not occur.
pub proof fn lemma_first_at(s: Seq<char>, c: char)
    ensures
        0 <= first_at(s, c) <= s.len(),
        first_at(s, c) < s.len() ==> s[first_at(s, c)] == c,
        forall|j: int| 0 <= j < first_at(s, c) ==> s[j] != c,
    decreases s.len(),
{
    if s.len() > 0 && s[0] != c {
        lemma_first_at(s.drop_first(), c);
        assert forall|j: int| 0 <= j < first_at(s, c) implies s[j] != c by {
            if j > 0 {
                assert(s.drop_first()[j - 1] == s[j]);
            }
        }
    }
}

/// Any index that holds `c` after no earlier occurrence is `first_at`.
pub proof fn lemma_first_at_unique(s: Seq<char>, c: char, k: int)
    requires
        0 <= k <= s.len(),
        k < s.len() ==> s[k] == c,
        forall|j: int| 0 <= j < k ==> s[j] != c,
    ensures
        first_at(s, c) == k,
{
    lemma_first_at(s, c);
    if first_at(s, c) < k {
        assert(s[first_at(s, c)] != c);
    }
    if k < first_at(s, c) {
        assert(s[k] != c);
    }
}

/// The segments of `s` between occurrences of `;`, in order, without any
/// trimming. A payload with no `;` is one segment.
pub open spec fn spec_split(s: Seq<char>) -> Seq<Seq<char>>
    decreases s.len(),
    via spec_split_decreases
{
    let i = first_at(s, ';');
    if i == s.len() {
        seq![s]
    } else {
        seq![s.take(i)] + spec_split(s.skip(i + 1))
    }
}

#[via_fn]
proof fn spec_split_decreases(s: Seq<char>) {
    lemma_first_at(s, ';');
}

/// `s` without its leading spaces.
pub open spec fn spec_ltrim(s: Seq<char>) -> Seq<char>
    decreases s.len(),
{
    if s.len() > 0 && s[0] == ' ' {
        spec_ltrim(s.drop_first())
    } else {
        s
    }
}

/// The fields of a payload: segments between `;`, each with the spaces that
/// followed the separator removed. The first segment follows no separator
/// and is kept as it stands.
pub open spec fn spec_fields(s: Seq<char>) -> Seq<Seq<char>> {
    let raw = spec_split(s);
    Seq::new(raw.len(), |i: int| if i == 0 { raw[i] } else { spec_ltrim(raw[i]) })
}

/// The key of a field: everything before its first `=`, or the whole field
/// when it has none.
pub open spec fn spec_key(f: Seq<char>) -> Seq<char> {
    f.take(first_at(f, '='))
}

/// The value of a field: everything after its first `=`, or empty when it
/// has none. A value may itself contain `=`.
pub open spec fn spec_value(f: Seq<char>) -> Seq<char> {
    if first_at(f, '=') == f.len() {
        Seq::empty()
    } else {
        f.skip(first_at(f, '=') + 1)
    }
}

/// The value of the last field whose key is `key`, if any: duplicate keys
/// resolve last-occurrence-wins.
pub open spec fn spec_lookup(fields: Seq<Seq<char>>, key: Seq<char>) -> Option<Seq<char>>
    decreases fields.len(),
{
    if fields.len() == 0 {
        None
    } else if spec_key(fields.last()) == key {
        Some(spec_value(fields.last()))
    } else {
        spec_lookup(fields.drop_last(), key)
    }
}

/// The value bound to `key` in the payload `s`, if any.
pub open spec fn field_value(s: Seq<char>, key: Seq<char>) -> Option<Seq<char>> {
    spec_lookup(spec_fields(s), key)
}

/// A decimal digit.
pub open spec fn is_digit(c: char) -> bool {
    '0' <= c <= '9'
}

pub open spec fn digit_val(c: char) -> int {
    (c as u32) - ('0' as u32)
}

pub open spec fn all_digits(s: Seq<char>) -> bool {
    forall|i: int| 0 <= i < s.len() ==> is_digit(s[i])
}

/// The number that the digit string `s` denotes in base ten.
pub open spec fn decimal_value(s: Seq<char>) -> int
    decreases s.len(),
{
    if s.len() == 0 {
        0
    } else {
        decimal_value(s.drop_last()) * 10 + digit_val(s.last())
    }
}

/// `s` is a decimal numeral whose value fits in eight unsigned bits.
pub open spec fn is_u8_decimal(s: Seq<char>) -> bool {
    s.len() > 0 && all_digits(s) && decimal_value(s) <= 255
}

pub proof fn lemma_decimal_nonneg(s: Seq<char>)
    requires
        all_digits(s),
    ensures
        decimal_value(s) >= 0,
    decreases s.len(),
{
    if s.len() > 0 {
        assert(all_digits(s.drop_last()));
        lemma_decimal_nonneg(s.drop_last());
        assert(is_digit(s.last()));
    }
}

/// A digit string is worth at least any of its prefixes.
pub proof fn lemma_decimal_mono(s: Seq<char>, j: int)
    requires
        all_digits(s),
        0 <= j <= s.len(),
    ensures
        decimal_value(s.take(j)) <= decimal_value(s),
    decreases s.len(),
{
    if j == s.len() {
        assert(s.take(j) =~= s);
    } else {
        assert(all_digits(s.drop_last()));
        assert(s.take(j) =~= s.drop_last().take(j));
        lemma_decimal_mono(s.drop_last(), j);
        lemma_decimal_nonneg(s.drop_last());
        assert(is_digit(s.last()));
    }
}

/// The characters of `s`, one by one.
pub fn chars_of(s: &str) -> (v: Vec<char>)
    ensures
        v@ == s@,
{
    let n = s.unicode_len();
    let mut v: Vec<char> = Vec::new();
    let mut i: usize = 0;
    while i < n
        invariant
            n == s@.len(),
            i <= n,
            v@ == s@.take(i as int),
        decreases n - i,
    {
        v.push(s.get_char(i));
        i = i + 1;
        proof {
            assert(v@ =~= s@.take(i as int));
        }
    }
    proof {
        assert(v@ =~= s@);
    }
    v
}

/// First occurrence of `c` in `v` at or after `start`, or `v.len()`.
pub fn find_from(v: &Vec<char>, start: usize, c: char) -> (i: usize)
    requires
        start <= v@.len(),
    ensures
        start <= i <= v@.len(),
        i < v@.len() ==> v@[i as int] == c,
        forall|j: int| start <= j < i ==> v@[j] != c,
{
    let mut i = start;
    while i < v.len()
        invariant
            start <= i <= v@.len(),
            forall|j: int| start <= j < i ==> v@[j] != c,
        decreases v@.len() - i,
    {
        if v[i] == c {
            return i;
        }
        i = i + 1;
    }
    i
}

/// The characters of `v` from `a` (inclusive) to `b` (exclusive).
pub fn subvec(v: &Vec<char>, a: usize, b: usize) -> (out: Vec<char>)
    requires
        a <= b <= v@.len(),
    ensures
        out@ == v@.subrange(a as int, b as int),
{
    let mut out: Vec<char> = Vec::new();
    let mut i = a;
    while i < b
        invariant
            a <= i <= b <= v@.len(),
            out@ == v@.subrange(a as int, i as int),
        decreases b - i,
    {
        out.push(v[i]);
        i = i + 1;
        proof {
            assert(out@ =~= v@.subrange(a as int, i as int));
        }
    }
    out
}

/// Whether the characters of `v` are exactly the characters of `s`.
pub fn eq_chars_str(v: &Vec<char>, s: &str) -> (r: bool)
    ensures
        r == (v@ == s@),
{
    let n = s.unicode_len();
    if v.len() != n {
        return false;
    }
    let mut i: usize = 0;
    while i < n
        invariant
            n == s@.len(),
            v@.len() == n,
            i <= n,
            forall|j: int| 0 <= j < i ==> v@[j] == s@[j],
        decreases n - i,
    {
        if v[i] != s.get_char(i) {
            return false;
        }
        i = i + 1;
    }
    proof {
        assert(v@ =~= s@);
    }
    true
}

/// Decode `v` as an unsigned 8-bit decimal numeral.
pub fn parse_u8_decimal(v: &Vec<char>) -> (r: Option<u8>)
    ensures
        r is Some <==> is_u8_decimal(v@),
        r matches Some(k) ==> k as int == decimal_value(v@),
{
    if v.len() == 0 {
        return None;
    }
    let mut acc: u32 = 0;
    let mut i: usize = 0;
    while i < v.len()
        invariant
            0 < v@.len(),
            i <= v@.len(),
            all_digits(v@.take(i as int)),
            acc as int == decimal_value(v@.take(i as int)),
            acc <= 255,
        decreases v@.len() - i,
    {
        let c = v[i];
        if c < '0' || c > '9' {
            assert(!is_digit(v@[i as int]));
            return None;
        }
        let d = (c as u32) - ('0' as u32);
        let next = acc * 10 + d;
        proof {
            assert(v@.take(i + 1).drop_last() =~= v@.take(i as int));
            assert(v@.take(i + 1).last() == v@[i as int]);
            assert(all_digits(v@.take(i + 1)));
        }
        if next > 255 {
            proof {
                if all_digits(v@) {
                    lemma_decimal_mono(v@, i + 1);
                }
            }
            return None;
        }
        acc = next;
        i = i + 1;
    }
    proof {
        assert(v@.take(i as int) =~= v@);
    }
    Some(acc as u8)
}

/// `spec_ltrim` drops exactly the leading run of spaces.
proof fn lemma_ltrim_at(s: Seq<char>, i: int)
    requires
        0 <= i <= s.len(),
        forall|j: int| 0 <= j < i ==> s[j] == ' ',
        i < s.len() ==> s[i] != ' ',
    ensures
        spec_ltrim(s) == s.skip(i),
    decreases i,
{
    if i == 0 {
        assert(s.skip(0) =~= s);
    } else {
        assert(s[0] == ' ');
        lemma_ltrim_at(s.drop_first(), i - 1);
        assert(s.drop_first().skip(i - 1) =~= s.skip(i));
    }
}

/// `v` without its leading spaces.
pub fn ltrim_spaces(v: &Vec<char>) -> (out: Vec<char>)
    ensures
        out@ == spec_ltrim(v@),
{
    let mut i: usize = 0;
    while i < v.len() && v[i] == ' '
        invariant
            i <= v@.len(),
            forall|j: int| 0 <= j < i ==> v@[j] == ' ',
        decreases v@.len() - i,
    {
        i = i + 1;
    }
    let out = subvec(v, i, v.len());
    proof {
        lemma_ltrim_at(v@, i as int);
        assert(v@.subrange(i as int, v@.len() as int) =~= v@.skip(i as int));
    }
    out
}

/// The deep view of a character vector is its view.
proof fn lemma_chars_deep_view(v: Vec<char>)
    ensures
        v.deep_view() == v@,
{
    assert(v.deep_view() =~= v@);
}

/// The segments of `v` between occurrences of `;`.
pub fn split_on_semi(v: &Vec<char>) -> (segments: Vec<Vec<char>>)
    ensures
        segments.deep_view() == spec_split(v@),
{
    let mut segments: Vec<Vec<char>> = Vec::new();
    let mut pos: usize = 0;
    proof {
        assert(v@.skip(0) =~= v@);
        assert(segments.deep_view() + spec_split(v@) =~= spec_split(v@));
    }
    loop
        invariant
            pos <= v@.len(),
            spec_split(v@) == segments.deep_view() + spec_split(v@.skip(pos as int)),
        decreases v@.len() - pos,
    {
        let ghost done = segments.deep_view();
        let i = find_from(v, pos, ';');
        let f = subvec(v, pos, i);
        proof {
            let rest = v@.skip(pos as int);
            lemma_first_at_unique(rest, ';', i - pos);
            assert(f@ =~= rest.take(i - pos));
            lemma_chars_deep_view(f);
        }
        segments.push(f);
        proof {
            assert(segments.deep_view() =~= done.push(f@));
        }
        if i == v.len() {
            proof {
                let rest = v@.skip(pos as int);
                assert(f@ =~= rest);
                assert(segments.deep_view() =~= done + seq![rest]);
            }
            return segments;
        }
        proof {
            let rest = v@.skip(pos as int);
            assert(rest.skip(i - pos + 1) =~= v@.skip(i + 1));
            assert(segments.deep_view() + spec_split(v@.skip(i + 1)) =~= done + spec_split(rest));
        }
        pos = i + 1;
    }
}

/// The fields of the payload `v`, per `spec_fields`.
pub fn split_fields(v: &Vec<char>) -> (fields: Vec<Vec<char>>)
    ensures
        fields.deep_view() == spec_fields(v@),
{
    let raw = split_on_semi(v);
    let mut fields: Vec<Vec<char>> = Vec::new();
    let mut i: usize = 0;
    while i < raw.len()
        invariant
            i <= raw@.len(),
            raw.deep_view() == spec_split(v@),
            fields.deep_view() =~= spec_fields(v@).take(i as int),
        decreases raw@.len() - i,
    {
        let ghost done = fields.deep_view();
        let f = if i == 0 {
            subvec(&raw[0], 0, raw[0].len())
        } else {
            ltrim_spaces(&raw[i])
        };
        proof {
            lemma_chars_deep_view(raw@[i as int]);
            assert(raw@[i as int].deep_view() == raw.deep_view()[i as int]);
            if i == 0 {
                assert(f@ =~= raw@[0]@);
            }
            assert(f@ == spec_fields(v@)[i as int]);
            lemma_chars_deep_view(f);
        }
        fields.push(f);
        i = i + 1;
        proof {
            assert(fields.deep_view() =~= done.push(f@));
            assert(fields.deep_view() =~= spec_fields(v@).take(i as int));
        }
    }
    proof {
        assert(spec_fields(v@).take(i as int) =~= spec_fields(v@));
    }
    fields
}

/// The key and value of one field.
pub fn split_field(f: &Vec<char>) -> (kv: (Vec<char>, Vec<char>))
    ensures
        kv.0@ == spec_key(f@),
        kv.1@ == spec_value(f@),
{
    let i = find_from(f, 0, '=');
    proof {
        lemma_first_at_unique(f@, '=', i as int);
        assert(f@.subrange(0, i as int) =~= f@.take(i as int));
    }
    if i == f.len() {
        let key = subvec(f, 0, f.len());
        (key, Vec::new())
    } else {
        let key = subvec(f, 0, i);
        let value = subvec(f, i + 1, f.len());
        proof {
            assert(f@.subrange(i + 1, f@.len() as int) =~= f@.skip(i + 1));
        }
        (key, value)
    }
}

/// The value of the last field of `fields` whose key is `key`, if any.
pub fn lookup_value(fields: &Vec<Vec<char>>, key: &str) -> (r: Option<Vec<char>>)
    ensures
        match r {
            Some(value) => spec_lookup(fields.deep_view(), key@) == Some(value@),
            None => spec_lookup(fields.deep_view(), key@) is None,
        },
{
    let mut r: Option<Vec<char>> = None;
    let mut i: usize = 0;
    while i < fields.len()
        invariant
            i <= fields@.len(),
            match r {
                Some(value) => spec_lookup(fields.deep_view().take(i as int), key@) == Some(
                    value@,
                ),
                None => spec_lookup(fields.deep_view().take(i as int), key@) is None,
            },
        decreases fields@.len() - i,
    {
        let kv = split_field(&fields[i]);
        proof {
            let dv = fields.deep_view();
            lemma_chars_deep_view(fields@[i as int]);
            assert(dv[i as int] == fields@[i as int].deep_view());
            assert(dv.take(i + 1).drop_last() =~= dv.take(i as int));
            assert(dv.take(i + 1).last() == dv[i as int]);
        }
        if eq_chars_str(&kv.0, key) {
            r = Some(kv.1);
        }
        i = i + 1;
    }
    proof {
        assert(fields.deep_view().take(i as int) =~= fields.deep_view());
    }
    r
}

} // verus!

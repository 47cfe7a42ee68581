use vstd::prelude::*;

verus! {

/// A JSON value, as the codec sees it between parsing and printing.
///
/// Numbers are carried as their source tokens. The codec never needs the
/// numeric value of a timestamp, only its exact text, and keeping the token
/// makes printing the exact inverse of parsing. Objects keep their entries
/// in source order, duplicates included, so that a decoder can choose per
/// schema whether a repeated key is an error or a harmless overwrite.
#[derive(Debug, PartialEq, Eq)]
pub enum Json {
    Null,
    Bool(bool),
    Num(String),
    Str(String),
    Arr(Vec<Json>),
    Obj(Vec<(String, Json)>),
}

/// The mathematical shape of a `Json` value.
#[verifier::ext_equal]
pub enum JsonV {
    Null,
    Bool(bool),
    Num(Seq<char>),
    Str(Seq<char>),
    Arr(Seq<JsonV>),
    Obj(Seq<(Seq<char>, JsonV)>),
}

pub open spec fn json_view(j: Json) -> JsonV
    decreases j,
{
    match j {
        Json::Null => JsonV::Null,
        Json::Bool(b) => JsonV::Bool(b),
        Json::Num(t) => JsonV::Num(t@),
        Json::Str(t) => JsonV::Str(t@),
        Json::Arr(v) => JsonV::Arr(json_view_elems(v@)),
        Json::Obj(v) => JsonV::Obj(json_view_entries(v@)),
    }
}

pub open spec fn json_view_elems(v: Seq<Json>) -> Seq<JsonV>
    decreases v,
{
    if v.len() == 0 {
        Seq::empty()
    } else {
        json_view_elems(v.subrange(0, v.len() - 1)).push(json_view(v[v.len() - 1]))
    }
}

pub open spec fn json_view_entries(v: Seq<(String, Json)>) -> Seq<(Seq<char>, JsonV)>
    decreases v,
{
    if v.len() == 0 {
        Seq::empty()
    } else {
        json_view_entries(v.subrange(0, v.len() - 1)).push(
            (v[v.len() - 1].0@, json_view(v[v.len() - 1].1)),
        )
    }
}

impl View for Json {
    type V = JsonV;

    open spec fn view(&self) -> JsonV {
        json_view(*self)
    }
}

pub broadcast proof fn lemma_json_view_elems_len(v: Seq<Json>)
    ensures
        (#[trigger] json_view_elems(v)).len() == v.len(),
    decreases v.len(),
{
    if v.len() > 0 {
        lemma_json_view_elems_len(v.subrange(0, v.len() - 1));
    }
}

pub broadcast proof fn lemma_json_view_elems_index(v: Seq<Json>, i: int)
    requires
        0 <= i < v.len(),
    ensures
        #[trigger] json_view_elems(v)[i] == json_view(v[i]),
    decreases v.len(),
{
    lemma_json_view_elems_len(v);
    if i < v.len() - 1 {
        lemma_json_view_elems_len(v.subrange(0, v.len() - 1));
        lemma_json_view_elems_index(v.subrange(0, v.len() - 1), i);
    }
}

pub broadcast proof fn lemma_json_view_entries_len(v: Seq<(String, Json)>)
    ensures
        (#[trigger] json_view_entries(v)).len() == v.len(),
    decreases v.len(),
{
    if v.len() > 0 {
        lemma_json_view_entries_len(v.subrange(0, v.len() - 1));
    }
}

pub broadcast proof fn lemma_json_view_entries_index(v: Seq<(String, Json)>, i: int)
    requires
        0 <= i < v.len(),
    ensures
        #[trigger] json_view_entries(v)[i] == (v[i].0@, json_view(v[i].1)),
    decreases v.len(),
{
    lemma_json_view_entries_len(v);
    if i < v.len() - 1 {
        lemma_json_view_entries_len(v.subrange(0, v.len() - 1));
        lemma_json_view_entries_index(v.subrange(0, v.len() - 1), i);
    }
}

pub broadcast proof fn lemma_json_view_elems_push(v: Seq<Json>, e: Json)
    ensures
        #[trigger] json_view_elems(v.push(e)) == json_view_elems(v).push(json_view(e)),
{
    assert(v.push(e).subrange(0, v.push(e).len() - 1) =~= v);
}

pub broadcast proof fn lemma_json_view_entries_push(v: Seq<(String, Json)>, e: (String, Json))
    ensures
        #[trigger] json_view_entries(v.push(e)) == json_view_entries(v).push(
            (e.0@, json_view(e.1)),
        ),
{
    assert(v.push(e).subrange(0, v.push(e).len() - 1) =~= v);
}

pub proof fn lemma_json_view_elems_cons(x: Json, r: Seq<Json>)
    ensures
        json_view_elems(seq![x] + r) == seq![json_view(x)] + json_view_elems(r),
{
    let w = seq![x] + r;
    lemma_json_view_elems_len(w);
    lemma_json_view_elems_len(r);
    assert forall|p: int| 0 <= p < w.len() implies json_view_elems(w)[p] == (seq![json_view(x)]
        + json_view_elems(r))[p] by {
        lemma_json_view_elems_index(w, p);
        if p > 0 {
            lemma_json_view_elems_index(r, p - 1);
        }
    }
    assert(json_view_elems(w) =~= seq![json_view(x)] + json_view_elems(r));
}

pub proof fn lemma_json_view_entries_cons(x: (String, Json), r: Seq<(String, Json)>)
    ensures
        json_view_entries(seq![x] + r) == seq![(x.0@, json_view(x.1))] + json_view_entries(r),
{
    let w = seq![x] + r;
    lemma_json_view_entries_len(w);
    lemma_json_view_entries_len(r);
    assert forall|p: int| 0 <= p < w.len() implies json_view_entries(w)[p] == (
    seq![(x.0@, json_view(x.1))] + json_view_entries(r))[p] by {
        lemma_json_view_entries_index(w, p);
        if p > 0 {
            lemma_json_view_entries_index(r, p - 1);
        }
    }
    assert(json_view_entries(w) =~= seq![(x.0@, json_view(x.1))] + json_view_entries(r));
}

pub broadcast group group_json_view {
    lemma_json_view_elems_len,
    lemma_json_view_elems_index,
    lemma_json_view_elems_push,
    lemma_json_view_entries_len,
    lemma_json_view_entries_index,
    lemma_json_view_entries_push,
}

/// A printable JSON value: every number token follows the JSON number
/// grammar, so that printing yields valid JSON text.
pub open spec fn json_wf(v: JsonV) -> bool
    decreases v,
{
    match v {
        JsonV::Num(t) => is_json_num(t),
        JsonV::Arr(a) => forall|i: int| 0 <= i < a.len() ==> json_wf(#[trigger] a[i]),
        JsonV::Obj(o) => forall|i: int| 0 <= i < o.len() ==> json_wf((#[trigger] o[i]).1),
        _ => true,
    }
}

pub open spec fn is_digit(c: char) -> bool {
    '0' <= c && c <= '9'
}

/// Index of the first non-digit character at or after `i`.
pub open spec fn skip_digits(s: Seq<char>, i: int) -> int
    decreases s.len() - i,
{
    if 0 <= i < s.len() && is_digit(s[i]) {
        skip_digits(s, i + 1)
    } else {
        i
    }
}

pub proof fn lemma_skip_digits(s: Seq<char>, i: int)
    requires
        0 <= i <= s.len(),
    ensures
        i <= skip_digits(s, i) <= s.len(),
        forall|k: int| i <= k < skip_digits(s, i) ==> is_digit(s[k]),
        skip_digits(s, i) == s.len() || !is_digit(s[skip_digits(s, i)]),
    decreases s.len() - i,
{
    if i < s.len() && is_digit(s[i]) {
        lemma_skip_digits(s, i + 1);
    }
}

/// Whether position `i` begins a well-formed optional exponent part that
/// runs to the end of the token.
pub open spec fn exp_part_ok(s: Seq<char>, i: int) -> bool {
    i == s.len() || {
        &&& i < s.len()
        &&& (s[i] == 'e' || s[i] == 'E')
        &&& {
            let j = if i + 1 < s.len() && (s[i + 1] == '+' || s[i + 1] == '-') {
                i + 2
            } else {
                i + 1
            };
            j < s.len() && skip_digits(s, j) == s.len()
        }
    }
}

/// A base-10 floating-point literal: an optional sign, then either digits
/// with an optional fraction or a fraction alone, then an optional
/// exponent. The sentinel spellings of infinities and of the not-a-number
/// value are not literals under this grammar.
pub open spec fn is_float_lit(s: Seq<char>) -> bool {
    let i0: int = if s.len() > 0 && (s[0] == '+' || s[0] == '-') {
        1
    } else {
        0
    };
    let d = skip_digits(s, i0);
    if d > i0 {
        if d < s.len() && s[d] == '.' {
            exp_part_ok(s, skip_digits(s, d + 1))
        } else {
            exp_part_ok(s, d)
        }
    } else {
        &&& i0 < s.len()
        &&& s[i0] == '.'
        &&& {
            let f = skip_digits(s, i0 + 1);
            f > i0 + 1 && exp_part_ok(s, f)
        }
    }
}

/// Whether position `i` begins a well-formed optional fraction part
/// followed by a well-formed optional exponent part ending the token.
pub open spec fn frac_exp_ok(s: Seq<char>, i: int) -> bool {
    if 0 <= i < s.len() && s[i] == '.' {
        let f = skip_digits(s, i + 1);
        f > i + 1 && exp_part_ok(s, f)
    } else {
        exp_part_ok(s, i)
    }
}

/// A number token of the JSON grammar: `-? (0 | [1-9][0-9]*) frac? exp?`.
pub open spec fn is_json_num(s: Seq<char>) -> bool {
    let i0: int = if s.len() > 0 && s[0] == '-' {
        1
    } else {
        0
    };
    &&& i0 < s.len()
    &&& is_digit(s[i0])
    &&& {
        let d = if s[i0] == '0' {
            i0 + 1
        } else {
            skip_digits(s, i0)
        };
        frac_exp_ok(s, d)
    }
}

/// Index of the first non-digit, as executable code.
pub fn digits_end(v: &Vec<char>, i: usize) -> (r: usize)
    requires
        i <= v.len(),
    ensures
        r == skip_digits(v@, i as int),
        i <= r <= v.len(),
{
    let mut j = i;
    while j < v.len() && '0' <= v[j] && v[j] <= '9'
        invariant
            i <= j <= v.len(),
            skip_digits(v@, i as int) == skip_digits(v@, j as int),
        decreases v.len() - j,
    {
        j += 1;
    }
    j
}

/// Whether the exponent test of the literal grammar holds at `i`.
fn exp_part_check(v: &Vec<char>, i: usize) -> (r: bool)
    requires
        i <= v.len(),
    ensures
        r == exp_part_ok(v@, i as int),
{
    if i == v.len() {
        return true;
    }
    if !(v[i] == 'e' || v[i] == 'E') {
        return false;
    }
    let j = if i + 1 < v.len() && (v[i + 1] == '+' || v[i + 1] == '-') {
        i + 2
    } else {
        i + 1
    };
    if j >= v.len() {
        return false;
    }
    digits_end(v, j) == v.len()
}

/// Whether the characters form a base-10 floating-point literal.
pub fn check_float_lit(v: &Vec<char>) -> (r: bool)
    ensures
        r == is_float_lit(v@),
{
    let i0: usize = if v.len() > 0 && (v[0] == '+' || v[0] == '-') {
        1
    } else {
        0
    };
    let d = digits_end(v, i0);
    if d > i0 {
        if d < v.len() && v[d] == '.' {
            let f = digits_end(v, d + 1);
            exp_part_check(v, f)
        } else {
            exp_part_check(v, d)
        }
    } else {
        if i0 < v.len() && v[i0] == '.' {
            let f = digits_end(v, i0 + 1);
            f > i0 + 1 && exp_part_check(v, f)
        } else {
            false
        }
    }
}

/// Whether the fraction-and-exponent test of the number grammar holds at `i`.
fn frac_exp_check(v: &Vec<char>, i: usize) -> (r: bool)
    requires
        i <= v.len(),
    ensures
        r == frac_exp_ok(v@, i as int),
{
    if i < v.len() && v[i] == '.' {
        let f = digits_end(v, i + 1);
        f > i + 1 && exp_part_check(v, f)
    } else {
        exp_part_check(v, i)
    }
}

/// Whether the characters form a number token of the JSON grammar.
pub fn check_json_num(v: &Vec<char>) -> (r: bool)
    ensures
        r == is_json_num(v@),
{
    let i0: usize = if v.len() > 0 && v[0] == '-' {
        1
    } else {
        0
    };
    if !(i0 < v.len() && '0' <= v[i0] && v[i0] <= '9') {
        return false;
    }
    let d = if v[i0] == '0' {
        i0 + 1
    } else {
        digits_end(v, i0)
    };
    frac_exp_check(v, d)
}

} // verus!

use vstd::prelude::*;
use crate::json::{is_digit, is_json_num, json_wf, skip_digits, JsonV};
use crate::wire::{
    esc_char, hex4_val, hex_char, hex_val, is_ws, num_end, p_elems, p_entries, p_string, p_value,
    parse_text, ser_elems, ser_entries, ser_json, ser_str_body, ws_end,
};

verus! {

/// Whether the characters of `u` stand in `t` starting at `i`.
pub open spec fn has_at(t: Seq<char>, i: int, u: Seq<char>) -> bool {
    0 <= i && i + u.len() <= t.len() && t.subrange(i, i + u.len()) == u
}

proof fn lemma_has_at_split(t: Seq<char>, i: int, u: Seq<char>, w: Seq<char>)
    requires
        has_at(t, i, u + w),
    ensures
        has_at(t, i, u),
        has_at(t, i + u.len(), w),
{
    assert(t.subrange(i, i + u.len()) =~= u) by {
        assert forall|k: int| 0 <= k < u.len() implies t.subrange(i, i + u.len())[k] == u[k] by {
            assert(t.subrange(i, i + (u + w).len())[k] == (u + w)[k]);
        }
    }
    assert(t.subrange(i + u.len(), i + u.len() + w.len()) =~= w) by {
        assert forall|k: int|
            0 <= k < w.len() implies t.subrange(i + u.len(), i + u.len() + w.len())[k] == w[k] by {
            assert(t.subrange(i, i + (u + w).len())[u.len() + k] == (u + w)[u.len() + k]);
        }
    }
}

proof fn lemma_has_at_index(t: Seq<char>, i: int, u: Seq<char>, k: int)
    requires
        has_at(t, i, u),
        0 <= k < u.len(),
    ensures
        t[i + k] == u[k],
{
    assert(t.subrange(i, i + u.len())[k] == u[k]);
}

/// Digit scanning in a longer text agrees with scanning in the token it
/// contains, while the character after the token is not a digit.
proof fn lemma_skip_digits_at(tok: Seq<char>, t: Seq<char>, i: int, k: int)
    requires
        has_at(t, i, tok),
        0 <= k <= tok.len(),
        i + tok.len() == t.len() || !is_digit(t[i + tok.len()]),
    ensures
        skip_digits(t, i + k) == i + skip_digits(tok, k),
    decreases tok.len() - k,
{
    if k < tok.len() {
        lemma_has_at_index(t, i, tok, k);
        if is_digit(tok[k]) {
            lemma_skip_digits_at(tok, t, i, k + 1);
        }
    }
}

/// The printed hexadecimal digit reads back as its value.
proof fn lemma_hex_char_val(n: int)
    requires
        0 <= n < 16,
    ensures
        hex_val(hex_char(n)) == n,
{
}

/// A number token of the JSON grammar, followed by a character that
/// cannot extend a number, scans to exactly its own end.
proof fn lemma_num_end_at(tok: Seq<char>, t: Seq<char>, i: int)
    requires
        has_at(t, i, tok),
        is_json_num(tok),
        i + tok.len() == t.len() || (!is_digit(t[i + tok.len()]) && t[i + tok.len()] != '.' && t[i
            + tok.len()] != 'e' && t[i + tok.len()] != 'E' && t[i + tok.len()] != '+' && t[i
            + tok.len()] != '-'),
    ensures
        num_end(t, i) == i + tok.len(),
{
    let n = tok.len() as int;
    let i0t = if tok[0] == '-' {
        1int
    } else {
        0int
    };
    lemma_has_at_index(t, i, tok, 0);
    if tok.len() > 1 {
        lemma_has_at_index(t, i, tok, 1);
    }
    crate::json::lemma_skip_digits(tok, i0t);
    assert(i0t < n && is_digit(tok[i0t]));
    lemma_has_at_index(t, i, tok, i0t);
    let d = if tok[i0t] == '0' {
        i0t + 1
    } else {
        skip_digits(tok, i0t)
    };
    lemma_skip_digits_at(tok, t, i, i0t);
    crate::json::lemma_skip_digits(tok, i0t);
    assert(d <= n);
    if d < n {
        lemma_has_at_index(t, i, tok, d);
    }
    if d < n && tok[d] == '.' {
        lemma_skip_digits_at(tok, t, i, d + 1);
        crate::json::lemma_skip_digits(tok, d + 1);
        let f2 = skip_digits(tok, d + 1);
        assert(f2 > d + 1);
        if f2 < n {
            lemma_has_at_index(t, i, tok, f2);
        }
        if f2 < n && (tok[f2] == 'e' || tok[f2] == 'E') {
            let g = if f2 + 1 < n && (tok[f2 + 1] == '+' || tok[f2 + 1] == '-') {
                f2 + 2
            } else {
                f2 + 1
            };
            if f2 + 1 < n {
                lemma_has_at_index(t, i, tok, f2 + 1);
            }
            lemma_skip_digits_at(tok, t, i, g);
            crate::json::lemma_skip_digits(tok, g);
        }
    } else {
        if d < n && (tok[d] == 'e' || tok[d] == 'E') {
            let g = if d + 1 < n && (tok[d + 1] == '+' || tok[d + 1] == '-') {
                d + 2
            } else {
                d + 1
            };
            if d + 1 < n {
                lemma_has_at_index(t, i, tok, d + 1);
            }
            lemma_skip_digits_at(tok, t, i, g);
            crate::json::lemma_skip_digits(tok, g);
        }
    }
}

/// A printed string body followed by its closing quote reads back as the
/// original characters.
proof fn lemma_str_parses(s: Seq<char>, t: Seq<char>, i: int)
    requires
        has_at(t, i, ser_str_body(s)),
        i + ser_str_body(s).len() < t.len(),
        t[i + ser_str_body(s).len()] == '"',
    ensures
        p_string(t, i) == Option::Some((s, i + ser_str_body(s).len() + 1)),
    decreases s.len(),
{
    if s.len() == 0 {
        assert(ser_str_body(s).len() == 0);
    } else {
        let c = s[0];
        let e = esc_char(c);
        let s1 = s.subrange(1, s.len() as int);
        let r = ser_str_body(s1);
        assert(ser_str_body(s) == e + r);
        lemma_has_at_split(t, i, e, r);
        let i2 = i + e.len();
        lemma_str_parses(s1, t, i2);
        assert(seq![c] + s1 =~= s);
        if c == '"' || c == '\\' || c == '\u{08}' || c == '\u{09}' || c == '\u{0A}' || c
            == '\u{0C}' || c == '\u{0D}' {
            lemma_has_at_index(t, i, e, 0);
            lemma_has_at_index(t, i, e, 1);
        } else if (c as u32) < 32 {
            lemma_has_at_index(t, i, e, 0);
            lemma_has_at_index(t, i, e, 1);
            lemma_has_at_index(t, i, e, 2);
            lemma_has_at_index(t, i, e, 3);
            lemma_has_at_index(t, i, e, 4);
            lemma_has_at_index(t, i, e, 5);
            let n = (c as u32) as int;
            assert(0 <= n && n < 32);
            lemma_hex_char_val(n / 16);
            lemma_hex_char_val(n % 16);
            assert(t[i + 4] == hex_char(n / 16));
            assert(t[i + 5] == hex_char(n % 16));
            assert(hex_val(t[i + 2]) == 0);
            assert(hex_val(t[i + 3]) == 0);
            assert(hex4_val(t, i + 2) == (n / 16) * 16 + (n % 16));
            assert(hex4_val(t, i + 2) == n);
            vstd::utf8::char_u32_cast(c, c as u32);
            assert((n as char) == c);
        } else {
            lemma_has_at_index(t, i, e, 0);
            assert(t[i] == c);
        }
    }
}

/// A character that may follow a printed value inside a larger text.
pub open spec fn is_delim(c: char) -> bool {
    c == ',' || c == ']' || c == '}'
}

/// Printed values are never empty and never begin with whitespace or a
/// closing bracket.
proof fn lemma_ser_starts(v: JsonV)
    requires
        json_wf(v),
    ensures
        ser_json(v).len() > 0,
        !is_ws(ser_json(v)[0]),
        ser_json(v)[0] != ']',
        ser_json(v)[0] != '}',
{
    match v {
        JsonV::Null => {
            reveal_strlit("null");
            assert("null"@.len() == 4 && "null"@[0] == 'n');
        },
        JsonV::Bool(b) => {
            reveal_strlit("true");
            reveal_strlit("false");
            assert("true"@.len() == 4 && "true"@[0] == 't');
            assert("false"@.len() == 5 && "false"@[0] == 'f');
        },
        JsonV::Num(t) => {
            assert(t.len() > 0 && (t[0] == '-' || is_digit(t[0])));
        },
        JsonV::Str(_) => {
            assert(ser_json(v)[0] == '"');
        },
        JsonV::Arr(_) => {
            assert(ser_json(v)[0] == '[');
        },
        JsonV::Obj(_) => {
            assert(ser_json(v)[0] == '{');
        },
    }
}

/// A printed value inside a larger text, followed by a delimiter or the
/// end, parses back to exactly that value.
proof fn lemma_ser_parses(v: JsonV, t: Seq<char>, i: int)
    requires
        json_wf(v),
        has_at(t, i, ser_json(v)),
        i + ser_json(v).len() == t.len() || is_delim(t[i + ser_json(v).len()]),
    ensures
        p_value(t, i) == Option::Some((v, i + ser_json(v).len())),
    decreases v, 0int,
{
    let u = ser_json(v);
    lemma_ser_starts(v);
    lemma_has_at_index(t, i, u, 0);
    match v {
        JsonV::Null => {
            reveal_strlit("null");
            assert("null"@.len() == 4);
            assert(t.subrange(i, i + 4) == "null"@);
        },
        JsonV::Bool(b) => {
            reveal_strlit("true");
            reveal_strlit("false");
            if b {
                assert("true"@.len() == 4);
                assert(t.subrange(i, i + 4) == "true"@);
                assert(t[i] == 't');
            } else {
                assert("false"@.len() == 5);
                assert(t.subrange(i, i + 5) == "false"@);
                assert(t[i] == 'f');
                assert(t[i] != 'n' && t[i] != 't') by {
                    reveal_strlit("null");
                }
            }
        },
        JsonV::Num(tok) => {
            lemma_num_end_at(tok, t, i);
            assert(t.subrange(i, i + tok.len() as int) =~= tok);
        },
        JsonV::Str(s) => {
            let body = ser_str_body(s);
            assert(u =~= (seq!['"'] + body).push('"'));
            assert(u == seq!['"'] + body + seq!['"']);
            assert(has_at(t, i, (seq!['"'] + body) + seq!['"']));
            lemma_has_at_split(t, i, seq!['"'] + body, seq!['"']);
            lemma_has_at_split(t, i, seq!['"'], body);
            lemma_has_at_index(t, i + 1 + body.len(), seq!['"'], 0);
            lemma_str_parses(s, t, i + 1);
        },
        JsonV::Arr(a) => {
            let inner = ser_elems(a);
            assert(u == seq!['['] + inner + seq![']']);
            assert(has_at(t, i, (seq!['['] + inner) + seq![']'])) by {
                assert((seq!['['] + inner) + seq![']'] =~= u);
            }
            lemma_has_at_split(t, i, seq!['['] + inner, seq![']']);
            lemma_has_at_split(t, i, seq!['['], inner);
            lemma_has_at_index(t, i + 1 + inner.len(), seq![']'], 0);
            assert(t[i] == '[');
            if a.len() == 0 {
                assert(inner.len() == 0);
                assert(t[i + 1] == ']');
                assert(ws_end(t, i + 1) == i + 1);
                assert(a =~= Seq::<JsonV>::empty());
            } else {
                lemma_ser_starts(a[0]);
                assert(inner[0] == ser_json(a[0])[0]) by {
                    if a.len() == 1 {
                    } else {
                        assert(inner == ser_json(a[0]) + seq![','] + ser_elems(
                            a.subrange(1, a.len() as int),
                        ));
                    }
                }
                lemma_has_at_index(t, i + 1, inner, 0);
                assert(!is_ws(t[i + 1]));
                assert(ws_end(t, i + 1) == i + 1);
                assert(t[i + 1] != ']');
                lemma_ser_elems_parses(a, t, i + 1);
            }
        },
        JsonV::Obj(o) => {
            let inner = ser_entries(o);
            assert(u == seq!['{'] + inner + seq!['}']);
            assert(has_at(t, i, (seq!['{'] + inner) + seq!['}'])) by {
                assert((seq!['{'] + inner) + seq!['}'] =~= u);
            }
            lemma_has_at_split(t, i, seq!['{'] + inner, seq!['}']);
            lemma_has_at_split(t, i, seq!['{'], inner);
            lemma_has_at_index(t, i + 1 + inner.len(), seq!['}'], 0);
            assert(t[i] == '{');
            if o.len() == 0 {
                assert(inner.len() == 0);
                assert(t[i + 1] == '}');
                assert(ws_end(t, i + 1) == i + 1);
                assert(o =~= Seq::<(Seq<char>, JsonV)>::empty());
            } else {
                assert(inner[0] == '"') by {
                    let head = seq!['"'] + ser_str_body(o[0].0) + seq!['"', ':'] + ser_json(
                        o[0].1,
                    );
                    assert(head[0] == '"');
                    if o.len() == 1 {
                    } else {
                        assert(inner == head + seq![','] + ser_entries(
                            o.subrange(1, o.len() as int),
                        ));
                    }
                }
                lemma_has_at_index(t, i + 1, inner, 0);
                assert(t[i + 1] == '"');
                assert(ws_end(t, i + 1) == i + 1);
                assert(t[i + 1] != '}');
                lemma_ser_entries_parses(o, t, i + 1);
            }
        },
    }
}

/// Printed array elements followed by the closing bracket parse back to
/// exactly those elements.
proof fn lemma_ser_elems_parses(a: Seq<JsonV>, t: Seq<char>, i: int)
    requires
        a.len() > 0,
        forall|k: int| 0 <= k < a.len() ==> json_wf(#[trigger] a[k]),
        has_at(t, i, ser_elems(a)),
        i + ser_elems(a).len() < t.len(),
        t[i + ser_elems(a).len()] == ']',
    ensures
        p_elems(t, i) == Option::Some((a, i + ser_elems(a).len() + 1)),
    decreases a, 1int,
{
    let u = ser_elems(a);
    let head = ser_json(a[0]);
    if a.len() == 1 {
        assert(u == head);
        lemma_ser_parses(a[0], t, i);
        let j = i + head.len();
        assert(t[j] == ']');
        assert(ws_end(t, j) == j);
        assert(seq![a[0]] =~= a);
    } else {
        let a1 = a.subrange(1, a.len() as int);
        let rest = ser_elems(a1);
        assert(u == head + seq![','] + rest);
        assert(has_at(t, i, (head + seq![',']) + rest)) by {
            assert((head + seq![',']) + rest =~= u);
        }
        lemma_has_at_split(t, i, head + seq![','], rest);
        lemma_has_at_split(t, i, head, seq![',']);
        lemma_has_at_index(t, i + head.len(), seq![','], 0);
        lemma_ser_parses(a[0], t, i);
        let j = i + head.len();
        assert(t[j] == ',');
        assert(ws_end(t, j) == j);
        lemma_ser_starts(a1[0]);
        assert(rest[0] == ser_json(a1[0])[0]) by {
            if a1.len() == 1 {
            } else {
                assert(rest == ser_json(a1[0]) + seq![','] + ser_elems(
                    a1.subrange(1, a1.len() as int),
                ));
            }
        }
        lemma_has_at_index(t, j + 1, rest, 0);
        assert(!is_ws(t[j + 1]));
        assert(ws_end(t, j + 1) == j + 1);
        lemma_ser_elems_parses(a1, t, j + 1);
        assert(seq![a[0]] + a1 =~= a);
    }
}

/// Printed object entries followed by the closing brace parse back to
/// exactly those entries.
proof fn lemma_ser_entries_parses(o: Seq<(Seq<char>, JsonV)>, t: Seq<char>, i: int)
    requires
        o.len() > 0,
        forall|k: int| 0 <= k < o.len() ==> json_wf((#[trigger] o[k]).1),
        has_at(t, i, ser_entries(o)),
        i + ser_entries(o).len() < t.len(),
        t[i + ser_entries(o).len()] == '}',
    ensures
        p_entries(t, i) == Option::Some((o, i + ser_entries(o).len() + 1)),
    decreases o, 1int,
{
    let u = ser_entries(o);
    let key = o[0].0;
    let body = ser_str_body(key);
    let val = ser_json(o[0].1);
    let head = seq!['"'] + body + seq!['"', ':'] + val;
    assert(head =~= seq!['"'] + body + seq!['"'] + seq![':'] + val);
    let rest_at = i + head.len();
    if o.len() == 1 {
        assert(u == head);
    } else {
        assert(u == head + seq![','] + ser_entries(o.subrange(1, o.len() as int)));
    }
    // the head itself, piece by piece
    assert(has_at(t, i, head)) by {
        if o.len() == 1 {
        } else {
            lemma_has_at_split(t, i, head + seq![','], ser_entries(o.subrange(1, o.len() as int)));
            lemma_has_at_split(t, i, head, seq![',']);
        }
    }
    assert(has_at(t, i, (((seq!['"'] + body) + seq!['"']) + seq![':']) + val)) by {
        assert((((seq!['"'] + body) + seq!['"']) + seq![':']) + val =~= head);
    }
    lemma_has_at_split(t, i, ((seq!['"'] + body) + seq!['"']) + seq![':'], val);
    lemma_has_at_split(t, i, (seq!['"'] + body) + seq!['"'], seq![':']);
    lemma_has_at_split(t, i, seq!['"'] + body, seq!['"']);
    lemma_has_at_split(t, i, seq!['"'], body);
    lemma_has_at_index(t, i, seq!['"'], 0);
    assert(t[i] == '"');
    lemma_has_at_index(t, i + 1 + body.len(), seq!['"'], 0);
    lemma_str_parses(key, t, i + 1);
    let cpos = i + 2 + body.len();
    lemma_has_at_index(t, cpos, seq![':'], 0);
    assert(t[cpos] == ':');
    assert(ws_end(t, cpos) == cpos);
    lemma_ser_starts(o[0].1);
    lemma_has_at_index(t, cpos + 1, val, 0);
    assert(!is_ws(t[cpos + 1]));
    assert(ws_end(t, cpos + 1) == cpos + 1);
    if o.len() == 1 {
        lemma_ser_parses(o[0].1, t, cpos + 1);
        let j2 = cpos + 1 + val.len();
        assert(t[j2] == '}');
        assert(ws_end(t, j2) == j2);
        assert(seq![(key, o[0].1)] =~= o);
    } else {
        let o1 = o.subrange(1, o.len() as int);
        let rest = ser_entries(o1);
        assert(head + (seq![','] + rest) =~= u);
        lemma_has_at_split(t, i, head, seq![','] + rest);
        lemma_has_at_split(t, rest_at, seq![','], rest);
        lemma_has_at_index(t, rest_at, seq![','], 0);
        lemma_ser_parses(o[0].1, t, cpos + 1);
        let j2 = cpos + 1 + val.len();
        assert(j2 == rest_at);
        assert(t[j2] == ',');
        assert(ws_end(t, j2) == j2);
        assert(rest[0] == '"') by {
            let head1 = seq!['"'] + ser_str_body(o1[0].0) + seq!['"', ':'] + ser_json(o1[0].1);
            assert(head1[0] == '"');
            if o1.len() == 1 {
            } else {
                assert(rest == head1 + seq![','] + ser_entries(o1.subrange(1, o1.len() as int)));
            }
        }
        lemma_has_at_index(t, rest_at + 1, rest, 0);
        assert(t[rest_at + 1] == '"');
        assert(ws_end(t, rest_at + 1) == rest_at + 1);
        lemma_ser_entries_parses(o1, t, rest_at + 1);
        assert(seq![(key, o[0].1)] + o1 =~= o);
    }
}

/// What is printed parses back: the parser is a left inverse of the
/// printer on printable values.
pub proof fn lemma_parse_print(v: JsonV)
    requires
        json_wf(v),
    ensures
        parse_text(ser_json(v)) == Option::Some(v),
{
    let t = ser_json(v);
    lemma_ser_starts(v);
    assert(has_at(t, 0, t)) by {
        assert(t.subrange(0, t.len() as int) =~= t);
    }
    assert(ws_end(t, 0) == 0);
    lemma_ser_parses(v, t, 0);
    assert(ws_end(t, t.len() as int) == t.len());
}

} // verus!

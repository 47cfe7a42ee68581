use vstd::prelude::*;
use crate::json::{is_digit, json_view_elems, json_view_entries, skip_digits, Json, JsonV};
use crate::strutil::{chars_of, string_of_chars};
use vstd::string::{StrSliceExecFns, StringExecFns};

verus! {

// ---------------------------------------------------------------------------
// Printing
// ---------------------------------------------------------------------------
/// The hexadecimal digit for a value below sixteen.
pub open spec fn hex_char(n: int) -> char {
    if n < 10 {
        (48 + n) as char
    } else {
        (87 + n) as char
    }
}

/// How one character appears inside a printed string: quote and backslash
/// escaped, control characters by their short escapes or `\u00..`, all
/// else verbatim.
pub open spec fn esc_char(c: char) -> Seq<char> {
    if c == '"' {
        seq!['\\', '"']
    } else if c == '\\' {
        seq!['\\', '\\']
    } else if c == '\u{08}' {
        seq!['\\', 'b']
    } else if c == '\u{09}' {
        seq!['\\', 't']
    } else if c == '\u{0A}' {
        seq!['\\', 'n']
    } else if c == '\u{0C}' {
        seq!['\\', 'f']
    } else if c == '\u{0D}' {
        seq!['\\', 'r']
    } else if (c as u32) < 32 {
        seq!['\\', 'u', '0', '0', hex_char(((c as u32) / 16) as int), hex_char(((c as u32) % 16) as int)]
    } else {
        seq![c]
    }
}

/// The body of a printed string, character by character.
pub open spec fn ser_str_body(s: Seq<char>) -> Seq<char>
    decreases s.len(),
{
    if s.len() == 0 {
        Seq::empty()
    } else {
        esc_char(s[0]) + ser_str_body(s.subrange(1, s.len() as int))
    }
}

/// The printed form of a JSON value: no whitespace, strings escaped as
/// above, numbers by their tokens, object entries in stored order.
pub open spec fn ser_json(v: JsonV) -> Seq<char>
    decreases v, 0int,
{
    match v {
        JsonV::Null => "null"@,
        JsonV::Bool(b) => if b {
            "true"@
        } else {
            "false"@
        },
        JsonV::Num(t) => t,
        JsonV::Str(s) => seq!['"'] + ser_str_body(s) + seq!['"'],
        JsonV::Arr(a) => seq!['['] + ser_elems(a) + seq![']'],
        JsonV::Obj(o) => seq!['{'] + ser_entries(o) + seq!['}'],
    }
}

pub open spec fn ser_elems(a: Seq<JsonV>) -> Seq<char>
    decreases a, 1int,
{
    if a.len() == 0 {
        Seq::empty()
    } else if a.len() == 1 {
        ser_json(a[0])
    } else {
        ser_json(a[0]) + seq![','] + ser_elems(a.subrange(1, a.len() as int))
    }
}

pub open spec fn ser_entries(o: Seq<(Seq<char>, JsonV)>) -> Seq<char>
    decreases o, 1int,
{
    if o.len() == 0 {
        Seq::empty()
    } else {
        let head = seq!['"'] + ser_str_body(o[0].0) + seq!['"', ':'] + ser_json(o[0].1);
        if o.len() == 1 {
            head
        } else {
            head + seq![','] + ser_entries(o.subrange(1, o.len() as int))
        }
    }
}

// ---------------------------------------------------------------------------
// Parsing
// ---------------------------------------------------------------------------
/// JSON whitespace.
pub open spec fn is_ws(c: char) -> bool {
    c == ' ' || c == '\u{09}' || c == '\u{0A}' || c == '\u{0D}'
}

/// Index of the first non-whitespace character at or after `i`.
pub open spec fn ws_end(s: Seq<char>, i: int) -> int
    decreases s.len() - i,
{
    if 0 <= i < s.len() && is_ws(s[i]) {
        ws_end(s, i + 1)
    } else {
        i
    }
}

/// The value of a hexadecimal digit, or -1.
pub open spec fn hex_val(c: char) -> int {
    if '0' <= c && c <= '9' {
        c as int - 48
    } else if 'a' <= c && c <= 'f' {
        c as int - 87
    } else if 'A' <= c && c <= 'F' {
        c as int - 55
    } else {
        -1
    }
}

/// The value of four hexadecimal digits at `i`, or -1.
pub open spec fn hex4_val(s: Seq<char>, i: int) -> int {
    if 0 <= i && i + 4 <= s.len() && hex_val(s[i]) >= 0 && hex_val(s[i + 1]) >= 0 && hex_val(
        s[i + 2],
    ) >= 0 && hex_val(s[i + 3]) >= 0 {
        hex_val(s[i]) * 4096 + hex_val(s[i + 1]) * 256 + hex_val(s[i + 2]) * 16 + hex_val(s[i + 3])
    } else {
        -1
    }
}

/// End of the number token starting at `i` under the JSON grammar, or -1.
pub open spec fn num_end(s: Seq<char>, i: int) -> int {
    if i < 0 {
        -1
    } else {
        let i0 = if i < s.len() && s[i] == '-' {
            i + 1
        } else {
            i
        };
        if i0 < s.len() && is_digit(s[i0]) {
            let d = if s[i0] == '0' {
                i0 + 1
            } else {
                skip_digits(s, i0)
            };
            let f = if d < s.len() && s[d] == '.' {
                let f2 = skip_digits(s, d + 1);
                if f2 > d + 1 {
                    f2
                } else {
                    -1
                }
            } else {
                d
            };
            if f < 0 {
                -1
            } else if f < s.len() && (s[f] == 'e' || s[f] == 'E') {
                let g = if f + 1 < s.len() && (s[f + 1] == '+' || s[f + 1] == '-') {
                    f + 2
                } else {
                    f + 1
                };
                let h = skip_digits(s, g);
                if h > g {
                    h
                } else {
                    -1
                }
            } else {
                f
            }
        } else {
            -1
        }
    }
}

/// The string body from `i` to its closing quote: the decoded characters
/// and the position after the quote. Escapes follow the JSON grammar,
/// with surrogate pairs combined and lone surrogates rejected.
pub open spec fn p_string(s: Seq<char>, i: int) -> Option<(Seq<char>, int)>
    decreases s.len() - i, 0int,
{
    if i < 0 || i >= s.len() {
        Option::None
    } else if s[i] == '"' {
        Option::Some((Seq::empty(), i + 1))
    } else if s[i] == '\\' {
        if i + 1 >= s.len() {
            Option::None
        } else {
            let e = s[i + 1];
            if e == 'u' {
                let h = hex4_val(s, i + 2);
                if h < 0 {
                    Option::None
                } else if 0xD800 <= h < 0xDC00 {
                    // a high surrogate must pair with a following low one
                    if i + 8 <= s.len() && s[i + 6] == '\\' && s[i + 7] == 'u' {
                        let l = hex4_val(s, i + 8);
                        if 0xDC00 <= l < 0xE000 {
                            let code = 0x10000 + (h - 0xD800) * 0x400 + (l - 0xDC00);
                            match p_string(s, i + 12) {
                                Option::None => Option::None,
                                Option::Some((rest, j)) => Option::Some(
                                    (seq![code as char] + rest, j),
                                ),
                            }
                        } else {
                            Option::None
                        }
                    } else {
                        Option::None
                    }
                } else if 0xDC00 <= h < 0xE000 {
                    Option::None
                } else {
                    match p_string(s, i + 6) {
                        Option::None => Option::None,
                        Option::Some((rest, j)) => Option::Some((seq![h as char] + rest, j)),
                    }
                }
            } else {
                let d: char = if e == '"' {
                    '"'
                } else if e == '\\' {
                    '\\'
                } else if e == '/' {
                    '/'
                } else if e == 'b' {
                    '\u{08}'
                } else if e == 'f' {
                    '\u{0C}'
                } else if e == 'n' {
                    '\u{0A}'
                } else if e == 'r' {
                    '\u{0D}'
                } else if e == 't' {
                    '\u{09}'
                } else {
                    ' '
                };
                if e == '"' || e == '\\' || e == '/' || e == 'b' || e == 'f' || e == 'n' || e
                    == 'r' || e == 't' {
                    match p_string(s, i + 2) {
                        Option::None => Option::None,
                        Option::Some((rest, j)) => Option::Some((seq![d] + rest, j)),
                    }
                } else {
                    Option::None
                }
            }
        }
    } else if (s[i] as u32) < 32 {
        Option::None
    } else {
        match p_string(s, i + 1) {
            Option::None => Option::None,
            Option::Some((rest, j)) => Option::Some((seq![s[i]] + rest, j)),
        }
    }
}

/// The JSON value starting at `i` and the position after it.
pub open spec fn p_value(s: Seq<char>, i: int) -> Option<(JsonV, int)>
    decreases s.len() - i, 0int,
{
    if i < 0 || i >= s.len() {
        Option::None
    } else {
        let c = s[i];
        if c == 'n' {
            if i + 4 <= s.len() && s.subrange(i, i + 4) == "null"@ {
                Option::Some((JsonV::Null, i + 4))
            } else {
                Option::None
            }
        } else if c == 't' {
            if i + 4 <= s.len() && s.subrange(i, i + 4) == "true"@ {
                Option::Some((JsonV::Bool(true), i + 4))
            } else {
                Option::None
            }
        } else if c == 'f' {
            if i + 5 <= s.len() && s.subrange(i, i + 5) == "false"@ {
                Option::Some((JsonV::Bool(false), i + 5))
            } else {
                Option::None
            }
        } else if c == '"' {
            match p_string(s, i + 1) {
                Option::None => Option::None,
                Option::Some((body, j)) => Option::Some((JsonV::Str(body), j)),
            }
        } else if c == '[' {
            let j = ws_end(s, i + 1);
            if j <= i || j > s.len() {
                Option::None
            } else if j < s.len() && s[j] == ']' {
                Option::Some((JsonV::Arr(Seq::empty()), j + 1))
            } else {
                match p_elems(s, j) {
                    Option::None => Option::None,
                    Option::Some((vs, k)) => Option::Some((JsonV::Arr(vs), k)),
                }
            }
        } else if c == '{' {
            let j = ws_end(s, i + 1);
            if j <= i || j > s.len() {
                Option::None
            } else if j < s.len() && s[j] == '}' {
                Option::Some((JsonV::Obj(Seq::empty()), j + 1))
            } else {
                match p_entries(s, j) {
                    Option::None => Option::None,
                    Option::Some((es, k)) => Option::Some((JsonV::Obj(es), k)),
                }
            }
        } else if c == '-' || is_digit(c) {
            let e = num_end(s, i);
            if e > i && e <= s.len() {
                Option::Some((JsonV::Num(s.subrange(i, e)), e))
            } else {
                Option::None
            }
        } else {
            Option::None
        }
    }
}

/// The elements of an array from the first element to the closing
/// bracket, and the position after it.
pub open spec fn p_elems(s: Seq<char>, i: int) -> Option<(Seq<JsonV>, int)>
    decreases s.len() - i, 1int,
{
    if !(0 <= i <= s.len()) {
        Option::None
    } else {
        match p_value(s, i) {
            Option::None => Option::None,
            Option::Some((v, j)) => {
                if j <= i {
                    Option::None
                } else {
                    let k = ws_end(s, j);
                    if k < j || k > s.len() {
                        Option::None
                    } else if k < s.len() && s[k] == ',' {
                        let n = ws_end(s, k + 1);
                        if n <= i || n > s.len() {
                            Option::None
                        } else {
                            match p_elems(s, n) {
                                Option::None => Option::None,
                                Option::Some((rest, e)) => Option::Some((seq![v] + rest, e)),
                            }
                        }
                    } else if k < s.len() && s[k] == ']' {
                        Option::Some((seq![v], k + 1))
                    } else {
                        Option::None
                    }
                }
            },
        }
    }
}

/// The entries of an object from the first key to the closing brace, and
/// the position after it.
pub open spec fn p_entries(s: Seq<char>, i: int) -> Option<(Seq<(Seq<char>, JsonV)>, int)>
    decreases s.len() - i, 1int,
{
    if !(0 <= i < s.len() && s[i] == '"') {
        Option::None
    } else {
        match p_string(s, i + 1) {
            Option::None => Option::None,
            Option::Some((key, j)) => {
                if j <= i {
                    Option::None
                } else {
                    let c1 = ws_end(s, j);
                    if c1 < j || c1 > s.len() {
                        Option::None
                    } else if c1 < s.len() && s[c1] == ':' {
                        let v0 = ws_end(s, c1 + 1);
                        if v0 <= i || v0 > s.len() {
                            Option::None
                        } else {
                            match p_value(s, v0) {
                                Option::None => Option::None,
                                Option::Some((v, j2)) => {
                                    if j2 <= i {
                                        Option::None
                                    } else {
                                        let k = ws_end(s, j2);
                                        if k < j2 || k > s.len() {
                                            Option::None
                                        } else if k < s.len() && s[k] == ',' {
                                            let n = ws_end(s, k + 1);
                                            if n <= i || n > s.len() {
                                                Option::None
                                            } else {
                                                match p_entries(s, n) {
                                                    Option::None => Option::None,
                                                    Option::Some((rest, e)) => Option::Some(
                                                        (seq![(key, v)] + rest, e),
                                                    ),
                                                }
                                            }
                                        } else if k < s.len() && s[k] == '}' {
                                            Option::Some((seq![(key, v)], k + 1))
                                        } else {
                                            Option::None
                                        }
                                    }
                                },
                            }
                        }
                    } else {
                        Option::None
                    }
                }
            },
        }
    }
}

/// The JSON value of a whole text: one value, surrounded by whitespace
/// only.
pub open spec fn parse_text(s: Seq<char>) -> Option<JsonV> {
    let i = ws_end(s, 0);
    match p_value(s, i) {
        Option::None => Option::None,
        Option::Some((v, j)) => {
            if ws_end(s, j) == s.len() {
                Option::Some(v)
            } else {
                Option::None
            }
        },
    }
}

// ---------------------------------------------------------------------------
// The printer
// ---------------------------------------------------------------------------
/// One escaped character, appended.
fn push_esc(c: char, out: &mut String)
    ensures
        final(out)@ == old(out)@ + esc_char(c),
{
    if c == '"' {
        out.push('\\');
        out.push('"');
    } else if c == '\\' {
        out.push('\\');
        out.push('\\');
    } else if c == '\u{08}' {
        out.push('\\');
        out.push('b');
    } else if c == '\u{09}' {
        out.push('\\');
        out.push('t');
    } else if c == '\u{0A}' {
        out.push('\\');
        out.push('n');
    } else if c == '\u{0C}' {
        out.push('\\');
        out.push('f');
    } else if c == '\u{0D}' {
        out.push('\\');
        out.push('r');
    } else if (c as u32) < 32 {
        out.push('\\');
        out.push('u');
        out.push('0');
        out.push('0');
        let n = c as u32;
        let hi = (n / 16) as u8;
        let lo = (n % 16) as u8;
        let hc = if hi < 10 {
            (48 + hi) as char
        } else {
            (87 + hi) as char
        };
        let lc = if lo < 10 {
            (48 + lo) as char
        } else {
            (87 + lo) as char
        };
        out.push(hc);
        out.push(lc);
        proof {
            assert(final(out)@ =~= old(out)@ + esc_char(c));
        }
    } else {
        out.push(c);
    }
    proof {
        assert(final(out)@ =~= old(out)@ + esc_char(c));
    }
}

/// The body of a printed string, appended.
#[verifier::loop_isolation(false)]
fn write_str_body(s: &str, out: &mut String)
    ensures
        final(out)@ == old(out)@ + ser_str_body(s@),
{
    let cs = crate::strutil::chars_of(s);
    proof {
        assert(s@.subrange(0, s@.len() as int) =~= s@);
    }
    let mut i: usize = 0;
    while i < cs.len()
        invariant
            i <= cs.len(),
            old(out)@ + ser_str_body(s@) == out@ + ser_str_body(s@.subrange(
                i as int,
                s@.len() as int,
            )),
        decreases cs.len() - i,
    {
        let ghost rest = s@.subrange(i as int, s@.len() as int);
        proof {
            assert(rest[0] == s@[i as int]);
            assert(rest.subrange(1, rest.len() as int) =~= s@.subrange(
                i + 1 as int,
                s@.len() as int,
            ));
        }
        push_esc(cs[i], out);
        i += 1;
    }
    proof {
        assert(s@.subrange(cs.len() as int, s@.len() as int) =~= Seq::<char>::empty());
    }
}

/// The printed form of a JSON value, appended: the exact inverse of the
/// parser on values whose number tokens follow the JSON grammar.
#[verifier::loop_isolation(false)]
#[verifier::rlimit(60)]
pub fn write_json(j: &Json, out: &mut String)
    ensures
        final(out)@ == old(out)@ + ser_json(j@),
    decreases j,
{
    broadcast use crate::json::group_json_view;

    match j {
        Json::Null => {
            out.append("null");
        },
        Json::Bool(b) => {
            if *b {
                out.append("true");
            } else {
                out.append("false");
            }
        },
        Json::Num(t) => {
            out.append(t.as_str());
        },
        Json::Str(s) => {
            out.push('"');
            write_str_body(s.as_str(), out);
            out.push('"');
            proof {
                assert(final(out)@ =~= old(out)@ + ser_json(j@));
            }
        },
        Json::Arr(a) => {
            let ghost av = json_view_elems(a@);
            let ghost target = old(out)@ + seq!['['] + ser_elems(av);
            out.push('[');
            proof {
                assert(j@ == JsonV::Arr(av));
                assert(out@ + ser_elems(av) =~= target);
            }
            let mut i: usize = 0;
            while i < a.len()
                invariant
                    i <= a.len(),
                    av.len() == a.len(),
                    target == out@ + if i == 0 {
                        ser_elems(av)
                    } else if i < a.len() {
                        seq![','] + ser_elems(av.subrange(i as int, av.len() as int))
                    } else {
                        Seq::<char>::empty()
                    },
                decreases a.len() - i,
            {
                let ghost rest = av.subrange(i as int, av.len() as int);
                proof {
                    assert(json_view_elems(a@)[i as int] == crate::json::json_view(a@[i as int]));
                    assert(rest[0] == av[i as int]);
                    assert(rest.subrange(1, rest.len() as int) =~= av.subrange(
                        i + 1 as int,
                        av.len() as int,
                    ));
                    if i == 0 {
                        assert(av.subrange(0, av.len() as int) =~= av);
                    }
                }
                if i > 0 {
                    out.push(',');
                }
                write_json(&a[i], out);
                i += 1;
            }
            out.push(']');
            proof {
                assert(final(out)@ =~= old(out)@ + ser_json(j@));
            }
        },
        Json::Obj(o) => {
            let ghost ov = json_view_entries(o@);
            let ghost target = old(out)@ + seq!['{'] + ser_entries(ov);
            out.push('{');
            proof {
                assert(j@ == JsonV::Obj(ov));
                assert(out@ + ser_entries(ov) =~= target);
            }
            let mut i: usize = 0;
            while i < o.len()
                invariant
                    i <= o.len(),
                    ov.len() == o.len(),
                    target == out@ + if i == 0 {
                        ser_entries(ov)
                    } else if i < o.len() {
                        seq![','] + ser_entries(ov.subrange(i as int, ov.len() as int))
                    } else {
                        Seq::<char>::empty()
                    },
                decreases o.len() - i,
            {
                let ghost rest = ov.subrange(i as int, ov.len() as int);
                proof {
                    assert(json_view_entries(o@)[i as int] == (
                        o@[i as int].0@,
                        crate::json::json_view(o@[i as int].1),
                    ));
                    assert(rest[0] == ov[i as int]);
                    assert(rest.subrange(1, rest.len() as int) =~= ov.subrange(
                        i + 1 as int,
                        ov.len() as int,
                    ));
                    if i == 0 {
                        assert(ov.subrange(0, ov.len() as int) =~= ov);
                    }
                }
                if i > 0 {
                    out.push(',');
                }
                out.push('"');
                write_str_body(o[i].0.as_str(), out);
                out.push('"');
                out.push(':');
                write_json(&o[i].1, out);
                i += 1;
            }
            out.push('}');
            proof {
                assert(final(out)@ =~= old(out)@ + ser_json(j@));
            }
        },
    }
}

/// The printed text of a JSON value.
pub fn to_text(j: &Json) -> (r: String)
    ensures
        r@ == ser_json(j@),
{
    let mut out = String::new();
    write_json(j, &mut out);
    proof {
        assert(Seq::<char>::empty() + ser_json(j@) =~= ser_json(j@));
    }
    out
}

// ---------------------------------------------------------------------------
// The parser
// ---------------------------------------------------------------------------
/// First non-whitespace position at or after `i`.
fn e_ws(v: &Vec<char>, i: usize) -> (r: usize)
    requires
        i <= v.len(),
    ensures
        r == ws_end(v@, i as int),
        i <= r <= v.len(),
{
    let mut j = i;
    while j < v.len() && (v[j] == ' ' || v[j] == '\u{09}' || v[j] == '\u{0A}' || v[j] == '\u{0D}')
        invariant
            i <= j <= v.len(),
            ws_end(v@, i as int) == ws_end(v@, j as int),
        decreases v.len() - j,
    {
        j += 1;
    }
    j
}

/// The value of one hexadecimal digit.
fn hex_digit(c: char) -> (r: Option<u8>)
    ensures
        match r {
            Option::Some(d) => hex_val(c) == d as int && d < 16,
            Option::None => hex_val(c) == -1,
        },
{
    if '0' <= c && c <= '9' {
        Option::Some((c as u32 - 48) as u8)
    } else if 'a' <= c && c <= 'f' {
        Option::Some((c as u32 - 87) as u8)
    } else if 'A' <= c && c <= 'F' {
        Option::Some((c as u32 - 55) as u8)
    } else {
        Option::None
    }
}

/// The value of four hexadecimal digits at `i`.
fn e_hex4(v: &Vec<char>, i: usize) -> (r: Option<u32>)
    requires
        i <= v.len(),
    ensures
        match r {
            Option::Some(h) => hex4_val(v@, i as int) == h && h <= 0xFFFF,
            Option::None => hex4_val(v@, i as int) == -1,
        },
{
    if v.len() - i < 4 {
        return Option::None;
    }
    let d0 = hex_digit(v[i]);
    let d1 = hex_digit(v[i + 1]);
    let d2 = hex_digit(v[i + 2]);
    let d3 = hex_digit(v[i + 3]);
    match (d0, d1, d2, d3) {
        (Option::Some(a), Option::Some(b), Option::Some(c), Option::Some(d)) => Option::Some(
            a as u32 * 4096 + b as u32 * 256 + c as u32 * 16 + d as u32,
        ),
        _ => Option::None,
    }
}

/// The characters from `i` to `e`.
fn chars_range(v: &Vec<char>, i: usize, e: usize) -> (out: Vec<char>)
    requires
        i <= e <= v.len(),
    ensures
        out@ == v@.subrange(i as int, e as int),
{
    let mut out: Vec<char> = Vec::new();
    let mut k = i;
    while k < e
        invariant
            i <= k <= e <= v.len(),
            out@ =~= v@.subrange(i as int, k as int),
        decreases e - k,
    {
        out.push(v[k]);
        k += 1;
    }
    proof {
        assert(out@ =~= v@.subrange(i as int, e as int));
    }
    out
}

/// End of the number token at `i`, when the token is well formed.
fn e_num_end(v: &Vec<char>, i: usize) -> (r: Option<usize>)
    requires
        i <= v.len(),
    ensures
        match r {
            Option::Some(e) => num_end(v@, i as int) == e && i < e <= v.len(),
            Option::None => num_end(v@, i as int) == -1,
        },
{
    let i0 = if i < v.len() && v[i] == '-' {
        i + 1
    } else {
        i
    };
    if !(i0 < v.len() && '0' <= v[i0] && v[i0] <= '9') {
        return Option::None;
    }
    let d = if v[i0] == '0' {
        i0 + 1
    } else {
        crate::json::digits_end(v, i0)
    };
    proof {
        crate::json::lemma_skip_digits(v@, i0 + 1 as int);
    }
    let f = if d < v.len() && v[d] == '.' {
        let f2 = crate::json::digits_end(v, d + 1);
        if f2 > d + 1 {
            f2
        } else {
            return Option::None;
        }
    } else {
        d
    };
    if f < v.len() && (v[f] == 'e' || v[f] == 'E') {
        let g = if f + 1 < v.len() && (v[f + 1] == '+' || v[f + 1] == '-') {
            f + 2
        } else {
            f + 1
        };
        let h = crate::json::digits_end(v, g);
        if h > g {
            Option::Some(h)
        } else {
            Option::None
        }
    } else {
        Option::Some(f)
    }
}

/// The string body from `i` to its closing quote.
fn e_pstring(v: &Vec<char>, i: usize) -> (r: Option<(String, usize)>)
    requires
        i <= v.len(),
    ensures
        match r {
            Option::Some(b) => p_string(v@, i as int) == Option::Some((b.0@, b.1 as int)) && i
                < b.1 <= v.len(),
            Option::None => p_string(v@, i as int) is None,
        },
    decreases v.len() - i,
{
    if i >= v.len() {
        return Option::None;
    }
    let c = v[i];
    if c == '"' {
        return Option::Some((String::new(), i + 1));
    }
    if c == '\\' {
        if i + 1 >= v.len() {
            return Option::None;
        }
        let e = v[i + 1];
        if e == 'u' {
            let h = match e_hex4(v, i + 2) {
                Option::Some(h) => h,
                Option::None => {
                    return Option::None;
                },
            };
            if 0xD800 <= h && h < 0xDC00 {
                if v.len() - i >= 8 && v[i + 6] == '\\' && v[i + 7] == 'u' {
                    let l = match e_hex4(v, i + 8) {
                        Option::Some(l) => l,
                        Option::None => {
                            return Option::None;
                        },
                    };
                    if 0xDC00 <= l && l < 0xE000 {
                        let code: u32 = 0x10000 + (h - 0xD800) * 0x400 + (l - 0xDC00);
                        let ch = match char::from_u32(code) {
                            Option::Some(ch) => ch,
                            Option::None => {
                                proof {
                                    assert(false);
                                }
                                vstd::pervasive::unreached()
                            },
                        };
                        match e_pstring(v, i + 12) {
                            Option::None => Option::None,
                            Option::Some((rest, j)) => {
                                let mut s = String::new();
                                s.push(ch);
                                s.append(rest.as_str());
                                proof {
                                    assert(s@ =~= seq![(code as u32) as char] + rest@);
                                }
                                Option::Some((s, j))
                            },
                        }
                    } else {
                        Option::None
                    }
                } else {
                    Option::None
                }
            } else if 0xDC00 <= h && h < 0xE000 {
                Option::None
            } else {
                let ch = match char::from_u32(h) {
                    Option::Some(ch) => ch,
                    Option::None => {
                        proof {
                            assert(false);
                        }
                        vstd::pervasive::unreached()
                    },
                };
                match e_pstring(v, i + 6) {
                    Option::None => Option::None,
                    Option::Some((rest, j)) => {
                        let mut s = String::new();
                        s.push(ch);
                        s.append(rest.as_str());
                        proof {
                            assert(s@ =~= seq![(h as u32) as char] + rest@);
                        }
                        Option::Some((s, j))
                    },
                }
            }
        } else {
            let d: char = if e == '"' {
                '"'
            } else if e == '\\' {
                '\\'
            } else if e == '/' {
                '/'
            } else if e == 'b' {
                '\u{08}'
            } else if e == 'f' {
                '\u{0C}'
            } else if e == 'n' {
                '\u{0A}'
            } else if e == 'r' {
                '\u{0D}'
            } else if e == 't' {
                '\u{09}'
            } else {
                return Option::None;
            };
            match e_pstring(v, i + 2) {
                Option::None => Option::None,
                Option::Some((rest, j)) => {
                    let mut s = String::new();
                    s.push(d);
                    s.append(rest.as_str());
                    proof {
                        assert(s@ =~= seq![d] + rest@);
                    }
                    Option::Some((s, j))
                },
            }
        }
    } else if (c as u32) < 32 {
        Option::None
    } else {
        match e_pstring(v, i + 1) {
            Option::None => Option::None,
            Option::Some((rest, j)) => {
                let mut s = String::new();
                s.push(c);
                s.append(rest.as_str());
                proof {
                    assert(s@ =~= seq![c] + rest@);
                }
                Option::Some((s, j))
            },
        }
    }
}

/// The JSON value starting at `i`.
#[verifier::rlimit(60)]
fn e_pvalue(v: &Vec<char>, i: usize) -> (r: Option<(Json, usize)>)
    requires
        i <= v.len(),
    ensures
        match r {
            Option::Some(b) => p_value(v@, i as int) == Option::Some((b.0@, b.1 as int)) && i
                < b.1 <= v.len(),
            Option::None => p_value(v@, i as int) is None,
        },
    decreases v.len() - i, 0int,
{
    if i >= v.len() {
        return Option::None;
    }
    let c = v[i];
    if c == 'n' {
        proof {
            reveal_strlit("null");
            assert("null"@.len() == 4);
        }
        if v.len() - i >= 4 && v[i + 1] == 'u' && v[i + 2] == 'l' && v[i + 3] == 'l' {
            proof {
                assert(v@.subrange(i as int, i + 4 as int) =~= "null"@);
            }
            Option::Some((Json::Null, i + 4))
        } else {
            proof {
                if i + 4 <= v.len() {
                    assert(v@.subrange(i as int, i + 4 as int) != "null"@) by {
                        let sub = v@.subrange(i as int, i + 4 as int);
                        if sub == "null"@ {
                            assert(sub[1] == 'u' && sub[2] == 'l' && sub[3] == 'l');
                        }
                    }
                }
            }
            Option::None
        }
    } else if c == 't' {
        proof {
            reveal_strlit("true");
            assert("true"@.len() == 4);
        }
        if v.len() - i >= 4 && v[i + 1] == 'r' && v[i + 2] == 'u' && v[i + 3] == 'e' {
            proof {
                assert(v@.subrange(i as int, i + 4 as int) =~= "true"@);
            }
            Option::Some((Json::Bool(true), i + 4))
        } else {
            proof {
                if i + 4 <= v.len() {
                    assert(v@.subrange(i as int, i + 4 as int) != "true"@) by {
                        let sub = v@.subrange(i as int, i + 4 as int);
                        if sub == "true"@ {
                            assert(sub[1] == 'r' && sub[2] == 'u' && sub[3] == 'e');
                        }
                    }
                }
            }
            Option::None
        }
    } else if c == 'f' {
        proof {
            reveal_strlit("false");
            assert("false"@.len() == 5);
        }
        if v.len() - i >= 5 && v[i + 1] == 'a' && v[i + 2] == 'l' && v[i + 3] == 's' && v[i + 4]
            == 'e' {
            proof {
                assert(v@.subrange(i as int, i + 5 as int) =~= "false"@);
            }
            Option::Some((Json::Bool(false), i + 5))
        } else {
            proof {
                if i + 5 <= v.len() {
                    assert(v@.subrange(i as int, i + 5 as int) != "false"@) by {
                        let sub = v@.subrange(i as int, i + 5 as int);
                        if sub == "false"@ {
                            assert(sub[1] == 'a' && sub[2] == 'l' && sub[3] == 's' && sub[4]
                                == 'e');
                        }
                    }
                }
            }
            Option::None
        }
    } else if c == '"' {
        match e_pstring(v, i + 1) {
            Option::None => Option::None,
            Option::Some((body, j)) => Option::Some((Json::Str(body), j)),
        }
    } else if c == '[' {
        let j = e_ws(v, i + 1);
        if j < v.len() && v[j] == ']' {
            let empty: Vec<Json> = Vec::new();
            proof {
                assert(json_view_elems(empty@) =~= Seq::<JsonV>::empty());
            }
            Option::Some((Json::Arr(empty), j + 1))
        } else {
            match e_pelems(v, j) {
                Option::None => Option::None,
                Option::Some((vs, k)) => Option::Some((Json::Arr(vs), k)),
            }
        }
    } else if c == '{' {
        let j = e_ws(v, i + 1);
        if j < v.len() && v[j] == '}' {
            let empty: Vec<(String, Json)> = Vec::new();
            proof {
                assert(json_view_entries(empty@) =~= Seq::<(Seq<char>, JsonV)>::empty());
            }
            Option::Some((Json::Obj(empty), j + 1))
        } else {
            match e_pentries(v, j) {
                Option::None => Option::None,
                Option::Some((es, k)) => Option::Some((Json::Obj(es), k)),
            }
        }
    } else if c == '-' || ('0' <= c && c <= '9') {
        match e_num_end(v, i) {
            Option::None => Option::None,
            Option::Some(e) => {
                let tok = chars_range(v, i, e);
                let ts = string_of_chars(&tok);
                Option::Some((Json::Num(ts), e))
            },
        }
    } else {
        Option::None
    }
}

/// The elements of an array up to and past the closing bracket.
fn e_pelems(v: &Vec<char>, i: usize) -> (r: Option<(Vec<Json>, usize)>)
    requires
        i <= v.len(),
    ensures
        match r {
            Option::Some(b) => p_elems(v@, i as int) == Option::Some(
                (json_view_elems(b.0@), b.1 as int),
            ) && i < b.1 <= v.len(),
            Option::None => p_elems(v@, i as int) is None,
        },
    decreases v.len() - i, 1int,
{
    broadcast use crate::json::group_json_view;

    let (val, j) = match e_pvalue(v, i) {
        Option::None => {
            return Option::None;
        },
        Option::Some(b) => b,
    };
    let k = e_ws(v, j);
    if k < v.len() && v[k] == ',' {
        let n = e_ws(v, k + 1);
        match e_pelems(v, n) {
            Option::None => Option::None,
            Option::Some((rest, e)) => {
                let ghost xv = val@;
                let ghost rv = rest@;
                let mut out: Vec<Json> = Vec::new();
                out.push(val);
                let mut rest = rest;
                out.append(&mut rest);
                proof {
                    assert(out@ =~= seq![out@[0]] + rv);
                    crate::json::lemma_json_view_elems_cons(out@[0], rv);
                    assert(json_view_elems(out@) == seq![xv] + json_view_elems(rv));
                }
                Option::Some((out, e))
            },
        }
    } else if k < v.len() && v[k] == ']' {
        let mut out: Vec<Json> = Vec::new();
        out.push(val);
        proof {
            assert(json_view_elems(Seq::<Json>::empty()) =~= Seq::<JsonV>::empty());
            assert(json_view_elems(out@) =~= seq![out@[0]@]);
        }
        Option::Some((out, k + 1))
    } else {
        Option::None
    }
}

/// The entries of an object up to and past the closing brace.
#[verifier::rlimit(80)]
fn e_pentries(v: &Vec<char>, i: usize) -> (r: Option<(Vec<(String, Json)>, usize)>)
    requires
        i <= v.len(),
    ensures
        match r {
            Option::Some(b) => p_entries(v@, i as int) == Option::Some(
                (json_view_entries(b.0@), b.1 as int),
            ) && i < b.1 <= v.len(),
            Option::None => p_entries(v@, i as int) is None,
        },
    decreases v.len() - i, 1int,
{
    broadcast use crate::json::group_json_view;

    if !(i < v.len() && v[i] == '"') {
        return Option::None;
    }
    let (key, j) = match e_pstring(v, i + 1) {
        Option::None => {
            return Option::None;
        },
        Option::Some(b) => b,
    };
    let c1 = e_ws(v, j);
    if !(c1 < v.len() && v[c1] == ':') {
        return Option::None;
    }
    let v0 = e_ws(v, c1 + 1);
    let (val, j2) = match e_pvalue(v, v0) {
        Option::None => {
            return Option::None;
        },
        Option::Some(b) => b,
    };
    let k = e_ws(v, j2);
    if k < v.len() && v[k] == ',' {
        let n = e_ws(v, k + 1);
        match e_pentries(v, n) {
            Option::None => Option::None,
            Option::Some((rest, e)) => {
                let ghost kv = key@;
                let ghost xv = val@;
                let ghost rv = rest@;
                let mut out: Vec<(String, Json)> = Vec::new();
                out.push((key, val));
                let mut rest = rest;
                out.append(&mut rest);
                proof {
                    assert(out@ =~= seq![out@[0]] + rv);
                    crate::json::lemma_json_view_entries_cons(out@[0], rv);
                    assert(json_view_entries(out@) == seq![(kv, xv)] + json_view_entries(rv));
                }
                Option::Some((out, e))
            },
        }
    } else if k < v.len() && v[k] == '}' {
        let mut out: Vec<(String, Json)> = Vec::new();
        out.push((key, val));
        proof {
            assert(json_view_entries(Seq::<(String, Json)>::empty()) =~= Seq::<
                (Seq<char>, JsonV),
            >::empty());
            assert(json_view_entries(out@) =~= seq![(out@[0].0@, out@[0].1@)]);
        }
        Option::Some((out, k + 1))
    } else {
        Option::None
    }
}

/// A whole JSON text: one value surrounded by whitespace only.
pub fn parse_json(s: &str) -> (r: Result<Json, crate::types::DecodeError>)
    ensures
        match r {
            Result::Ok(j) => parse_text(s@) == Option::Some(j@),
            Result::Err(e) => parse_text(s@) is None && e@ is MalformedJson,
        },
{
    let cs = chars_of(s);
    let i = e_ws(&cs, 0);
    match e_pvalue(&cs, i) {
        Option::None => Result::Err(
            crate::types::DecodeError::MalformedJson(String::from_str("not valid JSON text")),
        ),
        Option::Some((j, n)) => {
            let k = e_ws(&cs, n);
            if k == cs.len() {
                Result::Ok(j)
            } else {
                Result::Err(
                    crate::types::DecodeError::MalformedJson(
                        String::from_str("text after the JSON value"),
                    ),
                )
            }
        },
    }
}

} // verus!

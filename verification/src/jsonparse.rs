//! A verified JSON parser: a mathematical parsing function over character
//! sequences, and an executable parser proved to return exactly its result.
use vstd::prelude::*;

use crate::json::{GJson, Json, view_json_arr, view_json_obj, lemma_view_json_arr_push, lemma_view_json_obj_push, chars_to_string, str_to_chars};

verus! {

broadcast use vstd::std_specs::vec::group_vec_axioms, vstd::seq::group_seq_axioms;

/// JSON insignificant whitespace.
pub open spec fn is_json_ws(c: char) -> bool {
    c == ' ' || c == '\t' || c == '\n' || c == '\r'
}

pub open spec fn is_digit(c: char) -> bool {
    48 <= c as u32 && c as u32 <= 57
}

/// The first position at or after `i` holding a non-whitespace character.
pub open spec fn sp_skip_ws(s: Seq<char>, i: int) -> int
    decreases s.len() - i,
{
    if 0 <= i < s.len() && is_json_ws(s[i]) {
        sp_skip_ws(s, i + 1)
    } else {
        i
    }
}

/// The first position at or after `i` holding a non-digit character.
pub open spec fn sp_digits_end(s: Seq<char>, i: int) -> int
    decreases s.len() - i,
{
    if 0 <= i < s.len() && is_digit(s[i]) {
        sp_digits_end(s, i + 1)
    } else {
        i
    }
}

/// End position of the number lexeme starting at `i`, if one starts there.
/// Digits are taken greedily; a fraction or exponent must carry at least
/// one digit.
pub open spec fn sp_num_end(s: Seq<char>, i: int) -> Option<int> {
    let a = if 0 <= i < s.len() && s[i] == '-' {
        i + 1
    } else {
        i
    };
    let b = sp_digits_end(s, a);
    if b == a {
        None
    } else {
        let d = if b < s.len() && s[b] == '.' {
            let c = sp_digits_end(s, b + 1);
            if c == b + 1 {
                None
            } else {
                Some(c)
            }
        } else {
            Some(b)
        };
        match d {
            None => None,
            Some(d) => {
                if d < s.len() && (s[d] == 'e' || s[d] == 'E') {
                    let e = if d + 1 < s.len() && (s[d + 1] == '+' || s[d + 1] == '-') {
                        d + 2
                    } else {
                        d + 1
                    };
                    let f = sp_digits_end(s, e);
                    if f == e {
                        None
                    } else {
                        Some(f)
                    }
                } else {
                    Some(d)
                }
            },
        }
    }
}

/// The value of a hex digit character, if it is one.
pub open spec fn hex_val(c: char) -> Option<int> {
    if 48 <= c as u32 && c as u32 <= 57 {
        Some(c as u32 - 48)
    } else if 97 <= c as u32 && c as u32 <= 102 {
        Some(c as u32 - 97 + 10)
    } else if 65 <= c as u32 && c as u32 <= 70 {
        Some(c as u32 - 65 + 10)
    } else {
        None
    }
}

/// The value of the four hex digits at `i`, if they are there.
pub open spec fn sp_hex4(s: Seq<char>, i: int) -> Option<int> {
    if 0 <= i && i + 4 <= s.len() {
        match (hex_val(s[i]), hex_val(s[i + 1]), hex_val(s[i + 2]), hex_val(s[i + 3])) {
            (Some(a), Some(b), Some(c), Some(d)) => Some(a * 4096 + b * 256 + c * 16 + d),
            _ => None,
        }
    } else {
        None
    }
}

/// Code points that `char` can hold: everything but the surrogate range.
pub open spec fn is_uni_scalar(v: int) -> bool {
    (0 <= v < 0xD800) || (0xE000 <= v <= 0x10FFFF)
}

/// The character a single-letter escape denotes.
pub open spec fn esc_code(c: char) -> Option<char> {
    if c == '"' {
        Some('"')
    } else if c == '\\' {
        Some('\\')
    } else if c == '/' {
        Some('/')
    } else if c == 'n' {
        Some('\n')
    } else if c == 't' {
        Some('\t')
    } else if c == 'r' {
        Some('\r')
    } else if c == 'b' {
        Some('\u{0008}')
    } else if c == 'f' {
        Some('\u{000C}')
    } else {
        None
    }
}

/// Parse the body of a string literal from `i` (after the opening quote),
/// accumulating decoded characters onto `acc`; yields the full content and
/// the position after the closing quote.
pub open spec fn sp_str_body(s: Seq<char>, i: int, acc: Seq<char>) -> Option<(Seq<char>, int)>
    decreases s.len() - i,
{
    if i < 0 || i >= s.len() {
        None
    } else if s[i] == '"' {
        Some((acc, i + 1))
    } else if s[i] == '\\' {
        if i + 1 >= s.len() {
            None
        } else if s[i + 1] == 'u' {
            match sp_hex4(s, i + 2) {
                None => None,
                Some(h) => {
                    if 0xD800 <= h < 0xDC00 {
                        if i + 8 <= s.len() && s[i + 6] == '\\' && s[i + 7] == 'u' {
                            match sp_hex4(s, i + 8) {
                                None => None,
                                Some(lo) => {
                                    if 0xDC00 <= lo < 0xE000 {
                                        let code = 0x10000 + (h - 0xD800) * 0x400 + (lo - 0xDC00);
                                        sp_str_body(s, i + 12, acc.push(((code as u32) as char)))
                                    } else {
                                        None
                                    }
                                },
                            }
                        } else {
                            None
                        }
                    } else if 0xDC00 <= h < 0xE000 {
                        None
                    } else {
                        sp_str_body(s, i + 6, acc.push(((h as u32) as char)))
                    }
                },
            }
        } else {
            match esc_code(s[i + 1]) {
                None => None,
                Some(c) => sp_str_body(s, i + 2, acc.push(c)),
            }
        }
    } else {
        sp_str_body(s, i + 1, acc.push(s[i]))
    }
}

/// Parse a string literal whose opening quote stands at `i`.
pub open spec fn sp_string(s: Seq<char>, i: int) -> Option<(Seq<char>, int)> {
    if 0 <= i < s.len() && s[i] == '"' {
        sp_str_body(s, i + 1, Seq::empty())
    } else {
        None
    }
}

/// Parse one JSON value starting at or after `i` (leading whitespace
/// skipped). `fuel` bounds recursion depth; it only ever turns deeply
/// nested input into a parse failure, never a success into another value.
pub open spec fn sp_value(s: Seq<char>, i: int, fuel: nat) -> Option<(GJson, int)>
    decreases fuel,
{
    if fuel == 0 {
        None
    } else {
        let j = sp_skip_ws(s, i);
        if j >= s.len() || j < 0 {
            None
        } else if s[j] == '{' {
            let k = sp_skip_ws(s, j + 1);
            if k < s.len() && s[k] == '}' {
                Some((GJson::Obj(Seq::empty()), k + 1))
            } else {
                match sp_members(s, j + 1, (fuel - 1) as nat, Seq::empty()) {
                    None => None,
                    Some((ms, e)) => Some((GJson::Obj(ms), e)),
                }
            }
        } else if s[j] == '[' {
            let k = sp_skip_ws(s, j + 1);
            if k < s.len() && s[k] == ']' {
                Some((GJson::Arr(Seq::empty()), k + 1))
            } else {
                match sp_elems(s, j + 1, (fuel - 1) as nat, Seq::empty()) {
                    None => None,
                    Some((vs, e)) => Some((GJson::Arr(vs), e)),
                }
            }
        } else if s[j] == '"' {
            match sp_string(s, j) {
                None => None,
                Some((cs, e)) => Some((GJson::Str(cs), e)),
            }
        } else if s[j] == 't' {
            if j + 4 <= s.len() && s[j + 1] == 'r' && s[j + 2] == 'u' && s[j + 3] == 'e' {
                Some((GJson::Bool(true), j + 4))
            } else {
                None
            }
        } else if s[j] == 'f' {
            if j + 5 <= s.len() && s[j + 1] == 'a' && s[j + 2] == 'l' && s[j + 3] == 's' && s[j + 4]
                == 'e' {
                Some((GJson::Bool(false), j + 5))
            } else {
                None
            }
        } else if s[j] == 'n' {
            if j + 4 <= s.len() && s[j + 1] == 'u' && s[j + 2] == 'l' && s[j + 3] == 'l' {
                Some((GJson::Null, j + 4))
            } else {
                None
            }
        } else {
            match sp_num_end(s, j) {
                None => None,
                Some(e) => Some((GJson::Num(s.subrange(j, e)), e)),
            }
        }
    }
}

/// Parse the members of an object from just after `{` (or a comma),
/// accumulating onto `acc`; yields all members and the position after `}`.
pub open spec fn sp_members(s: Seq<char>, i: int, fuel: nat, acc: Seq<(Seq<char>, GJson)>) -> Option<
    (Seq<(Seq<char>, GJson)>, int),
>
    decreases fuel,
{
    if fuel == 0 {
        None
    } else {
        let j = sp_skip_ws(s, i);
        match sp_string(s, j) {
            None => None,
            Some((key, a)) => {
                let b = sp_skip_ws(s, a);
                if b >= s.len() || s[b] != ':' {
                    None
                } else {
                    match sp_value(s, b + 1, (fuel - 1) as nat) {
                        None => None,
                        Some((v, c)) => {
                            let d = sp_skip_ws(s, c);
                            if d < s.len() && s[d] == ',' {
                                sp_members(s, d + 1, (fuel - 1) as nat, acc.push((key, v)))
                            } else if d < s.len() && s[d] == '}' {
                                Some((acc.push((key, v)), d + 1))
                            } else {
                                None
                            }
                        },
                    }
                }
            },
        }
    }
}

/// Parse the elements of an array from just after `[` (or a comma),
/// accumulating onto `acc`; yields all elements and the position after `]`.
pub open spec fn sp_elems(s: Seq<char>, i: int, fuel: nat, acc: Seq<GJson>) -> Option<
    (Seq<GJson>, int),
>
    decreases fuel,
{
    if fuel == 0 {
        None
    } else {
        match sp_value(s, i, (fuel - 1) as nat) {
            None => None,
            Some((v, c)) => {
                let d = sp_skip_ws(s, c);
                if d < s.len() && s[d] == ',' {
                    sp_elems(s, d + 1, (fuel - 1) as nat, acc.push(v))
                } else if d < s.len() && s[d] == ']' {
                    Some((acc.push(v), d + 1))
                } else {
                    None
                }
            },
        }
    }
}

/// The fuel that the top-level parser grants: ample for any input, since
/// every nesting step and every member consumes at least one character.
pub open spec fn parse_fuel(s: Seq<char>) -> nat {
    (2 * s.len() + 2) as nat
}

/// The result of parsing a whole document: the value, which must be
/// followed only by whitespace.
pub open spec fn sp_parse_json(s: Seq<char>) -> Option<GJson> {
    match sp_value(s, 0, parse_fuel(s)) {
        None => None,
        Some((v, e)) => {
            if sp_skip_ws(s, e) == s.len() {
                Some(v)
            } else {
                None
            }
        },
    }
}

/// Relies on char::from_u32: `Some` exactly for Unicode scalar values
/// (everything outside the surrogate range), holding that very code point.
#[verifier::external_body]
pub(crate) fn char_from_u32(c: u32) -> (r: Option<char>)
    ensures
        r == (if is_uni_scalar(c as int) {
            Some(c as char)
        } else {
            None::<char>
        }),
{
    char::from_u32(c)
}

/// Skip insignificant whitespace.
fn p_skip_ws(cs: &Vec<char>, i: usize) -> (r: usize)
    requires
        i <= cs.len(),
    ensures
        r as int == sp_skip_ws(cs@, i as int),
        i <= r <= cs.len(),
    decreases cs.len() - i,
{
    if i < cs.len() {
        let c = cs[i];
        if c == ' ' || c == '\t' || c == '\n' || c == '\r' {
            return p_skip_ws(cs, i + 1);
        }
    }
    i
}

/// Skip a run of decimal digits.
fn p_digits_end(cs: &Vec<char>, i: usize) -> (r: usize)
    requires
        i <= cs.len(),
    ensures
        r as int == sp_digits_end(cs@, i as int),
        i <= r <= cs.len(),
    decreases cs.len() - i,
{
    if i < cs.len() {
        let u = cs[i] as u32;
        if 48 <= u && u <= 57 {
            return p_digits_end(cs, i + 1);
        }
    }
    i
}

/// Find the end of the number lexeme starting at `i`, if one starts there.
fn p_num_end(cs: &Vec<char>, i: usize) -> (r: Option<usize>)
    requires
        i <= cs.len(),
    ensures
        match r {
            Some(e) => sp_num_end(cs@, i as int) == Some(e as int) && i <= e <= cs.len(),
            None => sp_num_end(cs@, i as int) is None,
        },
{
    let a = if i < cs.len() && cs[i] == '-' {
        i + 1
    } else {
        i
    };
    let b = p_digits_end(cs, a);
    if b == a {
        return None;
    }
    let d = if b < cs.len() && cs[b] == '.' {
        let c = p_digits_end(cs, b + 1);
        if c == b + 1 {
            return None;
        }
        c
    } else {
        b
    };
    if d < cs.len() && (cs[d] == 'e' || cs[d] == 'E') {
        let e = if d + 1 < cs.len() && (cs[d + 1] == '+' || cs[d + 1] == '-') {
            d + 2
        } else {
            d + 1
        };
        let f = p_digits_end(cs, e);
        if f == e {
            None
        } else {
            Some(f)
        }
    } else {
        Some(d)
    }
}

/// The value of one hex digit character.
fn p_hex_val(c: char) -> (r: Option<u32>)
    ensures
        match r {
            Some(v) => hex_val(c) == Some(v as int) && v < 16,
            None => hex_val(c) is None,
        },
{
    let u = c as u32;
    if 48 <= u && u <= 57 {
        Some(u - 48)
    } else if 97 <= u && u <= 102 {
        Some(u - 97 + 10)
    } else if 65 <= u && u <= 70 {
        Some(u - 65 + 10)
    } else {
        None
    }
}

/// The value of the four hex digits at `i`.
fn p_hex4(cs: &Vec<char>, i: usize) -> (r: Option<u32>)
    requires
        i <= cs.len(),
    ensures
        match r {
            Some(v) => sp_hex4(cs@, i as int) == Some(v as int) && v < 0x10000 && i + 4
                <= cs.len(),
            None => sp_hex4(cs@, i as int) is None,
        },
{
    if cs.len() - i >= 4 {
        let a = p_hex_val(cs[i]);
        let b = p_hex_val(cs[i + 1]);
        let c = p_hex_val(cs[i + 2]);
        let d = p_hex_val(cs[i + 3]);
        match (a, b, c, d) {
            (Some(a), Some(b), Some(c), Some(d)) => Some(a * 4096 + b * 256 + c * 16 + d),
            _ => None,
        }
    } else {
        None
    }
}

/// The character a single-letter escape denotes.
fn p_esc_code(c: char) -> (r: Option<char>)
    ensures
        r == esc_code(c),
{
    if c == '"' {
        Some('"')
    } else if c == '\\' {
        Some('\\')
    } else if c == '/' {
        Some('/')
    } else if c == 'n' {
        Some('\n')
    } else if c == 't' {
        Some('\t')
    } else if c == 'r' {
        Some('\r')
    } else if c == 'b' {
        Some('\u{0008}')
    } else if c == 'f' {
        Some('\u{000C}')
    } else {
        None
    }
}

/// Parse a string-literal body, decoding escapes onto `acc`.
fn p_str_body(cs: &Vec<char>, i: usize, acc: &mut Vec<char>) -> (r: Option<usize>)
    requires
        i <= cs.len(),
    ensures
        match r {
            Some(e) => sp_str_body(cs@, i as int, old(acc)@) == Some((final(acc)@, e as int)) && i
                < e <= cs.len(),
            None => sp_str_body(cs@, i as int, old(acc)@) is None,
        },
    decreases cs.len() - i,
{
    if i >= cs.len() {
        return None;
    }
    let c = cs[i];
    if c == '"' {
        Some(i + 1)
    } else if c == '\\' {
        if i + 1 >= cs.len() {
            return None;
        }
        let e = cs[i + 1];
        if e == 'u' {
            match p_hex4(cs, i + 2) {
                None => None,
                Some(h) => {
                    if 0xD800 <= h && h < 0xDC00 {
                        if cs.len() - i >= 8 && cs[i + 6] == '\\' && cs[i + 7] == 'u' {
                            match p_hex4(cs, i + 8) {
                                None => None,
                                Some(lo) => {
                                    if 0xDC00 <= lo && lo < 0xE000 {
                                        let code: u32 = 0x10000 + (h - 0xD800) * 0x400 + (lo
                                            - 0xDC00);
                                        match char_from_u32(code) {
                                            Some(ch) => {
                                                acc.push(ch);
                                                p_str_body(cs, i + 12, acc)
                                            },
                                            None => {
                                                proof {
                                                    assert(false);
                                                }
                                                None
                                            },
                                        }
                                    } else {
                                        None
                                    }
                                },
                            }
                        } else {
                            None
                        }
                    } else if 0xDC00 <= h && h < 0xE000 {
                        None
                    } else {
                        match char_from_u32(h) {
                            Some(ch) => {
                                acc.push(ch);
                                p_str_body(cs, i + 6, acc)
                            },
                            None => {
                                proof {
                                    assert(false);
                                }
                                None
                            },
                        }
                    }
                },
            }
        } else {
            match p_esc_code(e) {
                None => None,
                Some(d) => {
                    acc.push(d);
                    p_str_body(cs, i + 2, acc)
                },
            }
        }
    } else {
        acc.push(c);
        p_str_body(cs, i + 1, acc)
    }
}

/// Parse one JSON value; mirrors `sp_value`.
fn p_value(cs: &Vec<char>, i: usize, fuel: u128) -> (r: Option<(Json, usize)>)
    requires
        i <= cs.len(),
    ensures
        match r {
            Some(p) => sp_value(cs@, i as int, fuel as nat) == Some((p.0@, p.1 as int)) && p.1
                <= cs.len(),
            None => sp_value(cs@, i as int, fuel as nat) is None,
        },
    decreases fuel,
{
    if fuel == 0 {
        return None;
    }
    let j = p_skip_ws(cs, i);
    if j >= cs.len() {
        return None;
    }
    let c = cs[j];
    if c == '{' {
        let k = p_skip_ws(cs, j + 1);
        if k < cs.len() && cs[k] == '}' {
            let ms: Vec<(String, Json)> = Vec::new();
            proof {
                assert(view_json_obj(ms@) =~= Seq::<(Seq<char>, GJson)>::empty());
            }
            Some((Json::Obj(ms), k + 1))
        } else {
            let mut ms: Vec<(String, Json)> = Vec::new();
            proof {
                assert(view_json_obj(ms@) =~= Seq::<(Seq<char>, GJson)>::empty());
            }
            match p_members(cs, j + 1, fuel - 1, &mut ms) {
                None => None,
                Some(e) => Some((Json::Obj(ms), e)),
            }
        }
    } else if c == '[' {
        let k = p_skip_ws(cs, j + 1);
        if k < cs.len() && cs[k] == ']' {
            let vs: Vec<Json> = Vec::new();
            proof {
                assert(view_json_arr(vs@) =~= Seq::<GJson>::empty());
            }
            Some((Json::Arr(vs), k + 1))
        } else {
            let mut vs: Vec<Json> = Vec::new();
            proof {
                assert(view_json_arr(vs@) =~= Seq::<GJson>::empty());
            }
            match p_elems(cs, j + 1, fuel - 1, &mut vs) {
                None => None,
                Some(e) => Some((Json::Arr(vs), e)),
            }
        }
    } else if c == '"' {
        let mut content: Vec<char> = Vec::new();
        match p_str_body(cs, j + 1, &mut content) {
            None => None,
            Some(e) => Some((Json::Str(chars_to_string(&content)), e)),
        }
    } else if c == 't' {
        if cs.len() - j >= 4 && cs[j + 1] == 'r' && cs[j + 2] == 'u' && cs[j + 3] == 'e' {
            Some((Json::Bool(true), j + 4))
        } else {
            None
        }
    } else if c == 'f' {
        if cs.len() - j >= 5 && cs[j + 1] == 'a' && cs[j + 2] == 'l' && cs[j + 3] == 's' && cs[j
            + 4] == 'e' {
            Some((Json::Bool(false), j + 5))
        } else {
            None
        }
    } else if c == 'n' {
        if cs.len() - j >= 4 && cs[j + 1] == 'u' && cs[j + 2] == 'l' && cs[j + 3] == 'l' {
            Some((Json::Null, j + 4))
        } else {
            None
        }
    } else {
        match p_num_end(cs, j) {
            None => None,
            Some(e) => {
                let lex = copy_range(cs, j, e);
                Some((Json::Num(chars_to_string(&lex)), e))
            },
        }
    }
}

/// Parse object members; mirrors `sp_members`.
fn p_members(cs: &Vec<char>, i: usize, fuel: u128, acc: &mut Vec<(String, Json)>) -> (r: Option<
    usize,
>)
    requires
        i <= cs.len(),
    ensures
        match r {
            Some(e) => sp_members(cs@, i as int, fuel as nat, view_json_obj(old(acc)@)) == Some(
                (view_json_obj(final(acc)@), e as int),
            ) && e <= cs.len(),
            None => sp_members(cs@, i as int, fuel as nat, view_json_obj(old(acc)@)) is None,
        },
    decreases fuel,
{
    if fuel == 0 {
        return None;
    }
    let j = p_skip_ws(cs, i);
    if j >= cs.len() || cs[j] != '"' {
        return None;
    }
    let mut content: Vec<char> = Vec::new();
    match p_str_body(cs, j + 1, &mut content) {
        None => None,
        Some(a) => {
            let key = chars_to_string(&content);
            let b = p_skip_ws(cs, a);
            if b >= cs.len() || cs[b] != ':' {
                return None;
            }
            match p_value(cs, b + 1, fuel - 1) {
                None => None,
                Some((v, c)) => {
                    let d = p_skip_ws(cs, c);
                    let ghost acc_pre = acc@;
                    let ghost key_view = key@;
                    let ghost v_view = v@;
                    acc.push((key, v));
                    proof {
                        lemma_view_json_obj_push(acc_pre, acc@.last());
                        assert(acc_pre.push(acc@.last()) =~= acc@);
                        assert(view_json_obj(acc@) == view_json_obj(acc_pre).push(
                            (key_view, v_view),
                        ));
                    }
                    if d < cs.len() && cs[d] == ',' {
                        p_members(cs, d + 1, fuel - 1, acc)
                    } else if d < cs.len() && cs[d] == '}' {
                        Some(d + 1)
                    } else {
                        None
                    }
                },
            }
        },
    }
}

/// Parse array elements; mirrors `sp_elems`.
fn p_elems(cs: &Vec<char>, i: usize, fuel: u128, acc: &mut Vec<Json>) -> (r: Option<usize>)
    requires
        i <= cs.len(),
    ensures
        match r {
            Some(e) => sp_elems(cs@, i as int, fuel as nat, view_json_arr(old(acc)@)) == Some(
                (view_json_arr(final(acc)@), e as int),
            ) && e <= cs.len(),
            None => sp_elems(cs@, i as int, fuel as nat, view_json_arr(old(acc)@)) is None,
        },
    decreases fuel,
{
    if fuel == 0 {
        return None;
    }
    match p_value(cs, i, fuel - 1) {
        None => None,
        Some((v, c)) => {
            let d = p_skip_ws(cs, c);
            let ghost acc_pre = acc@;
            let ghost v_view = v@;
            acc.push(v);
            proof {
                lemma_view_json_arr_push(acc_pre, acc@.last());
                assert(acc_pre.push(acc@.last()) =~= acc@);
                assert(view_json_arr(acc@) == view_json_arr(acc_pre).push(v_view));
            }
            if d < cs.len() && cs[d] == ',' {
                p_elems(cs, d + 1, fuel - 1, acc)
            } else if d < cs.len() && cs[d] == ']' {
                Some(d + 1)
            } else {
                None
            }
        },
    }
}

/// Copy the characters of `cs` between `i` and `j`.
pub fn copy_range(cs: &Vec<char>, i: usize, j: usize) -> (r: Vec<char>)
    requires
        i <= j <= cs.len(),
    ensures
        r@ == cs@.subrange(i as int, j as int),
{
    let mut out: Vec<char> = Vec::new();
    let mut k: usize = i;
    while k < j
        invariant
            i <= k <= j <= cs.len(),
            out@ == cs@.subrange(i as int, k as int),
        decreases j - k,
    {
        out.push(cs[k]);
        proof {
            assert(cs@.subrange(i as int, k as int + 1) =~= cs@.subrange(i as int, k as int).push(
                cs@[k as int],
            ));
        }
        k += 1;
    }
    out
}

/// Parse a whole JSON document given as characters: the single value it
/// holds, with only whitespace allowed around it.
pub fn json_parse_chars(cs: &Vec<char>) -> (r: Option<Json>)
    ensures
        match r {
            Some(j) => sp_parse_json(cs@) == Some(j@),
            None => sp_parse_json(cs@) is None,
        },
{
    let fuel: u128 = 2 * (cs.len() as u128) + 2;
    proof {
        assert(fuel as nat == parse_fuel(cs@));
    }
    match p_value(cs, 0, fuel) {
        None => None,
        Some((j, e)) => {
            let f = p_skip_ws(cs, e);
            if f == cs.len() {
                Some(j)
            } else {
                None
            }
        },
    }
}

/// Parse a whole JSON document from a string.
pub fn json_parse_str(s: &str) -> (r: Option<Json>)
    ensures
        match r {
            Some(j) => sp_parse_json(s@) == Some(j@),
            None => sp_parse_json(s@) is None,
        },
{
    let cs = str_to_chars(s);
    json_parse_chars(&cs)
}


} // verus!

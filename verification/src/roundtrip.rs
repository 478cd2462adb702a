//! Parsing a printed JSON document yields the document back: the proof
//! that closes the serialization round trip at the text level.
use vstd::prelude::*;

use crate::codec::{dec_root_doc, enc_root_doc, lemma_codec_root_doc};
use crate::json::{
    GJson, esc_char, hex_digit, print_arr_items, print_json, print_obj_items, print_str,
    print_str_body,
};
use crate::jsonparse::{
    esc_code, hex_val, is_digit, is_json_ws, parse_fuel, sp_digits_end, sp_hex4, sp_num_end,
    sp_parse_json, sp_skip_ws, sp_str_body, sp_value, sp_elems, sp_members,
};

verus! {

broadcast use vstd::std_specs::vec::group_vec_axioms, vstd::seq::group_seq_axioms;

/// Number lexemes that the printer may carry: plain decimal digits.
pub open spec fn digits_only(s: Seq<char>) -> bool {
    forall|q: int| 0 <= q < s.len() ==> is_digit(#[trigger] s[q])
}

/// Documents whose printed text parses back: every number lexeme is a
/// non-empty run of decimal digits (all lexemes the encoder emits are).
pub open spec fn wf_json(j: GJson) -> bool
    decreases j, 1int,
{
    match j {
        GJson::Null => true,
        GJson::Bool(_) => true,
        GJson::Str(_) => true,
        GJson::Num(s) => s.len() > 0 && digits_only(s),
        GJson::Arr(a) => wf_arr(a),
        GJson::Obj(ms) => wf_obj(ms),
    }
}

pub open spec fn wf_arr(a: Seq<GJson>) -> bool
    decreases a, 0int,
{
    if a.len() == 0 {
        true
    } else {
        wf_json(a[0]) && wf_arr(a.drop_first())
    }
}

pub open spec fn wf_obj(ms: Seq<(Seq<char>, GJson)>) -> bool
    decreases ms, 0int,
{
    if ms.len() == 0 {
        true
    } else {
        wf_json(ms[0].1) && wf_obj(ms.drop_first())
    }
}

/// Recursion budget that suffices to parse a printed value.
pub open spec fn fuel_needed(j: GJson) -> nat
    decreases j, 1int,
{
    match j {
        GJson::Arr(a) => 1 + fuel_elems(a),
        GJson::Obj(ms) => 1 + fuel_members(ms),
        _ => 1,
    }
}

pub open spec fn fuel_elems(a: Seq<GJson>) -> nat
    decreases a, 0int,
{
    if a.len() == 0 {
        1
    } else {
        1 + fuel_needed(a[0]) + fuel_elems(a.drop_first())
    }
}

pub open spec fn fuel_members(ms: Seq<(Seq<char>, GJson)>) -> nat
    decreases ms, 0int,
{
    if ms.len() == 0 {
        1
    } else {
        1 + fuel_needed(ms[0].1) + fuel_members(ms.drop_first())
    }
}

/// What may follow a printed value without disturbing its parse: the end
/// of the text, or a separator or closer.
pub open spec fn boundary_ok(s: Seq<char>, p: int) -> bool {
    p >= s.len() || s[p] == ',' || s[p] == ']' || s[p] == '}'
}

/// The printed body of a string splits at its first character.
proof fn lemma_str_body_front(s: Seq<char>)
    requires
        s.len() > 0,
    ensures
        print_str_body(s) == esc_char(s[0]) + print_str_body(s.drop_first()),
    decreases s.len(),
{
    if s.len() == 1 {
        assert(s.drop_last() =~= Seq::<char>::empty());
        assert(s.drop_first() =~= Seq::<char>::empty());
        assert(print_str_body(s) == print_str_body(s.drop_last()) + esc_char(s.last()));
        assert(s.last() == s[0]);
        assert(esc_char(s[0]) + print_str_body(s.drop_first()) =~= print_str_body(s));
    } else {
        lemma_str_body_front(s.drop_last());
        assert(s.drop_last()[0] == s[0]);
        assert(s.drop_last().drop_first() =~= s.drop_first().drop_last());
        assert(s.drop_first().last() == s.last());
        assert(print_str_body(s) == print_str_body(s.drop_last()) + esc_char(s.last()));
        assert(print_str_body(s.drop_first()) == print_str_body(s.drop_first().drop_last())
            + esc_char(s.drop_first().last()));
        assert(print_str_body(s) =~= esc_char(s[0]) + print_str_body(s.drop_first()));
    }
}

/// The printed items of an array split at the first item.
proof fn lemma_items_front(a: Seq<GJson>)
    requires
        a.len() > 0,
    ensures
        print_arr_items(a) == print_json(a[0]) + (if a.len() > 1 {
            seq![','] + print_arr_items(a.drop_first())
        } else {
            Seq::<char>::empty()
        }),
    decreases a.len(),
{
    if a.len() == 1 {
        assert(a.last() == a[0]);
        assert(print_json(a[0]) + Seq::<char>::empty() =~= print_json(a[0]));
    } else {
        lemma_items_front(a.drop_last());
        assert(a.drop_last()[0] == a[0]);
        assert(a.drop_last().drop_first() =~= a.drop_first().drop_last());
        assert(a.drop_first().last() == a.last());
        assert(print_arr_items(a) == print_arr_items(a.drop_last()) + seq![','] + print_json(
            a.last(),
        ));
        if a.len() == 2 {
            assert(a.drop_last().len() == 1);
            assert(a.drop_first().len() == 1);
            assert(print_arr_items(a.drop_first()) == print_json(a.drop_first().last()));
            assert(print_arr_items(a) =~= print_json(a[0]) + (seq![','] + print_arr_items(
                a.drop_first(),
            )));
        } else {
            assert(print_arr_items(a.drop_first()) == print_arr_items(a.drop_first().drop_last())
                + seq![','] + print_json(a.drop_first().last()));
            assert(print_arr_items(a) =~= print_json(a[0]) + (seq![','] + print_arr_items(
                a.drop_first(),
            )));
        }
    }
}

/// The printed members of an object split at the first member.
proof fn lemma_members_front(ms: Seq<(Seq<char>, GJson)>)
    requires
        ms.len() > 0,
    ensures
        print_obj_items(ms) == print_str(ms[0].0) + seq![':'] + print_json(ms[0].1) + (if ms.len()
            > 1 {
            seq![','] + print_obj_items(ms.drop_first())
        } else {
            Seq::<char>::empty()
        }),
    decreases ms.len(),
{
    if ms.len() == 1 {
        assert(ms.last() == ms[0]);
        assert(print_obj_items(ms) == print_str(ms[0].0) + seq![':'] + print_json(ms[0].1));
        assert(print_str(ms[0].0) + seq![':'] + print_json(ms[0].1) + Seq::<char>::empty()
            =~= print_obj_items(ms));
    } else {
        lemma_members_front(ms.drop_last());
        assert(ms.drop_last()[0] == ms[0]);
        assert(ms.drop_last().drop_first() =~= ms.drop_first().drop_last());
        assert(ms.drop_first().last() == ms.last());
        assert(print_obj_items(ms) == print_obj_items(ms.drop_last()) + seq![','] + print_str(
            ms.last().0,
        ) + seq![':'] + print_json(ms.last().1));
        if ms.len() == 2 {
            assert(ms.drop_first().len() == 1);
            assert(print_obj_items(ms.drop_first()) == print_str(ms.drop_first().last().0)
                + seq![':'] + print_json(ms.drop_first().last().1));
            assert(print_obj_items(ms) =~= print_str(ms[0].0) + seq![':'] + print_json(ms[0].1) + (
            seq![','] + print_obj_items(ms.drop_first())));
        } else {
            assert(print_obj_items(ms.drop_first()) == print_obj_items(
                ms.drop_first().drop_last(),
            ) + seq![','] + print_str(ms.drop_first().last().0) + seq![':'] + print_json(
                ms.drop_first().last().1,
            ));
            assert(print_obj_items(ms) =~= print_str(ms[0].0) + seq![':'] + print_json(ms[0].1) + (
            seq![','] + print_obj_items(ms.drop_first())));
        }
    }
}

/// Reading back a printed hex digit gives its value.
proof fn lemma_hex_digit_val(d: int)
    requires
        0 <= d < 16,
    ensures
        hex_val(hex_digit(d)) == Some(d),
{
}

/// A printed value starts with a value-opening character: never
/// whitespace, never a separator or closer.
proof fn lemma_print_first(j: GJson)
    requires
        wf_json(j),
    ensures
        print_json(j).len() >= 1,
        !is_json_ws(print_json(j)[0]),
        print_json(j)[0] != ']',
        print_json(j)[0] != '}',
        print_json(j)[0] != ',',
        print_json(j)[0] != ':',
{
    match j {
        GJson::Null => {
            assert(print_json(j)[0] == 'n');
        },
        GJson::Bool(b) => {
            if b {
                assert(print_json(j)[0] == 't');
            } else {
                assert(print_json(j)[0] == 'f');
            }
        },
        GJson::Num(s) => {
            assert(is_digit(s[0]));
            assert(print_json(j)[0] == s[0]);
        },
        GJson::Str(s) => {
            assert(print_json(j)[0] == '"');
        },
        GJson::Arr(a) => {
            assert(print_json(j)[0] == '[');
        },
        GJson::Obj(ms) => {
            assert(print_json(j)[0] == '{');
        },
    }
}

/// The printed length of a value, for the budget arithmetic.
proof fn lemma_print_len_pos(j: GJson)
    requires
        wf_json(j),
    ensures
        print_json(j).len() >= 1,
{
    lemma_print_first(j);
}

/// The budget a value needs is at most twice its printed length.
proof fn lemma_fuel_bound(j: GJson)
    requires
        wf_json(j),
    ensures
        fuel_needed(j) <= 2 * print_json(j).len(),
    decreases j, 1int,
{
    match j {
        GJson::Arr(a) => {
            lemma_fuel_bound_elems(a);
            assert(print_json(j).len() == 2 + print_arr_items(a).len());
        },
        GJson::Obj(ms) => {
            lemma_fuel_bound_members(ms);
            assert(print_json(j).len() == 2 + print_obj_items(ms).len());
        },
        GJson::Num(s) => {
            assert(print_json(j).len() >= 1);
        },
        GJson::Str(s) => {
            assert(print_json(j).len() >= 2);
        },
        _ => {
            assert(print_json(j).len() >= 4);
        },
    }
}

proof fn lemma_fuel_bound_elems(a: Seq<GJson>)
    requires
        wf_arr(a),
    ensures
        fuel_elems(a) <= 2 * print_arr_items(a).len() + 2,
    decreases a, 0int,
{
    if a.len() > 0 {
        lemma_fuel_bound(a[0]);
        lemma_fuel_bound_elems(a.drop_first());
        lemma_items_front(a);
        lemma_print_len_pos(a[0]);
    }
}

proof fn lemma_fuel_bound_members(ms: Seq<(Seq<char>, GJson)>)
    requires
        wf_obj(ms),
    ensures
        fuel_members(ms) <= 2 * print_obj_items(ms).len() + 2,
    decreases ms, 0int,
{
    if ms.len() > 0 {
        lemma_fuel_bound(ms[0].1);
        lemma_fuel_bound_members(ms.drop_first());
        lemma_members_front(ms);
        lemma_print_len_pos(ms[0].1);
        assert(print_str(ms[0].0).len() >= 2);
    }
}

/// Parsing the printed body of a string literal recovers its characters.
#[verifier::rlimit(100)]
proof fn lemma_str_body_rt(full: Seq<char>, i: int, content: Seq<char>, acc: Seq<char>)
    requires
        0 <= i,
        i + print_str_body(content).len() + 1 <= full.len(),
        full.subrange(i, i + print_str_body(content).len() + 1) == print_str_body(content)
            + seq!['"'],
    ensures
        sp_str_body(full, i, acc) == Some(
            (acc + content, i + print_str_body(content).len() + 1),
        ),
    decreases content.len(),
{
    let seg = print_str_body(content) + seq!['"'];
    assert(forall|q: int| 0 <= q < seg.len() ==> full[i + q] == #[trigger] seg[q]) by {
        assert(forall|q: int| 0 <= q < seg.len() ==> #[trigger] full.subrange(
            i,
            i + print_str_body(content).len() + 1,
        )[q] == full[i + q]);
    }
    if content.len() == 0 {
        assert(print_str_body(content) =~= Seq::<char>::empty());
        assert(seg[0] == '"');
        assert(full[i] == '"');
        assert(acc + content =~= acc);
    } else {
        let c0 = content[0];
        let tail = content.drop_first();
        lemma_str_body_front(content);
        let e = esc_char(c0);
        let rest = print_str_body(tail);
        assert(print_str_body(content) == e + rest);
        assert(forall|q: int| 0 <= q < e.len() ==> #[trigger] seg[q] == e[q]);
        assert(seg.len() == e.len() + rest.len() + 1);
        assert(forall|q: int| 0 <= q < e.len() ==> full[i + q] == #[trigger] e[q]) by {
            assert(forall|q: int| 0 <= q < e.len() ==> #[trigger] e[q] == seg[q]);
        }
        let i2 = i + e.len();
        assert(forall|q: int| 0 <= q < rest.len() + 1 ==> full[i2 + q] == #[trigger] (rest
            + seq!['"'])[q]) by {
            assert(forall|q: int| 0 <= q < rest.len() + 1 ==> seg[e.len() + q] == #[trigger] (rest
                + seq!['"'])[q]);
        }
        assert(full.subrange(i2, i2 + rest.len() + 1) =~= rest + seq!['"']);
        lemma_str_body_rt(full, i2, tail, acc.push(c0));
        assert(acc.push(c0) + tail =~= acc + content);
        if c0 == '"' {
            assert(e =~= seq!['\\', '"']);
            assert(e[0] == '\\' && e[1] == '"');
            assert(full[i] == '\\' && full[i + 1] == '"');
            assert(esc_code('"') == Some('"'));
        } else if c0 == '\\' {
            assert(e =~= seq!['\\', '\\']);
            assert(e[0] == '\\' && e[1] == '\\');
            assert(full[i] == '\\' && full[i + 1] == '\\');
            assert(esc_code('\\') == Some('\\'));
        } else if c0 == '\n' {
            assert(e =~= seq!['\\', 'n']);
            assert(e[0] == '\\' && e[1] == 'n');
            assert(full[i] == '\\' && full[i + 1] == 'n');
            assert(esc_code('n') == Some('\n'));
        } else if c0 == '\r' {
            assert(e =~= seq!['\\', 'r']);
            assert(e[0] == '\\' && e[1] == 'r');
            assert(full[i] == '\\' && full[i + 1] == 'r');
        } else if c0 == '\t' {
            assert(e =~= seq!['\\', 't']);
            assert(e[0] == '\\' && e[1] == 't');
            assert(full[i] == '\\' && full[i + 1] == 't');
        } else if (c0 as u32) < 0x20 {
            let code = c0 as u32 as int;
            assert(e =~= seq!['\\', 'u', '0', '0', hex_digit(code / 16), hex_digit(code % 16)]);
            assert(e[0] == '\\' && e[1] == 'u' && e[2] == '0' && e[3] == '0' && e[4]
                == hex_digit(code / 16) && e[5] == hex_digit(code % 16));
            assert(full[i] == '\\' && full[i + 1] == 'u');
            assert(full[i + 2] == '0' && full[i + 3] == '0');
            assert(full[i + 4] == hex_digit(code / 16) && full[i + 5] == hex_digit(code % 16));
            vstd::arithmetic::div_mod::lemma_fundamental_div_mod(code, 16);
            lemma_hex_digit_val(code / 16);
            lemma_hex_digit_val(code % 16);
            assert(hex_val('0') == Some(0int));
            assert(sp_hex4(full, i + 2) == Some(
                0 * 4096 + 0 * 256 + (code / 16) * 16 + code % 16,
            ));
            assert(0 * 4096 + 0 * 256 + (code / 16) * 16 + code % 16 == code);
            assert(code < 0xD800);
            vstd::utf8::char_u32_cast(c0, c0 as u32);
            assert(((code as u32) as char) == c0);
        } else {
            assert(e =~= seq![c0]);
            assert(e[0] == c0);
            assert(full[i] == c0);
            assert(c0 != '"' && c0 != '\\');
            assert(esc_code(c0) is None || true);
        }
    }
}

/// A run of digits ends exactly where the printed lexeme does.
proof fn lemma_digits_end_run(full: Seq<char>, i: int, s: Seq<char>)
    requires
        0 <= i,
        i + s.len() <= full.len(),
        digits_only(s),
        full.subrange(i, i + s.len()) == s,
        i + s.len() == full.len() || !is_digit(full[i + s.len()]),
    ensures
        sp_digits_end(full, i) == i + s.len(),
    decreases s.len(),
{
    assert(forall|q: int| 0 <= q < s.len() ==> full[i + q] == #[trigger] s[q]) by {
        assert(forall|q: int| 0 <= q < s.len() ==> #[trigger] full.subrange(i, i + s.len())[q]
            == full[i + q]);
    }
    if s.len() == 0 {
    } else {
        assert(full[i] == s[0]);
        assert(is_digit(full[i]));
        assert(full.subrange(i + 1, i + 1 + s.drop_first().len()) =~= s.drop_first());
        lemma_digits_end_run(full, i + 1, s.drop_first());
    }
}

/// A printed number lexeme parses back as itself.
proof fn lemma_num_rt(full: Seq<char>, i: int, s: Seq<char>)
    requires
        0 <= i,
        s.len() > 0,
        digits_only(s),
        i + s.len() <= full.len(),
        full.subrange(i, i + s.len()) == s,
        boundary_ok(full, i + s.len()),
    ensures
        sp_num_end(full, i) == Some(i + s.len()),
        full.subrange(i, i + s.len()) == s,
    decreases s.len(),
{
    let p = i + s.len();
    assert(full[i] == s[0]) by {
        assert(full.subrange(i, i + s.len())[0] == full[i]);
    }
    assert(is_digit(s[0]));
    assert(full[i] != '-') by {
        if full[i] == '-' {
            assert(is_digit('-'));
            assert('-' as u32 == 45);
        }
    }
    if p < full.len() {
        assert(full[p] == ',' || full[p] == ']' || full[p] == '}');
        assert(!is_digit(full[p])) by {
            assert(',' as u32 == 44 && ']' as u32 == 93 && '}' as u32 == 125);
        }
    }
    lemma_digits_end_run(full, i, s);
    assert(sp_digits_end(full, i) == p);
    if p < full.len() {
        assert(full[p] != '.' && full[p] != 'e' && full[p] != 'E');
    }
}

/// Whitespace skipping stops immediately at a non-blank position.
proof fn lemma_skip_here(s: Seq<char>, p: int)
    requires
        0 <= p,
        p >= s.len() || !is_json_ws(s[p]),
    ensures
        sp_skip_ws(s, p) == p,
{
}

/// Parsing a printed value at its position yields it back.
#[verifier::rlimit(100)]
#[verifier::spinoff_prover]
proof fn lemma_value_rt(full: Seq<char>, i: int, j: GJson, fuel: nat)
    requires
        wf_json(j),
        0 <= i,
        i + print_json(j).len() <= full.len(),
        full.subrange(i, i + print_json(j).len()) == print_json(j),
        boundary_ok(full, i + print_json(j).len()),
        fuel >= fuel_needed(j),
    ensures
        sp_value(full, i, fuel) == Some((j, i + print_json(j).len())),
    decreases j, 2int,
{
    let pj = print_json(j);
    let plen = pj.len();
    lemma_print_first(j);
    assert(forall|q: int| 0 <= q < plen ==> full[i + q] == #[trigger] pj[q]) by {
        assert(forall|q: int| 0 <= q < plen ==> #[trigger] full.subrange(i, i + plen)[q] == full[
            i + q
        ]);
    }
    assert(full[i] == pj[0]);
    lemma_skip_here(full, i);
    match j {
        GJson::Null => {
            assert(pj =~= seq!['n', 'u', 'l', 'l']);
            assert(full[i] == 'n' && full[i + 1] == 'u' && full[i + 2] == 'l' && full[i + 3]
                == 'l');
        },
        GJson::Bool(b) => {
            if b {
                assert(pj =~= seq!['t', 'r', 'u', 'e']);
                assert(full[i] == 't' && full[i + 1] == 'r' && full[i + 2] == 'u' && full[i + 3]
                    == 'e');
            } else {
                assert(pj =~= seq!['f', 'a', 'l', 's', 'e']);
                assert(full[i] == 'f' && full[i + 1] == 'a' && full[i + 2] == 'l' && full[i + 3]
                    == 's' && full[i + 4] == 'e');
            }
        },
        GJson::Num(sn) => {
            assert(pj == sn);
            assert(is_digit(full[i]));
            assert(full[i] != '{' && full[i] != '[' && full[i] != '"' && full[i] != 't' && full[i]
                != 'f' && full[i] != 'n') by {
                assert(48 <= full[i] as u32 <= 57);
                assert('{' as u32 == 123 && '[' as u32 == 91 && '"' as u32 == 34 && 't' as u32
                    == 116 && 'f' as u32 == 102 && 'n' as u32 == 110);
            }
            lemma_num_rt(full, i, sn);
            assert(full.subrange(i, i + sn.len()) == sn);
        },
        GJson::Str(sc) => {
            let body = print_str_body(sc);
            assert(pj == seq!['"'] + body + seq!['"']);
            assert(pj[0] == '"');
            assert(full[i] == '"');
            assert(full[i] != '{' && full[i] != '[') by {
                assert('"' as u32 == 34 && '{' as u32 == 123 && '[' as u32 == 91);
            }
            assert(forall|q: int| 0 <= q < body.len() + 1 ==> full[i + 1 + q] == #[trigger] (body
                + seq!['"'])[q]) by {
                assert(forall|q: int| 0 <= q < body.len() + 1 ==> pj[1 + q] == #[trigger] (body
                    + seq!['"'])[q]);
            }
            assert(full.subrange(i + 1, i + 1 + body.len() + 1) =~= body + seq!['"']);
            lemma_str_body_rt(full, i + 1, sc, Seq::empty());
            assert(Seq::<char>::empty() + sc =~= sc);
            assert(plen == body.len() + 2);
        },
        GJson::Arr(a) => {
            let items = print_arr_items(a);
            assert(pj == seq!['['] + items + seq![']']);
            assert(pj[0] == '[');
            assert(full[i] == '[');
            assert(full[i] != '{') by {
                assert('[' as u32 == 91 && '{' as u32 == 123);
            }
            if a.len() == 0 {
                assert(items =~= Seq::<char>::empty());
                assert(plen == 2);
                assert(pj[1] == ']');
                assert(full[i + 1] == ']');
                lemma_skip_here(full, i + 1);
                assert(a =~= Seq::<GJson>::empty());
            } else {
                lemma_items_front(a);
                lemma_print_first(a[0]);
                assert(items[0] == print_json(a[0])[0]);
                assert(pj[1] == items[0]);
                assert(full[i + 1] == items[0]);
                assert(!is_json_ws(full[i + 1]));
                lemma_skip_here(full, i + 1);
                assert(full[i + 1] != ']');
                assert(forall|q: int| 0 <= q < items.len() + 1 ==> full[i + 1 + q]
                    == #[trigger] (items + seq![']'])[q]) by {
                    assert(forall|q: int| 0 <= q < items.len() + 1 ==> pj[1 + q]
                        == #[trigger] (items + seq![']'])[q]);
                }
                assert(full.subrange(i + 1, i + 1 + items.len() + 1) =~= items + seq![']']);
                assert(boundary_ok(full, i + 1 + items.len() + 1));
                assert(fuel - 1 >= fuel_elems(a));
                lemma_elems_rt(full, i + 1, a, (fuel - 1) as nat, Seq::empty());
                assert(Seq::<GJson>::empty() + a =~= a);
                assert(plen == items.len() + 2);
            }
        },
        GJson::Obj(ms) => {
            let items = print_obj_items(ms);
            assert(pj == seq!['{'] + items + seq!['}']);
            assert(pj[0] == '{');
            assert(full[i] == '{');
            if ms.len() == 0 {
                assert(items =~= Seq::<char>::empty());
                assert(plen == 2);
                assert(pj[1] == '}');
                assert(full[i + 1] == '}');
                lemma_skip_here(full, i + 1);
                assert(ms =~= Seq::<(Seq<char>, GJson)>::empty());
            } else {
                lemma_members_front(ms);
                assert(print_str(ms[0].0)[0] == '"');
                assert(items[0] == '"');
                assert(pj[1] == items[0]);
                assert(full[i + 1] == '"');
                assert(!is_json_ws(full[i + 1])) by {
                    assert('"' as u32 == 34);
                }
                lemma_skip_here(full, i + 1);
                assert(full[i + 1] != '}') by {
                    assert('"' as u32 == 34 && '}' as u32 == 125);
                }
                assert(forall|q: int| 0 <= q < items.len() + 1 ==> full[i + 1 + q]
                    == #[trigger] (items + seq!['}'])[q]) by {
                    assert(forall|q: int| 0 <= q < items.len() + 1 ==> pj[1 + q]
                        == #[trigger] (items + seq!['}'])[q]);
                }
                assert(full.subrange(i + 1, i + 1 + items.len() + 1) =~= items + seq!['}']);
                assert(boundary_ok(full, i + 1 + items.len() + 1));
                assert(fuel - 1 >= fuel_members(ms));
                lemma_members_rt(full, i + 1, ms, (fuel - 1) as nat, Seq::empty());
                assert(Seq::<(Seq<char>, GJson)>::empty() + ms =~= ms);
                assert(plen == items.len() + 2);
            }
        },
    }
}

/// Parsing the printed elements of a non-empty array recovers them.
#[verifier::rlimit(100)]
#[verifier::spinoff_prover]
proof fn lemma_elems_rt(full: Seq<char>, i: int, a: Seq<GJson>, fuel: nat, acc: Seq<GJson>)
    requires
        wf_arr(a),
        a.len() >= 1,
        0 <= i,
        i + print_arr_items(a).len() + 1 <= full.len(),
        full.subrange(i, i + print_arr_items(a).len() + 1) == print_arr_items(a) + seq![']'],
        boundary_ok(full, i + print_arr_items(a).len() + 1),
        fuel >= fuel_elems(a),
    ensures
        sp_elems(full, i, fuel, acc) == Some((acc + a, i + print_arr_items(a).len() + 1)),
    decreases a, 1int,
{
    let items = print_arr_items(a);
    let seg = items + seq![']'];
    let endp = i + items.len() + 1;
    assert(forall|q: int| 0 <= q < seg.len() ==> full[i + q] == #[trigger] seg[q]) by {
        assert(forall|q: int| 0 <= q < seg.len() ==> #[trigger] full.subrange(i, i + items.len()
            + 1)[q] == full[i + q]);
    }
    lemma_items_front(a);
    let p0 = print_json(a[0]);
    assert(forall|q: int| 0 <= q < p0.len() ==> full[i + q] == #[trigger] p0[q]) by {
        assert(forall|q: int| 0 <= q < p0.len() ==> #[trigger] p0[q] == seg[q]);
    }
    assert(full.subrange(i, i + p0.len()) =~= p0);
    let e0 = i + p0.len();
    if a.len() == 1 {
        assert(items == p0);
        assert(seg[p0.len() as int] == ']');
        assert(full[e0] == ']');
        assert(boundary_ok(full, e0));
        lemma_value_rt(full, i, a[0], (fuel - 1) as nat);
        lemma_skip_here(full, e0);
        assert(full[e0] != ',') by {
            assert(']' as u32 == 93 && ',' as u32 == 44);
        }
        assert(acc.push(a[0]) =~= acc + a);
        assert(e0 + 1 == endp);
    } else {
        let tail = a.drop_first();
        let items2 = print_arr_items(tail);
        assert(items == p0 + (seq![','] + items2));
        assert(seg[p0.len() as int] == ',');
        assert(full[e0] == ',');
        assert(boundary_ok(full, e0));
        lemma_value_rt(full, i, a[0], (fuel - 1) as nat);
        lemma_skip_here(full, e0);
        assert(forall|q: int| 0 <= q < items2.len() + 1 ==> full[e0 + 1 + q] == #[trigger] (
        items2 + seq![']'])[q]) by {
            assert(forall|q: int| 0 <= q < items2.len() + 1 ==> seg[p0.len() + 1 + q]
                == #[trigger] (items2 + seq![']'])[q]);
        }
        assert(full.subrange(e0 + 1, e0 + 1 + items2.len() + 1) =~= items2 + seq![']']);
        assert(boundary_ok(full, e0 + 1 + items2.len() + 1));
        assert(fuel - 1 >= fuel_elems(tail));
        lemma_elems_rt(full, e0 + 1, tail, (fuel - 1) as nat, acc.push(a[0]));
        assert(acc.push(a[0]) + tail =~= acc + a);
        assert(e0 + 1 + items2.len() + 1 == endp);
    }
}

/// Parsing the printed members of a non-empty object recovers them.
#[verifier::rlimit(100)]
#[verifier::spinoff_prover]
proof fn lemma_members_rt(
    full: Seq<char>,
    i: int,
    ms: Seq<(Seq<char>, GJson)>,
    fuel: nat,
    acc: Seq<(Seq<char>, GJson)>,
)
    requires
        wf_obj(ms),
        ms.len() >= 1,
        0 <= i,
        i + print_obj_items(ms).len() + 1 <= full.len(),
        full.subrange(i, i + print_obj_items(ms).len() + 1) == print_obj_items(ms) + seq!['}'],
        boundary_ok(full, i + print_obj_items(ms).len() + 1),
        fuel >= fuel_members(ms),
    ensures
        sp_members(full, i, fuel, acc) == Some((acc + ms, i + print_obj_items(ms).len() + 1)),
    decreases ms, 1int,
{
    let items = print_obj_items(ms);
    let seg = items + seq!['}'];
    let endp = i + items.len() + 1;
    assert(forall|q: int| 0 <= q < seg.len() ==> full[i + q] == #[trigger] seg[q]) by {
        assert(forall|q: int| 0 <= q < seg.len() ==> #[trigger] full.subrange(i, i + items.len()
            + 1)[q] == full[i + q]);
    }
    lemma_members_front(ms);
    let k0 = ms[0].0;
    let v0 = ms[0].1;
    let pk = print_str(k0);
    let pv = print_json(v0);
    let body = print_str_body(k0);
    assert(pk == seq!['"'] + body + seq!['"']);
    assert(forall|q: int| 0 <= q < pk.len() ==> #[trigger] seg[q] == pk[q]);
    assert(full[i] == '"') by {
        assert(pk[0] == '"');
        assert(seg[0] == pk[0]);
    }
    lemma_skip_here(full, i);
    assert(pk.len() + 1 <= seg.len()) by {
        assert(items.len() >= pk.len() + 1 + pv.len());
    }
    assert forall|q: int| 0 <= q < body.len() + 1 implies full[i + 1 + q] == #[trigger] (body
        + seq!['"'])[q] by {
        assert(seg[1 + q] == pk[1 + q]);
        assert(full[i + 1 + q] == seg[1 + q]);
        assert(pk[1 + q] == (body + seq!['"'])[q]);
    }
    assert(full.subrange(i + 1, i + 1 + body.len() + 1) =~= body + seq!['"']);
    lemma_str_body_rt(full, i + 1, k0, Seq::empty());
    assert(Seq::<char>::empty() + k0 =~= k0);
    let kend = i + pk.len();
    assert(seg[pk.len() as int] == ':');
    assert(full[kend] == ':');
    lemma_skip_here(full, kend);
    assert(forall|q: int| 0 <= q < pv.len() ==> full[kend + 1 + q] == #[trigger] pv[q]) by {
        assert(forall|q: int| 0 <= q < pv.len() ==> seg[pk.len() + 1 + q] == #[trigger] pv[q]);
    }
    assert(full.subrange(kend + 1, kend + 1 + pv.len()) =~= pv);
    let e0 = kend + 1 + pv.len();
    if ms.len() == 1 {
        assert(items == pk + seq![':'] + pv);
        assert(seg[items.len() as int] == '}');
        assert(full[e0] == '}');
        assert(boundary_ok(full, e0));
        lemma_value_rt(full, kend + 1, v0, (fuel - 1) as nat);
        lemma_skip_here(full, e0);
        assert(full[e0] != ',') by {
            assert('}' as u32 == 125 && ',' as u32 == 44);
        }
        assert(acc.push((k0, v0)) =~= acc + ms) by {
            assert(ms =~= seq![(k0, v0)]);
        }
        assert(e0 + 1 == endp);
    } else {
        let tail = ms.drop_first();
        let items2 = print_obj_items(tail);
        assert(items == pk + seq![':'] + pv + (seq![','] + items2));
        assert(seg[pk.len() + 1 + pv.len() as int] == ',');
        assert(full[e0] == ',');
        assert(boundary_ok(full, e0));
        lemma_value_rt(full, kend + 1, v0, (fuel - 1) as nat);
        lemma_skip_here(full, e0);
        assert(forall|q: int| 0 <= q < items2.len() + 1 ==> full[e0 + 1 + q] == #[trigger] (
        items2 + seq!['}'])[q]) by {
            assert(forall|q: int| 0 <= q < items2.len() + 1 ==> seg[pk.len() + 1 + pv.len() + 1
                + q] == #[trigger] (items2 + seq!['}'])[q]);
        }
        assert(full.subrange(e0 + 1, e0 + 1 + items2.len() + 1) =~= items2 + seq!['}']);
        assert(boundary_ok(full, e0 + 1 + items2.len() + 1));
        assert(fuel - 1 >= fuel_members(tail));
        lemma_members_rt(full, e0 + 1, tail, (fuel - 1) as nat, acc.push((k0, v0)));
        assert(acc.push((k0, v0)) + tail =~= acc + ms);
        assert(e0 + 1 + items2.len() + 1 == endp);
    }
}

/// Parsing the printed form of a well-formed JSON document yields the
/// document back: the printer and parser are mutually inverse.
pub proof fn lemma_print_parse_roundtrip(j: GJson)
    requires
        wf_json(j),
    ensures
        sp_parse_json(print_json(j)) == Some(j),
{
    let full = print_json(j);
    lemma_print_len_pos(j);
    lemma_fuel_bound(j);
    assert(full.subrange(0, full.len() as int) =~= full);
    assert(boundary_ok(full, full.len() as int));
    assert(parse_fuel(full) >= fuel_needed(j));
    lemma_value_rt(full, 0, j, parse_fuel(full));
    lemma_skip_here(full, full.len() as int);
}

/// The decimal digits of a number are digits.
proof fn lemma_u64_digits_only(n: nat)
    ensures
        crate::numstr::u64_digits(n).len() > 0,
        digits_only(crate::numstr::u64_digits(n)),
    decreases n,
{
    let s = crate::numstr::u64_digits(n);
    if n < 10 {
        crate::numstr::lemma_dig_char(n as int);
        assert(s =~= seq![crate::numstr::dig_char(n as int)]);
        assert(forall|q: int| 0 <= q < s.len() ==> is_digit(#[trigger] s[q]));
    } else {
        lemma_u64_digits_only(n / 10);
        crate::numstr::lemma_dig_char((n % 10) as int);
        let pre = crate::numstr::u64_digits(n / 10);
        assert(s == pre.push(crate::numstr::dig_char((n % 10) as int)));
        assert forall|q: int| 0 <= q < s.len() implies is_digit(#[trigger] s[q]) by {
            if q < pre.len() {
                assert(s[q] == pre[q]);
            } else {
                assert(s[q] == crate::numstr::dig_char((n % 10) as int));
            }
        }
    }
}

proof fn lemma_wf_arr_push(a: Seq<GJson>, x: GJson)
    requires
        wf_arr(a),
        wf_json(x),
    ensures
        wf_arr(a.push(x)),
    decreases a.len(),
{
    assert(a.push(x).len() > 0);
    if a.len() == 0 {
        assert(a.push(x)[0] == x);
        assert(a.push(x).drop_first() =~= Seq::<GJson>::empty());
        assert(wf_arr(Seq::<GJson>::empty()));
        assert(wf_arr(a.push(x)) == (wf_json(a.push(x)[0]) && wf_arr(a.push(x).drop_first())));
    } else {
        assert(a.push(x)[0] == a[0]);
        assert(a.push(x).drop_first() =~= a.drop_first().push(x));
        lemma_wf_arr_push(a.drop_first(), x);
        assert(wf_arr(a.push(x)) == (wf_json(a.push(x)[0]) && wf_arr(a.push(x).drop_first())));
    }
}

proof fn lemma_wf_obj_push(ms: Seq<(Seq<char>, GJson)>, x: (Seq<char>, GJson))
    requires
        wf_obj(ms),
        wf_json(x.1),
    ensures
        wf_obj(ms.push(x)),
    decreases ms.len(),
{
    assert(ms.push(x).len() > 0);
    if ms.len() == 0 {
        assert(ms.push(x)[0] == x);
        assert(ms.push(x).drop_first() =~= Seq::<(Seq<char>, GJson)>::empty());
        assert(wf_obj(Seq::<(Seq<char>, GJson)>::empty()));
        assert(wf_obj(ms.push(x)) == (wf_json(ms.push(x)[0].1) && wf_obj(
            ms.push(x).drop_first(),
        )));
    } else {
        assert(ms.push(x)[0] == ms[0]);
        assert(ms.push(x).drop_first() =~= ms.drop_first().push(x));
        lemma_wf_obj_push(ms.drop_first(), x);
        assert(wf_obj(ms.push(x)) == (wf_json(ms.push(x)[0].1) && wf_obj(
            ms.push(x).drop_first(),
        )));
    }
}

/// An object all of whose member values are well-formed is well-formed.
proof fn lemma_wf_obj_lit(ms: Seq<(Seq<char>, GJson)>)
    requires
        forall|q: int| 0 <= q < ms.len() ==> wf_json((#[trigger] ms[q]).1),
    ensures
        wf_obj(ms),
    decreases ms.len(),
{
    if ms.len() > 0 {
        assert(wf_json(ms[0].1));
        assert forall|q: int| 0 <= q < ms.drop_first().len() implies wf_json(
            (#[trigger] ms.drop_first()[q]).1,
        ) by {
            assert(ms.drop_first()[q] == ms[q + 1]);
        }
        lemma_wf_obj_lit(ms.drop_first());
    }
}

/// The metadata object of a card is well-formed: all values are strings.
proof fn lemma_wf_enc_meta(m: Seq<(Seq<char>, Seq<char>)>)
    ensures
        wf_obj(crate::codec::enc_meta(m)),
    decreases m,
{
    if m.len() > 0 {
        lemma_wf_enc_meta(m.drop_last());
        lemma_wf_obj_push(
            crate::codec::enc_meta(m.drop_last()),
            (m.last().0, GJson::Str(m.last().1)),
        );
    }
}

/// Everything the encoder prints is well-formed: every number lexeme it
/// emits is a plain run of decimal digits.
#[verifier::rlimit(100)]
#[verifier::spinoff_prover]
pub proof fn lemma_wf_enc_node(g: crate::ast::GNode)
    ensures
        wf_json(crate::codec::enc_node(g)),
    decreases g, 3int,
{
    let e = crate::codec::enc_node(g);
    match g {
        crate::ast::GNode::Heading { level, children } => {
            lemma_u64_digits_only(level as nat);
            lemma_wf_enc_nodes(children);
        },
        crate::ast::GNode::Root { children } => {
            lemma_wf_enc_nodes(children);
        },
        crate::ast::GNode::Paragraph { children } => {
            lemma_wf_enc_nodes(children);
        },
        crate::ast::GNode::Strong { children } => {
            lemma_wf_enc_nodes(children);
        },
        crate::ast::GNode::Em { children } => {
            lemma_wf_enc_nodes(children);
        },
        crate::ast::GNode::Underline { children } => {
            lemma_wf_enc_nodes(children);
        },
        crate::ast::GNode::Strike { children } => {
            lemma_wf_enc_nodes(children);
        },
        crate::ast::GNode::Blockquote { children } => {
            lemma_wf_enc_nodes(children);
        },
        crate::ast::GNode::Color { color, children } => {
            lemma_wf_enc_nodes(children);
        },
        crate::ast::GNode::Link { url, children } => {
            lemma_wf_enc_nodes(children);
        },
        crate::ast::GNode::Image { url, width, height, alt } => {
            if width is Some {
                lemma_u64_digits_only(width->0 as nat);
            }
            if height is Some {
                lemma_u64_digits_only(height->0 as nat);
            }
        },
        crate::ast::GNode::List { list_type, items } => {
            lemma_wf_enc_items(items);
        },
        crate::ast::GNode::ListItem { item } => {
            lemma_wf_enc_nodes(item.children);
        },
        crate::ast::GNode::Table { rows } => {
            lemma_wf_enc_rows(rows);
        },
        crate::ast::GNode::TableRow { row } => {
            lemma_wf_enc_cells(row.cells);
        },
        crate::ast::GNode::TableCell { cell } => {
            lemma_wf_enc_nodes(cell.children);
        },
        crate::ast::GNode::Card { subtype, content, metadata } => {
            lemma_wf_enc_meta(metadata);
        },
        _ => {},
    }
    match e {
        GJson::Obj(ms) => {
            assert forall|q: int| 0 <= q < ms.len() implies wf_json((#[trigger] ms[q]).1) by {
                assert(wf_json(ms[q].1));
            }
            lemma_wf_obj_lit(ms);
        },
        _ => {},
    }
}

proof fn lemma_wf_enc_nodes(s: Seq<crate::ast::GNode>)
    ensures
        wf_arr(crate::codec::enc_nodes(s)),
    decreases s, 4int,
{
    if s.len() > 0 {
        lemma_wf_enc_nodes(s.drop_last());
        lemma_wf_enc_node(s.last());
        lemma_wf_arr_push(
            crate::codec::enc_nodes(s.drop_last()),
            crate::codec::enc_node(s.last()),
        );
    }
}

proof fn lemma_wf_enc_items(s: Seq<crate::ast::GListItem>)
    ensures
        wf_arr(crate::codec::enc_items(s)),
    decreases s, 4int,
{
    if s.len() > 0 {
        lemma_wf_enc_items(s.drop_last());
        lemma_wf_enc_nodes(s.last().children);
        let fields = crate::codec::enc_item_fields(s.last());
        assert forall|q: int| 0 <= q < fields.len() implies wf_json((#[trigger] fields[q]).1) by {
            assert(wf_json(fields[q].1));
        }
        lemma_wf_obj_lit(fields);
        lemma_wf_arr_push(crate::codec::enc_items(s.drop_last()), GJson::Obj(fields));
    }
}

proof fn lemma_wf_enc_cells(s: Seq<crate::ast::GCell>)
    ensures
        wf_arr(crate::codec::enc_cells(s)),
    decreases s, 4int,
{
    if s.len() > 0 {
        lemma_wf_enc_cells(s.drop_last());
        lemma_wf_enc_nodes(s.last().children);
        let fields = crate::codec::enc_cell_fields(s.last());
        assert forall|q: int| 0 <= q < fields.len() implies wf_json((#[trigger] fields[q]).1) by {
            assert(wf_json(fields[q].1));
        }
        lemma_wf_obj_lit(fields);
        lemma_wf_arr_push(crate::codec::enc_cells(s.drop_last()), GJson::Obj(fields));
    }
}

proof fn lemma_wf_enc_rows(s: Seq<crate::ast::GRow>)
    ensures
        wf_arr(crate::codec::enc_rows(s)),
    decreases s, 6int,
{
    if s.len() > 0 {
        lemma_wf_enc_rows(s.drop_last());
        lemma_wf_enc_cells(s.last().cells);
        let fields = crate::codec::enc_row_fields(s.last());
        assert forall|q: int| 0 <= q < fields.len() implies wf_json((#[trigger] fields[q]).1) by {
            assert(wf_json(fields[q].1));
        }
        lemma_wf_obj_lit(fields);
        lemma_wf_arr_push(crate::codec::enc_rows(s.drop_last()), GJson::Obj(fields));
    }
}

/// Serialization is lossless end to end: the printed text of an encoded
/// tree parses back to the very encoding, which decodes to the very tree.
/// With the exact contracts of `serialize_ast` and `deserialize_ast`, this
/// says that deserializing a serialized tree returns that tree.
pub proof fn lemma_serialization_lossless(children: Seq<crate::ast::GNode>)
    ensures
        sp_parse_json(print_json(enc_root_doc(children))) == Some(enc_root_doc(children)),
        dec_root_doc(enc_root_doc(children)) == Some(children),
{
    let doc = enc_root_doc(children);
    lemma_wf_enc_nodes(children);
    let ms = doc->Obj_0;
    assert forall|q: int| 0 <= q < ms.len() implies wf_json((#[trigger] ms[q]).1) by {
        assert(wf_json(ms[q].1));
    }
    lemma_wf_obj_lit(ms);
    lemma_print_parse_roundtrip(doc);
    lemma_codec_root_doc(children);
}

} // verus!

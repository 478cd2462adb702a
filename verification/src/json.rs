//! A small JSON document type with a verified printer and parser.
//!
//! Numbers are kept as their raw lexeme so that printing a parsed document
//! reproduces the input byte for byte; none of the document logic ever reads
//! a numeric value as a float.
use vstd::prelude::*;

verus! {

broadcast use vstd::std_specs::vec::group_vec_axioms, vstd::seq::group_seq_axioms;

/// One JSON value. Object members keep their textual order; duplicate keys
/// are kept as written.
#[derive(Debug)]
pub enum Json {
    Null,
    Bool(bool),
    /// The raw number lexeme, e.g. `-12.5e3`.
    Num(String),
    Str(String),
    Arr(Vec<Json>),
    Obj(Vec<(String, Json)>),
}

/// Mathematical model of a JSON value.
#[verifier::ext_equal]
pub enum GJson {
    Null,
    Bool(bool),
    Num(Seq<char>),
    Str(Seq<char>),
    Arr(Seq<GJson>),
    Obj(Seq<(Seq<char>, GJson)>),
}

pub open spec fn view_json_arr(s: Seq<Json>) -> Seq<GJson>
    decreases s,
{
    if s.len() == 0 {
        Seq::empty()
    } else {
        view_json_arr(s.drop_last()).push(s.last()@)
    }
}

pub open spec fn view_json_obj(s: Seq<(String, Json)>) -> Seq<(Seq<char>, GJson)>
    decreases s,
{
    if s.len() == 0 {
        Seq::empty()
    } else {
        view_json_obj(s.drop_last()).push((s.last().0@, s.last().1@))
    }
}

impl View for Json {
    type V = GJson;

    open spec fn view(&self) -> GJson
        decreases self,
    {
        match self {
            Json::Null => GJson::Null,
            Json::Bool(b) => GJson::Bool(*b),
            Json::Num(s) => GJson::Num(s@),
            Json::Str(s) => GJson::Str(s@),
            Json::Arr(a) => GJson::Arr(view_json_arr(a@)),
            Json::Obj(o) => GJson::Obj(view_json_obj(o@)),
        }
    }
}

pub broadcast proof fn lemma_view_json_arr_len(s: Seq<Json>)
    ensures
        #[trigger] view_json_arr(s).len() == s.len(),
    decreases s.len(),
{
    if s.len() > 0 {
        lemma_view_json_arr_len(s.drop_last());
        assert(view_json_arr(s) == view_json_arr(s.drop_last()).push(s.last()@));
    }
}

pub broadcast proof fn lemma_view_json_arr_index(s: Seq<Json>, i: int)
    requires
        0 <= i < s.len(),
    ensures
        #[trigger] view_json_arr(s)[i] == s[i]@,
    decreases s.len(),
{
    lemma_view_json_arr_len(s);
    lemma_view_json_arr_len(s.drop_last());
    assert(view_json_arr(s) == view_json_arr(s.drop_last()).push(s.last()@));
    if i < s.len() - 1 {
        lemma_view_json_arr_index(s.drop_last(), i);
        assert(s.drop_last()[i] == s[i]);
    }
}

pub broadcast proof fn lemma_view_json_arr_push(s: Seq<Json>, x: Json)
    ensures
        #[trigger] view_json_arr(s.push(x)) == view_json_arr(s).push(x@),
{
    assert(s.push(x).drop_last() =~= s);
    assert(s.push(x).last() == x);
}

pub broadcast proof fn lemma_view_json_obj_len(s: Seq<(String, Json)>)
    ensures
        #[trigger] view_json_obj(s).len() == s.len(),
    decreases s.len(),
{
    if s.len() > 0 {
        lemma_view_json_obj_len(s.drop_last());
        assert(view_json_obj(s) == view_json_obj(s.drop_last()).push((s.last().0@, s.last().1@)));
    }
}

pub broadcast proof fn lemma_view_json_obj_index(s: Seq<(String, Json)>, i: int)
    requires
        0 <= i < s.len(),
    ensures
        #[trigger] view_json_obj(s)[i] == (s[i].0@, s[i].1@),
    decreases s.len(),
{
    lemma_view_json_obj_len(s);
    lemma_view_json_obj_len(s.drop_last());
    assert(view_json_obj(s) == view_json_obj(s.drop_last()).push((s.last().0@, s.last().1@)));
    if i < s.len() - 1 {
        lemma_view_json_obj_index(s.drop_last(), i);
        assert(s.drop_last()[i] == s[i]);
    }
}

pub broadcast proof fn lemma_view_json_obj_push(s: Seq<(String, Json)>, x: (String, Json))
    ensures
        #[trigger] view_json_obj(s.push(x)) == view_json_obj(s).push((x.0@, x.1@)),
{
    assert(s.push(x).drop_last() =~= s);
    assert(s.push(x).last() == x);
}

/// The lower-case hex digit for a value below 16.
pub open spec fn hex_digit(n: int) -> char {
    if n == 0 {
        '0'
    } else if n == 1 {
        '1'
    } else if n == 2 {
        '2'
    } else if n == 3 {
        '3'
    } else if n == 4 {
        '4'
    } else if n == 5 {
        '5'
    } else if n == 6 {
        '6'
    } else if n == 7 {
        '7'
    } else if n == 8 {
        '8'
    } else if n == 9 {
        '9'
    } else if n == 10 {
        'a'
    } else if n == 11 {
        'b'
    } else if n == 12 {
        'c'
    } else if n == 13 {
        'd'
    } else if n == 14 {
        'e'
    } else {
        'f'
    }
}

/// How one character appears inside a printed JSON string literal.
pub open spec fn esc_char(c: char) -> Seq<char> {
    if c == '"' {
        seq!['\\', '"']
    } else if c == '\\' {
        seq!['\\', '\\']
    } else if c == '\n' {
        seq!['\\', 'n']
    } else if c == '\r' {
        seq!['\\', 'r']
    } else if c == '\t' {
        seq!['\\', 't']
    } else if (c as u32) < 0x20 {
        seq!['\\', 'u', '0', '0', hex_digit(c as u32 as int / 16), hex_digit(c as u32 as int % 16)]
    } else {
        seq![c]
    }
}

/// The printed body of a string literal, quotes not included.
pub open spec fn print_str_body(s: Seq<char>) -> Seq<char>
    decreases s,
{
    if s.len() == 0 {
        Seq::empty()
    } else {
        print_str_body(s.drop_last()) + esc_char(s.last())
    }
}

/// A printed string literal with its quotes.
pub open spec fn print_str(s: Seq<char>) -> Seq<char> {
    seq!['"'] + print_str_body(s) + seq!['"']
}

/// The compact (no added whitespace) printed form of a JSON value.
pub open spec fn print_json(j: GJson) -> Seq<char>
    decreases j,
{
    match j {
        GJson::Null => seq!['n', 'u', 'l', 'l'],
        GJson::Bool(b) => if b {
            seq!['t', 'r', 'u', 'e']
        } else {
            seq!['f', 'a', 'l', 's', 'e']
        },
        GJson::Num(s) => s,
        GJson::Str(s) => print_str(s),
        GJson::Arr(items) => seq!['['] + print_arr_items(items) + seq![']'],
        GJson::Obj(members) => seq!['{'] + print_obj_items(members) + seq!['}'],
    }
}

/// Array items joined by commas.
pub open spec fn print_arr_items(items: Seq<GJson>) -> Seq<char>
    decreases items,
{
    if items.len() == 0 {
        Seq::empty()
    } else if items.len() == 1 {
        print_json(items.last())
    } else {
        print_arr_items(items.drop_last()) + seq![','] + print_json(items.last())
    }
}

/// Object members, `"key":value` joined by commas.
pub open spec fn print_obj_items(members: Seq<(Seq<char>, GJson)>) -> Seq<char>
    decreases members,
{
    if members.len() == 0 {
        Seq::empty()
    } else if members.len() == 1 {
        print_str(members.last().0) + seq![':'] + print_json(members.last().1)
    } else {
        print_obj_items(members.drop_last()) + seq![','] + print_str(members.last().0) + seq![':']
            + print_json(members.last().1)
    }
}

/// Relies on str::chars / Iterator::collect: a string's characters in order,
/// which are exactly its view.
#[verifier::external_body]
pub fn str_to_chars(s: &str) -> (r: Vec<char>)
    ensures
        r@ == s@,
{
    s.chars().collect()
}

/// Relies on String::from_iter over chars: builds the string whose characters
/// are exactly the given ones.
#[verifier::external_body]
pub fn chars_to_string(v: &Vec<char>) -> (r: String)
    ensures
        r@ == v@,
{
    v.iter().collect()
}

/// The lower-case hex digit character for `n` < 16.
fn hex_char(n: u8) -> (r: char)
    requires
        n < 16,
    ensures
        r == hex_digit(n as int),
{
    if n < 10 {
        (48u8 + n) as char
    } else {
        (87u8 + n) as char
    }
}

/// Append the escaped form of one string-literal character.
fn push_esc_char(c: char, out: &mut Vec<char>)
    ensures
        final(out)@ == old(out)@ + esc_char(c),
{
    if c == '"' {
        out.push('\\');
        out.push('"');
    } else if c == '\\' {
        out.push('\\');
        out.push('\\');
    } else if c == '\n' {
        out.push('\\');
        out.push('n');
    } else if c == '\r' {
        out.push('\\');
        out.push('r');
    } else if c == '\t' {
        out.push('\\');
        out.push('t');
    } else if (c as u32) < 0x20 {
        let code = c as u32;
        out.push('\\');
        out.push('u');
        out.push('0');
        out.push('0');
        out.push(hex_char((code / 16) as u8));
        out.push(hex_char((code % 16) as u8));
    } else {
        out.push(c);
    }
    proof {
        assert(out@ =~= old(out)@ + esc_char(c));
    }
}

/// Append a quoted, escaped JSON string literal.
fn push_json_str(s: &str, out: &mut Vec<char>)
    ensures
        final(out)@ == old(out)@ + print_str(s@),
{
    let cs = str_to_chars(s);
    out.push('"');
    let n = cs.len();
    let mut k: usize = 0;
    while k < n
        invariant
            n == cs.len(),
            cs@ == s@,
            k <= n,
            out@ == old(out)@ + seq!['"'] + print_str_body(s@.take(k as int)),
        decreases n - k,
    {
        proof {
            assert(s@.take(k as int + 1).drop_last() =~= s@.take(k as int));
            assert(s@.take(k as int + 1).last() == s@[k as int]);
        }
        push_esc_char(cs[k], out);
        k += 1;
    }
    out.push('"');
    proof {
        assert(s@.take(n as int) =~= s@);
        assert(out@ =~= old(out)@ + print_str(s@));
    }
}

/// Append the raw characters of a string (used for number lexemes).
fn push_raw_str(s: &str, out: &mut Vec<char>)
    ensures
        final(out)@ == old(out)@ + s@,
{
    let cs = str_to_chars(s);
    let n = cs.len();
    let mut k: usize = 0;
    while k < n
        invariant
            n == cs.len(),
            cs@ == s@,
            k <= n,
            out@ == old(out)@ + s@.take(k as int),
        decreases n - k,
    {
        out.push(cs[k]);
        proof {
            assert(s@.take(k as int + 1) =~= s@.take(k as int).push(s@[k as int]));
            assert(old(out)@ + s@.take(k as int + 1) =~= (old(out)@ + s@.take(k as int)).push(
                s@[k as int],
            ));
        }
        k += 1;
    }
    proof {
        assert(s@.take(n as int) =~= s@);
    }
}

/// Append the compact printed form of a JSON value.
#[verifier::loop_isolation(false)]
#[verifier::rlimit(60)]
pub fn json_to_chars(j: &Json, out: &mut Vec<char>)
    ensures
        final(out)@ == old(out)@ + print_json(j@),
    decreases j,
{
    broadcast use lemma_view_json_arr_len, lemma_view_json_arr_index, lemma_view_json_obj_len, lemma_view_json_obj_index;

    match j {
        Json::Null => {
            out.push('n');
            out.push('u');
            out.push('l');
            out.push('l');
            proof {
                assert(out@ =~= old(out)@ + print_json(j@));
            }
        },
        Json::Bool(b) => {
            if *b {
                out.push('t');
                out.push('r');
                out.push('u');
                out.push('e');
            } else {
                out.push('f');
                out.push('a');
                out.push('l');
                out.push('s');
                out.push('e');
            }
            proof {
                assert(out@ =~= old(out)@ + print_json(j@));
            }
        },
        Json::Num(s) => {
            push_raw_str(s.as_str(), out);
        },
        Json::Str(s) => {
            push_json_str(s.as_str(), out);
        },
        Json::Arr(items) => {
            out.push('[');
            let n = items.len();
            let mut k: usize = 0;
            while k < n
                invariant
                    n == items.len(),
                    k <= n,
                    out@ == old(out)@ + seq!['['] + print_arr_items(
                        view_json_arr(items@.take(k as int)),
                    ),
                decreases n - k,
            {
                proof {
                    broadcast use lemma_view_json_arr_len, lemma_view_json_arr_index;

                    assert(items@.take(k as int + 1).drop_last() =~= items@.take(k as int));
                    assert(items@.take(k as int + 1).last() == items@[k as int]);
                    assert(view_json_arr(items@.take(k as int + 1)) == view_json_arr(
                        items@.take(k as int),
                    ).push(items@[k as int]@)) by {
                        lemma_view_json_arr_push(items@.take(k as int), items@[k as int]);
                    }
                }
                if k > 0 {
                    out.push(',');
                }
                proof {
                    assert(*items == j->Arr_0);
                    assert(decreases_to!(*j => j->Arr_0));
                    assert(decreases_to!(*items => items@[k as int]));
                }
                json_to_chars(&items[k], out);
                proof {
                    let prev = view_json_arr(items@.take(k as int));
                    let now = view_json_arr(items@.take(k as int + 1));
                    assert(now.drop_last() =~= prev);
                    assert(now.last() == items@[k as int]@);
                    if k == 0 {
                        assert(prev.len() == 0);
                        assert(print_arr_items(now) == print_json(items@[0]@));
                    }
                    assert(out@ =~= old(out)@ + seq!['['] + print_arr_items(now));
                }
                k += 1;
            }
            out.push(']');
            proof {
                assert(items@.take(n as int) =~= items@);
                assert(out@ =~= old(out)@ + print_json(j@));
            }
        },
        Json::Obj(members) => {
            out.push('{');
            let n = members.len();
            let mut k: usize = 0;
            while k < n
                invariant
                    n == members.len(),
                    k <= n,
                    out@ == old(out)@ + seq!['{'] + print_obj_items(
                        view_json_obj(members@.take(k as int)),
                    ),
                decreases n - k,
            {
                proof {
                    broadcast use lemma_view_json_obj_len, lemma_view_json_obj_index;

                    assert(members@.take(k as int + 1).drop_last() =~= members@.take(k as int));
                    assert(members@.take(k as int + 1).last() == members@[k as int]);
                    assert(view_json_obj(members@.take(k as int + 1)) == view_json_obj(
                        members@.take(k as int),
                    ).push((members@[k as int].0@, members@[k as int].1@))) by {
                        lemma_view_json_obj_push(members@.take(k as int), members@[k as int]);
                    }
                }
                if k > 0 {
                    out.push(',');
                }
                push_json_str(members[k].0.as_str(), out);
                out.push(':');
                proof {
                    assert(*members == j->Obj_0);
                    assert(decreases_to!(*j => j->Obj_0));
                    assert(decreases_to!(*members => members@[k as int]));
                    assert(decreases_to!(members@[k as int] => members@[k as int].1));
                }
                json_to_chars(&members[k].1, out);
                proof {
                    let prev = view_json_obj(members@.take(k as int));
                    let now = view_json_obj(members@.take(k as int + 1));
                    assert(now.drop_last() =~= prev);
                    assert(now.last() == (members@[k as int].0@, members@[k as int].1@));
                    if k == 0 {
                        assert(prev.len() == 0);
                    }
                    assert(out@ =~= old(out)@ + seq!['{'] + print_obj_items(now));
                }
                k += 1;
            }
            out.push('}');
            proof {
                assert(members@.take(n as int) =~= members@);
                assert(out@ =~= old(out)@ + print_json(j@));
            }
        },
    }
}

/// Print a JSON value compactly, with no added whitespace.
pub fn json_print(j: &Json) -> (r: String)
    ensures
        r@ == print_json(j@),
{
    let mut out: Vec<char> = Vec::new();
    json_to_chars(j, &mut out);
    chars_to_string(&out)
}

} // verus!

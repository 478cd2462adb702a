//! Splitting text runs on `$$...$$` and `$...$` math delimiters, without an
//! escaping grammar: a delimiter pair counts only when its trimmed interior
//! is non-empty, and unmatched delimiters stay literal text.
use vstd::prelude::*;

use crate::jsonparse::{is_json_ws, sp_skip_ws};

verus! {

broadcast use vstd::std_specs::vec::group_vec_axioms, vstd::seq::group_seq_axioms;

/// One piece of a split text run: literal text, or a formula with its
/// display flag (true for `$$`, false for `$`).
#[derive(Debug)]
pub enum TextPart {
    Text(String),
    Math(String, bool),
}

/// Mathematical model of a text piece.
#[verifier::ext_equal]
pub enum GPart {
    Text(Seq<char>),
    Math(Seq<char>, bool),
}

impl View for TextPart {
    type V = GPart;

    open spec fn view(&self) -> GPart {
        match self {
            TextPart::Text(s) => GPart::Text(s@),
            TextPart::Math(s, d) => GPart::Math(s@, *d),
        }
    }
}

pub open spec fn view_parts(s: Seq<TextPart>) -> Seq<GPart>
    decreases s,
{
    if s.len() == 0 {
        Seq::empty()
    } else {
        view_parts(s.drop_last()).push(s.last()@)
    }
}

pub broadcast proof fn lemma_view_parts_push(s: Seq<TextPart>, x: TextPart)
    ensures
        #[trigger] view_parts(s.push(x)) == view_parts(s).push(x@),
{
    assert(s.push(x).drop_last() =~= s);
    assert(s.push(x).last() == x);
}

/// The index one past the last non-whitespace character before `j`.
pub open spec fn trim_end_idx(s: Seq<char>, j: int) -> int
    decreases j,
{
    if 0 < j <= s.len() && is_json_ws(s[j - 1]) {
        trim_end_idx(s, j - 1)
    } else {
        j
    }
}

/// The text with leading and trailing whitespace removed.
pub open spec fn trim_seq(s: Seq<char>) -> Seq<char> {
    let a = sp_skip_ws(s, 0);
    let b = trim_end_idx(s, s.len() as int);
    if a >= b {
        Seq::empty()
    } else {
        s.subrange(a, b)
    }
}

/// Leading text between `a` and `b`, as a part list (empty when blank).
pub open spec fn pre_text(s: Seq<char>, a: int, b: int) -> Seq<GPart> {
    if a < b {
        seq![GPart::Text(s.subrange(a, b))]
    } else {
        Seq::empty()
    }
}

/// Trailing text from `a`, as a part list (empty when blank).
pub open spec fn tail_text(s: Seq<char>, a: int) -> Seq<GPart> {
    if a < s.len() {
        seq![GPart::Text(s.subrange(a, s.len() as int))]
    } else {
        Seq::empty()
    }
}

/// The first position `j` at or after `from` where a closing `$$` stands
/// and the interior from `cs` has non-blank content.
pub open spec fn find_dd_close(s: Seq<char>, cs: int, j: int) -> Option<int>
    decreases s.len() - j,
{
    if j < 0 || j + 1 >= s.len() {
        None
    } else if s[j] == '$' && s[j + 1] == '$' && trim_seq(s.subrange(cs, j)).len() > 0 {
        Some(j)
    } else {
        find_dd_close(s, cs, j + 1)
    }
}

pub proof fn lemma_find_dd_bounds(s: Seq<char>, cs: int, j: int)
    ensures
        find_dd_close(s, cs, j) matches Some(r) ==> j <= r && r + 1 < s.len(),
    decreases s.len() - j,
{
    if !(j < 0 || j + 1 >= s.len()) {
        if !(s[j] == '$' && s[j + 1] == '$' && trim_seq(s.subrange(cs, j)).len() > 0) {
            lemma_find_dd_bounds(s, cs, j + 1);
        }
    }
}

/// Scan for `$$...$$` spans. Returns the parts found and the position
/// after the last match; `md_break` selects what an unmatched opening
/// `$$` does: end the scan (Markdown) or be skipped (Delta).
pub open spec fn block_scan(s: Seq<char>, i: int, last: int, md_break: bool) -> (Seq<GPart>, int)
    decreases s.len() - i,
    via block_scan_decreases
{
    if i < 0 || i + 1 >= s.len() {
        (Seq::empty(), last)
    } else if s[i] == '$' && s[i + 1] == '$' {
        match find_dd_close(s, i + 2, i + 2) {
            Some(j) => {
                let rest = block_scan(s, j + 2, j + 2, md_break);
                (
                    pre_text(s, last, i) + seq![
                        GPart::Math(trim_seq(s.subrange(i + 2, j)), true),
                    ] + rest.0,
                    rest.1,
                )
            },
            None => {
                if md_break {
                    (Seq::empty(), last)
                } else {
                    block_scan(s, i + 2, last, md_break)
                }
            },
        }
    } else {
        block_scan(s, i + 1, last, md_break)
    }
}

#[via_fn]
proof fn block_scan_decreases(s: Seq<char>, i: int, last: int, md_break: bool) {
    lemma_find_dd_bounds(s, i + 2, i + 2);
}

/// The first position `j` at or after `from` holding a closing single `$`:
/// not preceded by `$`, for Markdown also not followed by `$`, with
/// non-blank interior from `cs`.
pub open spec fn find_sd_close(s: Seq<char>, cs: int, j: int, md: bool) -> Option<int>
    decreases s.len() - j,
{
    if j < 0 || j >= s.len() {
        None
    } else if s[j] == '$' && (j == 0 || s[j - 1] != '$') && (!md || j + 1 >= s.len() || s[j + 1]
        != '$') && trim_seq(s.subrange(cs, j)).len() > 0 {
        Some(j)
    } else {
        find_sd_close(s, cs, j + 1, md)
    }
}

pub proof fn lemma_find_sd_bounds(s: Seq<char>, cs: int, j: int, md: bool)
    ensures
        find_sd_close(s, cs, j, md) matches Some(r) ==> j <= r && r < s.len(),
    decreases s.len() - j,
{
    if !(j < 0 || j >= s.len()) {
        if !(s[j] == '$' && (j == 0 || s[j - 1] != '$') && (!md || j + 1 >= s.len() || s[j + 1]
            != '$') && trim_seq(s.subrange(cs, j)).len() > 0) {
            lemma_find_sd_bounds(s, cs, j + 1, md);
        }
    }
}

/// Scan for inline `$...$` spans. In the Markdown flavor (`md` true) a
/// `$$` is stepped over as a pair and a closing `$` may not be followed by
/// `$`; in the Delta flavor a `$$` is stepped over one `$` at a time.
pub open spec fn inline_scan(s: Seq<char>, i: int, last: int, md: bool) -> (Seq<GPart>, int)
    decreases s.len() - i,
    via inline_scan_decreases
{
    if i < 0 || i >= s.len() {
        (Seq::empty(), last)
    } else if s[i] == '$' {
        let dbl = i + 1 < s.len() && s[i + 1] == '$';
        if dbl {
            if md {
                inline_scan(s, i + 2, last, md)
            } else {
                inline_scan(s, i + 1, last, md)
            }
        } else {
            match find_sd_close(s, i + 1, i + 1, md) {
                Some(j) => {
                    let rest = inline_scan(s, j + 1, j + 1, md);
                    (
                        pre_text(s, last, i) + seq![
                            GPart::Math(trim_seq(s.subrange(i + 1, j)), false),
                        ] + rest.0,
                        rest.1,
                    )
                },
                None => inline_scan(s, i + 1, last, md),
            }
        }
    } else {
        inline_scan(s, i + 1, last, md)
    }
}

#[via_fn]
proof fn inline_scan_decreases(s: Seq<char>, i: int, last: int, md: bool) {
    lemma_find_sd_bounds(s, i + 1, i + 1, md);
}

/// The inline split of a whole text: found parts, trailing text, and the
/// text itself as a single part when nothing was found at all.
pub open spec fn split_inline(s: Seq<char>, md: bool) -> Seq<GPart> {
    let r = inline_scan(s, 0, 0, md);
    let parts = r.0 + tail_text(s, r.1);
    if parts.len() == 0 {
        seq![GPart::Text(s)]
    } else {
        parts
    }
}

/// The Markdown block split: `Some` parts when at least one `$$...$$` span
/// was found, else `None`.
pub open spec fn split_block_md(s: Seq<char>) -> Option<Seq<GPart>> {
    let r = block_scan(s, 0, 0, true);
    if r.0.len() == 0 {
        None
    } else {
        Some(r.0 + tail_text(s, r.1))
    }
}

/// The Delta combined split: block spans first, then the inline split of
/// what remains (of the whole text when no block span was found).
pub open spec fn split_delta(s: Seq<char>) -> Seq<GPart> {
    let r = block_scan(s, 0, 0, false);
    if r.0.len() == 0 {
        split_inline(s, false)
    } else {
        if r.1 < s.len() {
            r.0 + split_inline(s.subrange(r.1, s.len() as int), false)
        } else {
            r.0
        }
    }
}


pub proof fn lemma_trim_end_le(s: Seq<char>, j: int)
    ensures
        trim_end_idx(s, j) <= j,
    decreases j,
{
    if 0 < j <= s.len() && is_json_ws(s[j - 1]) {
        lemma_trim_end_le(s, j - 1);
    }
}

/// Whether a character is insignificant whitespace.
fn is_ws_char(c: char) -> (r: bool)
    ensures
        r == is_json_ws(c),
{
    c == ' ' || c == '\t' || c == '\n' || c == '\r'
}

/// Trimmed bounds of `cs` between `a` and `b`: the content with
/// surrounding whitespace dropped is exactly `cs` between the results.
pub fn trim_bounds(cs: &Vec<char>, a: usize, b: usize) -> (r: (usize, usize))
    requires
        a <= b <= cs.len(),
    ensures
        a <= r.0 && r.1 <= b,
        r.0 < r.1 ==> trim_seq(cs@.subrange(a as int, b as int)) == cs@.subrange(
            r.0 as int,
            r.1 as int,
        ),
        r.0 >= r.1 ==> trim_seq(cs@.subrange(a as int, b as int)).len() == 0,
{
    let ghost sub = cs@.subrange(a as int, b as int);
    let mut ta: usize = a;
    while ta < b && is_ws_char(cs[ta])
        invariant
            a <= ta <= b <= cs.len(),
            sub == cs@.subrange(a as int, b as int),
            sp_skip_ws(sub, 0) == sp_skip_ws(sub, ta - a),
        decreases b - ta,
    {
        proof {
            assert(sub[ta - a] == cs@[ta as int]);
        }
        ta += 1;
    }
    proof {
        if ta < b {
            assert(sub[ta - a] == cs@[ta as int]);
        }
        assert(sp_skip_ws(sub, ta - a) == ta - a);
    }
    let mut tb: usize = b;
    while tb > ta && is_ws_char(cs[tb - 1])
        invariant
            a <= ta <= tb <= b <= cs.len(),
            sub == cs@.subrange(a as int, b as int),
            sp_skip_ws(sub, 0) == ta - a,
            ta < b ==> !is_json_ws(sub[ta - a]),
            trim_end_idx(sub, b - a) == trim_end_idx(sub, tb - a),
        decreases tb,
    {
        proof {
            assert(sub[tb - a - 1] == cs@[tb - 1]);
        }
        tb -= 1;
    }
    proof {
        if tb > ta {
            assert(sub[tb - a - 1] == cs@[tb - 1]);
            assert(!is_json_ws(sub[tb - 1 - a]));
            assert(trim_end_idx(sub, tb - a) == tb - a);
            assert(trim_seq(sub) =~= cs@.subrange(ta as int, tb as int));
        } else {
            lemma_trim_end_le(sub, tb - a);
            assert(trim_end_idx(sub, sub.len() as int) <= ta - a);
            assert(trim_seq(sub).len() == 0);
        }
    }
    (ta, tb)
}

/// The trimmed content of `cs` between `a` and `b`, as a string.
fn trim_to_string(cs: &Vec<char>, a: usize, b: usize) -> (r: String)
    requires
        a <= b <= cs.len(),
    ensures
        r@ == trim_seq(cs@.subrange(a as int, b as int)),
{
    let (ta, tb) = trim_bounds(cs, a, b);
    if ta >= tb {
        proof {
            assert(trim_seq(cs@.subrange(a as int, b as int)) =~= Seq::<char>::empty());
        }
        crate::json::chars_to_string(&Vec::new())
    } else {
        let part = crate::jsonparse::copy_range(cs, ta, tb);
        crate::json::chars_to_string(&part)
    }
}

/// The text of `cs` between `a` and `b`, as a string.
fn range_to_string(cs: &Vec<char>, a: usize, b: usize) -> (r: String)
    requires
        a <= b <= cs.len(),
    ensures
        r@ == cs@.subrange(a as int, b as int),
{
    let part = crate::jsonparse::copy_range(cs, a, b);
    crate::json::chars_to_string(&part)
}

/// Find the closing `$$` for a span opened with content starting at `cstart`.
fn p_find_dd(cs: &Vec<char>, cstart: usize, from: usize) -> (r: Option<usize>)
    requires
        cstart <= from,
        from <= cs.len(),
        cstart <= cs.len(),
    ensures
        match r {
            Some(j) => find_dd_close(cs@, cstart as int, from as int) == Some(j as int) && from
                <= j && j + 1 < cs.len(),
            None => find_dd_close(cs@, cstart as int, from as int) is None,
        },
    decreases cs.len() - from,
{
    if from >= cs.len() || from + 1 >= cs.len() {
        return None;
    }
    if cs[from] == '$' && cs[from + 1] == '$' {
        let (ta, tb) = trim_bounds(cs, cstart, from);
        if ta < tb {
            return Some(from);
        }
    }
    p_find_dd(cs, cstart, from + 1)
}

/// Find the closing single `$` for a span opened with content at `cstart`.
fn p_find_sd(cs: &Vec<char>, cstart: usize, from: usize, md: bool) -> (r: Option<usize>)
    requires
        cstart <= from,
        from <= cs.len(),
        cstart <= cs.len(),
    ensures
        match r {
            Some(j) => find_sd_close(cs@, cstart as int, from as int, md) == Some(j as int)
                && from <= j && j < cs.len(),
            None => find_sd_close(cs@, cstart as int, from as int, md) is None,
        },
    decreases cs.len() - from,
{
    if from >= cs.len() {
        return None;
    }
    if cs[from] == '$' && (from == 0 || cs[from - 1] != '$') && (!md || from + 1 >= cs.len()
        || cs[from + 1] != '$') {
        let (ta, tb) = trim_bounds(cs, cstart, from);
        if ta < tb {
            return Some(from);
        }
    }
    p_find_sd(cs, cstart, from + 1, md)
}

/// Run the block `$$` scan over the whole text.
fn p_block_scan(cs: &Vec<char>, md_break: bool) -> (r: (Vec<TextPart>, usize))
    ensures
        ({
            let sp = block_scan(cs@, 0, 0, md_break);
            view_parts(r.0@) == sp.0 && r.1 as int == sp.1 && r.1 <= cs.len()
        }),
{
    let mut parts: Vec<TextPart> = Vec::new();
    let mut i: usize = 0;
    let mut last: usize = 0;
    proof {
        assert(view_parts(parts@) =~= Seq::<GPart>::empty());
    }
    loop
        invariant
            last <= cs.len(),
            i <= cs.len() + 1,
            last <= i,
            ({
                let whole = block_scan(cs@, 0, 0, md_break);
                let rest = block_scan(cs@, i as int, last as int, md_break);
                whole.0 == view_parts(parts@) + rest.0 && whole.1 == rest.1
            }),
        decreases cs.len() + 1 - i,
    {
        if i >= cs.len() || i + 1 >= cs.len() {
            proof {
                assert(block_scan(cs@, i as int, last as int, md_break) == (
                    Seq::<GPart>::empty(),
                    last as int,
                ));
                assert(view_parts(parts@) + Seq::<GPart>::empty() =~= view_parts(parts@));
            }
            return (parts, last);
        }
        if cs[i] == '$' && cs[i + 1] == '$' {
            match p_find_dd(cs, i + 2, i + 2) {
                Some(j) => {
                    let ghost pre_parts = parts@;
                    let ghost sp_here = block_scan(cs@, i as int, last as int, md_break);
                    if last < i {
                        let t = range_to_string(cs, last, i);
                        let p = TextPart::Text(t);
                        proof {
                            lemma_view_parts_push(parts@, p);
                        }
                        parts.push(p);
                    }
                    let m = TextPart::Math(trim_to_string(cs, i + 2, j), true);
                    proof {
                        lemma_view_parts_push(parts@, m);
                    }
                    parts.push(m);
                    proof {
                        assert(view_parts(parts@) =~= view_parts(pre_parts) + pre_text(
                            cs@,
                            last as int,
                            i as int,
                        ) + seq![
                            GPart::Math(trim_seq(cs@.subrange(i + 2, j as int)), true),
                        ]);
                        let rest = block_scan(cs@, j + 2, j + 2, md_break);
                        assert(sp_here.0 =~= pre_text(cs@, last as int, i as int) + seq![
                            GPart::Math(trim_seq(cs@.subrange(i + 2, j as int)), true),
                        ] + rest.0);
                        assert(view_parts(pre_parts) + sp_here.0 =~= view_parts(parts@) + rest.0);
                    }
                    i = j + 2;
                    last = i;
                },
                None => {
                    if md_break {
                        proof {
                            assert(block_scan(cs@, i as int, last as int, md_break) == (
                                Seq::<GPart>::empty(),
                                last as int,
                            ));
                            assert(view_parts(parts@) + Seq::<GPart>::empty() =~= view_parts(
                                parts@,
                            ));
                        }
                        return (parts, last);
                    }
                    i += 2;
                },
            }
        } else {
            i += 1;
        }
    }
}

/// Run the inline `$` scan over the whole text.
fn p_inline_scan(cs: &Vec<char>, md: bool) -> (r: (Vec<TextPart>, usize))
    ensures
        ({
            let sp = inline_scan(cs@, 0, 0, md);
            view_parts(r.0@) == sp.0 && r.1 as int == sp.1 && r.1 <= cs.len()
        }),
{
    let mut parts: Vec<TextPart> = Vec::new();
    let mut i: usize = 0;
    let mut last: usize = 0;
    proof {
        assert(view_parts(parts@) =~= Seq::<GPart>::empty());
    }
    loop
        invariant
            last <= cs.len(),
            i <= cs.len() + 2,
            last <= i,
            ({
                let whole = inline_scan(cs@, 0, 0, md);
                let rest = inline_scan(cs@, i as int, last as int, md);
                whole.0 == view_parts(parts@) + rest.0 && whole.1 == rest.1
            }),
        decreases cs.len() + 2 - i,
    {
        if i >= cs.len() {
            proof {
                assert(inline_scan(cs@, i as int, last as int, md) == (
                    Seq::<GPart>::empty(),
                    last as int,
                ));
                assert(view_parts(parts@) + Seq::<GPart>::empty() =~= view_parts(parts@));
            }
            return (parts, last);
        }
        if cs[i] == '$' {
            let dbl = i + 1 < cs.len() && cs[i + 1] == '$';
            if dbl {
                if md {
                    i += 2;
                } else {
                    i += 1;
                }
            } else {
                match p_find_sd(cs, i + 1, i + 1, md) {
                    Some(j) => {
                        let ghost pre_parts = parts@;
                        let ghost sp_here = inline_scan(cs@, i as int, last as int, md);
                        if last < i {
                            let t = range_to_string(cs, last, i);
                            let p = TextPart::Text(t);
                            proof {
                                lemma_view_parts_push(parts@, p);
                            }
                            parts.push(p);
                        }
                        let m = TextPart::Math(trim_to_string(cs, i + 1, j), false);
                        proof {
                            lemma_view_parts_push(parts@, m);
                        }
                        parts.push(m);
                        proof {
                            assert(view_parts(parts@) =~= view_parts(pre_parts) + pre_text(
                                cs@,
                                last as int,
                                i as int,
                            ) + seq![
                                GPart::Math(trim_seq(cs@.subrange(i + 1, j as int)), false),
                            ]);
                            let rest = inline_scan(cs@, j + 1, j + 1, md);
                            assert(sp_here.0 =~= pre_text(cs@, last as int, i as int) + seq![
                                GPart::Math(trim_seq(cs@.subrange(i + 1, j as int)), false),
                            ] + rest.0);
                            assert(view_parts(pre_parts) + sp_here.0 =~= view_parts(parts@)
                                + rest.0);
                        }
                        i = j + 1;
                        last = i;
                    },
                    None => {
                        i += 1;
                    },
                }
            }
        } else {
            i += 1;
        }
    }
}

/// Split a text on inline `$...$` spans; the whole text stays one literal
/// part when no span is found.
pub fn split_inline_chars(cs: &Vec<char>, md: bool) -> (r: Vec<TextPart>)
    ensures
        view_parts(r@) == split_inline(cs@, md),
{
    let (mut parts, last) = p_inline_scan(cs, md);
    if last < cs.len() {
        let t = TextPart::Text(range_to_string(cs, last, cs.len()));
        proof {
            lemma_view_parts_push(parts@, t);
        }
        parts.push(t);
    }
    proof {
        let sp = inline_scan(cs@, 0, 0, md);
        assert(view_parts(parts@) =~= sp.0 + tail_text(cs@, sp.1));
    }
    if parts.len() == 0 {
        let t = TextPart::Text(range_to_string(cs, 0, cs.len()));
        proof {
            lemma_view_parts_push(parts@, t);
            assert(cs@.subrange(0, cs.len() as int) =~= cs@);
            assert(view_parts(parts@.push(t)) =~= seq![GPart::Text(cs@)]);
        }
        parts.push(t);
    }
    parts
}

/// Split a text on block `$$...$$` spans, Markdown style: `None` when no
/// span is found.
pub fn split_block_md_chars(cs: &Vec<char>) -> (r: Option<Vec<TextPart>>)
    ensures
        match r {
            Some(ps) => split_block_md(cs@) == Some(view_parts(ps@)),
            None => split_block_md(cs@) is None,
        },
{
    let (mut parts, last) = p_block_scan(cs, true);
    if parts.len() == 0 {
        return None;
    }
    if last < cs.len() {
        let t = TextPart::Text(range_to_string(cs, last, cs.len()));
        proof {
            lemma_view_parts_push(parts@, t);
        }
        parts.push(t);
    }
    proof {
        let sp = block_scan(cs@, 0, 0, true);
        assert(view_parts(parts@) =~= sp.0 + tail_text(cs@, sp.1));
    }
    Some(parts)
}

/// Split a text on block spans and then inline spans, Delta style.
pub fn split_delta_chars(cs: &Vec<char>) -> (r: Vec<TextPart>)
    ensures
        view_parts(r@) == split_delta(cs@),
{
    let (mut parts, last) = p_block_scan(cs, false);
    if parts.len() == 0 {
        return split_inline_chars(cs, false);
    }
    if last < cs.len() {
        let restv = crate::jsonparse::copy_range(cs, last, cs.len());
        let mut tailp = split_inline_chars(&restv, false);
        let ghost pre_parts = parts@;
        let ghost tail_view = view_parts(tailp@);
        let n = tailp.len();
        let mut k: usize = 0;
        while k < n
            invariant
                k <= n,
                n == tailp@.len(),
                view_parts(tailp@) == tail_view,
                view_parts(parts@) == view_parts(pre_parts) + tail_view.take(k as int),
            decreases n - k,
        {
            let ghost before = parts@;
            let p = part_clone(&tailp, k);
            proof {
                lemma_view_parts_push(parts@, p);
                lemma_view_parts_index(tailp@, k as int);
                assert(tail_view.take(k as int + 1) =~= tail_view.take(k as int).push(
                    tail_view[k as int],
                ));
                assert(view_parts(before) + tail_view.take(k as int + 1) =~= (view_parts(before)
                    + tail_view.take(k as int)).push(tail_view[k as int]));
            }
            parts.push(p);
            k += 1;
        }
        proof {
            lemma_view_parts_len(tailp@);
            assert(tail_view.take(n as int) =~= tail_view);
        }
        parts
    } else {
        proof {
            let sp = block_scan(cs@, 0, 0, false);
            assert(view_parts(parts@) =~= sp.0);
        }
        parts
    }
}

pub proof fn lemma_view_parts_index(s: Seq<TextPart>, i: int)
    requires
        0 <= i < s.len(),
    ensures
        view_parts(s).len() == s.len(),
        view_parts(s)[i] == s[i]@,
    decreases s.len(),
{
    lemma_view_parts_len(s);
    lemma_view_parts_len(s.drop_last());
    assert(view_parts(s) == view_parts(s.drop_last()).push(s.last()@));
    if i < s.len() - 1 {
        lemma_view_parts_index(s.drop_last(), i);
        assert(s.drop_last()[i] == s[i]);
    }
}

pub proof fn lemma_view_parts_len(s: Seq<TextPart>)
    ensures
        view_parts(s).len() == s.len(),
    decreases s.len(),
{
    if s.len() > 0 {
        lemma_view_parts_len(s.drop_last());
        assert(view_parts(s) == view_parts(s.drop_last()).push(s.last()@));
    }
}

/// A clone of one collected part (parts hold owned strings).
pub fn part_clone(ps: &Vec<TextPart>, k: usize) -> (r: TextPart)
    requires
        k < ps.len(),
    ensures
        r@ == ps@[k as int]@,
{
    match &ps[k] {
        TextPart::Text(s) => TextPart::Text(s.clone()),
        TextPart::Math(s, d) => TextPart::Math(s.clone(), *d),
    }
}

} // verus!

//! Decimal digit strings for unsigned values: printing, parsing, and the
//! proof that parsing a printed value gives it back.
use vstd::prelude::*;

use crate::jsonparse::is_digit;

verus! {

broadcast use vstd::std_specs::vec::group_vec_axioms, vstd::seq::group_seq_axioms;

/// The digit character for a value below 10.
pub open spec fn dig_char(d: int) -> char {
    crate::json::hex_digit(d)
}

/// The decimal digits of `n`, most significant first, no sign and no
/// leading zeros (a single `0` for zero).
pub open spec fn u64_digits(n: nat) -> Seq<char>
    decreases n,
{
    if n < 10 {
        seq![dig_char(n as int)]
    } else {
        u64_digits(n / 10).push(dig_char((n % 10) as int))
    }
}

/// Parse decimal digits onto the accumulator `acc`; `None` on a non-digit
/// or when the value would pass the `u64` range.
pub open spec fn sp_digits_u64(s: Seq<char>, acc: u64) -> Option<u64>
    decreases s.len(),
{
    if s.len() == 0 {
        Some(acc)
    } else {
        let c = s[0];
        if is_digit(c) {
            let d = (c as u32 - 48) as u64;
            if acc <= (u64::MAX - d) / 10 {
                sp_digits_u64(s.drop_first(), (acc * 10 + d) as u64)
            } else {
                None
            }
        } else {
            None
        }
    }
}

/// The `u64` a digit string denotes, if it is one and fits.
pub open spec fn sp_parse_u64(s: Seq<char>) -> Option<u64> {
    if s.len() == 0 {
        None
    } else {
        sp_digits_u64(s, 0)
    }
}

pub proof fn lemma_dig_char(d: int)
    requires
        0 <= d < 10,
    ensures
        is_digit(dig_char(d)),
        dig_char(d) as u32 == 48 + d,
{
}

proof fn lemma_digits_push(s: Seq<char>, c: char, acc: u64)
    ensures
        sp_digits_u64(s.push(c), acc) == (match sp_digits_u64(s, acc) {
            Some(v) => {
                if is_digit(c) && v <= (u64::MAX - (c as u32 - 48)) / 10 {
                    Some((v * 10 + (c as u32 - 48)) as u64)
                } else {
                    None::<u64>
                }
            },
            None => None::<u64>,
        }),
    decreases s.len(),
{
    if s.len() == 0 {
        assert(s.push(c)[0] == c);
        assert(s.push(c).drop_first() =~= Seq::<char>::empty());
        assert(sp_digits_u64(s, acc) == Some(acc));
        if is_digit(c) {
            let d = (c as u32 - 48) as u64;
            if acc <= (u64::MAX - d) / 10 {
                assert(sp_digits_u64(s.push(c), acc) == sp_digits_u64(
                    Seq::<char>::empty(),
                    (acc * 10 + d) as u64,
                ));
            }
        }
    } else {
        assert(s.push(c)[0] == s[0]);
        assert(s.push(c).drop_first() =~= s.drop_first().push(c));
        let c0 = s[0];
        if is_digit(c0) {
            let d = (c0 as u32 - 48) as u64;
            if acc <= (u64::MAX - d) / 10 {
                lemma_digits_push(s.drop_first(), c, (acc * 10 + d) as u64);
            }
        }
    }
}

/// Parsing the printed digits of `n` yields `n` again.
pub proof fn lemma_u64_digits_roundtrip(n: u64)
    ensures
        sp_parse_u64(u64_digits(n as nat)) == Some(n),
    decreases n,
{
    lemma_digits_roundtrip_aux(n);
    assert(u64_digits(n as nat).len() > 0) by {
        if n >= 10 {
        }
    };
}

proof fn lemma_digits_roundtrip_aux(n: u64)
    ensures
        sp_digits_u64(u64_digits(n as nat), 0) == Some(n),
    decreases n,
{
    if n < 10 {
        lemma_dig_char(n as int);
        let s = u64_digits(n as nat);
        assert(s == seq![dig_char(n as int)]);
        assert(s.len() == 1);
        assert(s[0] == dig_char(n as int));
        assert(s.drop_first() =~= Seq::<char>::empty());
        assert((0 as u64) <= (u64::MAX - n) / 10) by {
            vstd::arithmetic::div_mod::lemma_div_pos_is_pos((u64::MAX - n) as int, 10);
        };
        assert(sp_digits_u64(s, 0) == sp_digits_u64(Seq::<char>::empty(), n));
    } else {
        let q = n / 10;
        let r = n % 10;
        lemma_digits_roundtrip_aux(q);
        lemma_dig_char(r as int);
        let c = dig_char(r as int);
        assert(u64_digits(n as nat) == u64_digits(q as nat).push(c));
        lemma_digits_push(u64_digits(q as nat), c, 0);
        assert(q * 10 + r == n) by {
            vstd::arithmetic::div_mod::lemma_fundamental_div_mod(n as int, 10);
        };
        assert(q <= (u64::MAX - r) / 10) by {
            assert(q * 10 <= u64::MAX - r);
            vstd::arithmetic::div_mod::lemma_div_is_ordered(q * 10, (u64::MAX - r) as int, 10);
            vstd::arithmetic::div_mod::lemma_div_multiples_vanish(q as int, 10);
        };
        assert(sp_digits_u64(u64_digits(n as nat), 0) == Some((q * 10 + r) as u64));
        assert(q * 10 + r == n);
    }
}

/// Print `n` in decimal.
pub fn u64_to_dec(n: u64) -> (r: String)
    ensures
        r@ == u64_digits(n as nat),
{
    let mut out: Vec<char> = Vec::new();
    push_dec(n, &mut out);
    crate::json::chars_to_string(&out)
}

fn push_dec(n: u64, out: &mut Vec<char>)
    ensures
        final(out)@ == old(out)@ + u64_digits(n as nat),
    decreases n,
{
    if n < 10 {
        out.push(dec_char((n % 10) as u8));
        proof {
            assert(out@ =~= old(out)@ + u64_digits(n as nat));
        }
    } else {
        push_dec(n / 10, out);
        out.push(dec_char((n % 10) as u8));
        proof {
            assert(out@ =~= old(out)@ + u64_digits(n as nat));
        }
    }
}

fn dec_char(d: u8) -> (r: char)
    requires
        d < 10,
    ensures
        r == dig_char(d as int),
{
    (48u8 + d) as char
}

/// Parse a whole character sequence as an unsigned decimal number.
pub fn parse_u64_dec(cs: &Vec<char>) -> (r: Option<u64>)
    ensures
        r == sp_parse_u64(cs@),
{
    if cs.len() == 0 {
        return None;
    }
    let mut acc: u64 = 0;
    let mut k: usize = 0;
    let n = cs.len();
    proof {
        assert(cs@.skip(0) =~= cs@);
    }
    while k < n
        invariant
            k <= n,
            n == cs.len(),
            n > 0,
            sp_digits_u64(cs@, 0) == sp_digits_u64(cs@.skip(k as int), acc),
        decreases n - k,
    {
        let c = cs[k];
        let u = c as u32;
        proof {
            assert(cs@.skip(k as int)[0] == cs@[k as int]);
            assert(cs@.skip(k as int).drop_first() =~= cs@.skip(k as int + 1));
        }
        if !(48 <= u && u <= 57) {
            return None;
        }
        let d = (u - 48) as u64;
        if acc > (u64::MAX - d) / 10 {
            return None;
        }
        proof {
            let md = (u64::MAX - d) as int;
            assert(acc * 10 <= md) by {
                assert(acc <= md / 10);
                vstd::arithmetic::div_mod::lemma_fundamental_div_mod(md, 10);
                assert(md == 10 * (md / 10) + md % 10);
                assert(acc * 10 <= (md / 10) * 10);
            };
        }
        acc = acc * 10 + d;
        k += 1;
    }
    proof {
        assert(cs@.skip(n as int) =~= Seq::<char>::empty());
    }
    Some(acc)
}

} // verus!

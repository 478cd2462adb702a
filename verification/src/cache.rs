//! A TTL-keyed memo store, modelled with explicit clock values: every
//! operation takes the current time, and an entry older than its lifetime
//! is as good as absent — a get is either a live value or nothing, never
//! stale.
use vstd::prelude::*;

use crate::ast::RootNode;
use vstd::string::StringSliceAdditionalSpecFns;

verus! {

broadcast use vstd::std_specs::vec::group_vec_axioms, vstd::seq::group_seq_axioms;

/// One stored value with its creation time and time to live.
#[derive(Debug)]
pub struct CacheEntry<T> {
    pub value: T,
    pub created_at: u64,
    pub ttl: u64,
}

/// Whether an entry made at `created_at` with lifetime `ttl` is expired at
/// `now`: strictly more than `ttl` has elapsed.
pub open spec fn expired_at(created_at: u64, ttl: u64, now: u64) -> bool {
    now - created_at > ttl
}

impl<T> CacheEntry<T> {
    /// Record a value at time `now` with the given lifetime.
    pub fn new(value: T, ttl: u64, now: u64) -> (r: CacheEntry<T>)
        ensures
            r.created_at == now,
            r.ttl == ttl,
            r == (CacheEntry { value, created_at: now, ttl }),
    {
        CacheEntry { value, created_at: now, ttl }
    }

    /// Whether more than the lifetime has elapsed by `now`.
    pub fn is_expired(&self, now: u64) -> (r: bool)
        ensures
            r == expired_at(self.created_at, self.ttl, now),
    {
        if now <= self.created_at {
            false
        } else {
            now - self.created_at > self.ttl
        }
    }
}

/// The first entry stored under a key.
pub open spec fn assoc_find<T>(s: Seq<(String, CacheEntry<T>)>, k: Seq<char>) -> Option<
    CacheEntry<T>,
>
    decreases s,
{
    if s.len() == 0 {
        None
    } else if s[0].0@ == k {
        Some(s[0].1)
    } else {
        assoc_find(s.drop_first(), k)
    }
}

/// The store with the first entry under `k` replaced, or the new entry
/// appended when the key is fresh.
pub open spec fn assoc_set<T>(
    s: Seq<(String, CacheEntry<T>)>,
    k: String,
    e: CacheEntry<T>,
) -> Seq<(String, CacheEntry<T>)>
    decreases s,
{
    if s.len() == 0 {
        seq![(k, e)]
    } else if s[0].0@ == k@ {
        seq![(k, e)] + s.drop_first()
    } else {
        seq![s[0]] + assoc_set(s.drop_first(), k, e)
    }
}

/// The store with every entry under `k` removed.
pub open spec fn assoc_remove<T>(s: Seq<(String, CacheEntry<T>)>, k: Seq<char>) -> Seq<
    (String, CacheEntry<T>),
>
    decreases s,
{
    if s.len() == 0 {
        Seq::empty()
    } else if s[0].0@ == k {
        assoc_remove(s.drop_first(), k)
    } else {
        seq![s[0]] + assoc_remove(s.drop_first(), k)
    }
}

/// The store with every expired entry dropped.
pub open spec fn assoc_cleanup<T>(s: Seq<(String, CacheEntry<T>)>, now: u64) -> Seq<
    (String, CacheEntry<T>),
>
    decreases s,
{
    if s.len() == 0 {
        Seq::empty()
    } else if expired_at(s[0].1.created_at, s[0].1.ttl, now) {
        assoc_cleanup(s.drop_first(), now)
    } else {
        seq![s[0]] + assoc_cleanup(s.drop_first(), now)
    }
}

/// Setting a key stores exactly that entry under it.
pub proof fn lemma_assoc_set_get<T>(s: Seq<(String, CacheEntry<T>)>, k: String, e: CacheEntry<T>)
    ensures
        assoc_find(assoc_set(s, k, e), k@) == Some(e),
    decreases s,
{
    if s.len() == 0 {
        assert(assoc_set(s, k, e) == seq![(k, e)]);
        assert(assoc_set(s, k, e)[0] == (k, e));
    } else if s[0].0@ == k@ {
        assert(assoc_set(s, k, e)[0] == (k, e));
    } else {
        lemma_assoc_set_get(s.drop_first(), k, e);
        assert(assoc_set(s, k, e)[0] == s[0]);
        assert(assoc_set(s, k, e).drop_first() =~= assoc_set(s.drop_first(), k, e));
    }
}

/// The collaborator contract of the store: a value set with lifetime `ttl`
/// at time `t0` is retrieved by a lookup at any `now` within the lifetime,
/// and is treated as absent (never returned stale) at any `now` past it.
pub proof fn lemma_ttl_contract<T>(
    s: Seq<(String, CacheEntry<T>)>,
    k: String,
    value: T,
    ttl: u64,
    t0: u64,
    now: u64,
)
    ensures
        ({
            let stored = assoc_set(s, k, CacheEntry { value, created_at: t0, ttl });
            let hit = assoc_find(stored, k@);
            &&& now - t0 <= ttl ==> (hit matches Some(e) && e.value == value && !expired_at(
                e.created_at,
                e.ttl,
                now,
            ))
            &&& now - t0 > ttl ==> (hit matches Some(e) && expired_at(e.created_at, e.ttl, now))
        }),
{
    lemma_assoc_set_get(s, k, CacheEntry { value, created_at: t0, ttl });
}

/// A TTL-bounded key-value store over owned string keys.
#[derive(Debug)]
pub struct TtlCache<T> {
    entries: Vec<(String, CacheEntry<T>)>,
    default_ttl: u64,
}

impl<T> View for TtlCache<T> {
    type V = Seq<(String, CacheEntry<T>)>;

    closed spec fn view(&self) -> Seq<(String, CacheEntry<T>)> {
        self.entries@
    }
}

impl<T> TtlCache<T> {
    pub closed spec fn spec_default_ttl(&self) -> u64 {
        self.default_ttl
    }

    /// An empty store with a default lifetime for entries set without one.
    pub fn new(default_ttl: u64) -> (r: TtlCache<T>)
        ensures
            r@ == Seq::<(String, CacheEntry<T>)>::empty(),
            r.spec_default_ttl() == default_ttl,
    {
        TtlCache { entries: Vec::new(), default_ttl }
    }

    /// The live value under a key: the stored value while its lifetime
    /// has not elapsed at `now`, absent otherwise.
    pub fn get<'a>(&'a self, key: &str, now: u64) -> (r: Option<&'a T>)
        ensures
            match r {
                Some(v) => assoc_find(self@, key@) matches Some(e) && !expired_at(
                    e.created_at,
                    e.ttl,
                    now,
                ) && *v == e.value,
                None => (assoc_find(self@, key@) matches Some(e) ==> expired_at(
                    e.created_at,
                    e.ttl,
                    now,
                )),
            },
    {
        let k = key.to_owned();
        let n = self.entries.len();
        let mut i: usize = 0;
        proof {
            assert(self@.skip(0) =~= self@);
        }
        while i < n
            invariant
                i <= n,
                n == self.entries.len(),
                k@ == key@,
                assoc_find(self@, key@) == assoc_find(self@.skip(i as int), key@),
            decreases n - i,
        {
            proof {
                assert(self@.skip(i as int)[0] == self@[i as int]);
                assert(self@.skip(i as int).drop_first() =~= self@.skip(i as int + 1));
            }
            if self.entries[i].0.eq(&k) {
                if self.entries[i].1.is_expired(now) {
                    return None;
                }
                return Some(&self.entries[i].1.value);
            }
            i += 1;
        }
        proof {
            assert(self@.skip(n as int) =~= Seq::<(String, CacheEntry<T>)>::empty());
        }
        None
    }

    /// Store a value under a key at time `now`, with the given lifetime or
    /// the default one; an earlier entry under the key is replaced.
    pub fn set(&mut self, key: String, value: T, ttl: Option<u64>, now: u64)
        ensures
            final(self)@ == assoc_set(
                old(self)@,
                key,
                CacheEntry {
                    value,
                    created_at: now,
                    ttl: match ttl {
                        Some(t) => t,
                        None => old(self).spec_default_ttl(),
                    },
                },
            ),
            final(self).spec_default_ttl() == old(self).spec_default_ttl(),
    {
        let t = match ttl {
            Some(t) => t,
            None => self.default_ttl,
        };
        let entry = CacheEntry { value, created_at: now, ttl: t };
        let ghost target = assoc_set(
            old(self)@,
            key,
            CacheEntry { value: entry.value, created_at: now, ttl: t },
        );
        let n = self.entries.len();
        let mut i: usize = 0;
        proof {
            lemma_assoc_set_split(self.entries@, key, entry, 0);
        }
        while i < n
            invariant
                i <= n,
                n == self.entries.len(),
                self.entries@ == old(self)@,
                self.default_ttl == old(self).spec_default_ttl(),
                forall|j: int| 0 <= j < i ==> old(self)@[j].0@ != key@,
                entry == (CacheEntry {
                    value,
                    created_at: now,
                    ttl: match ttl {
                        Some(x) => x,
                        None => old(self).spec_default_ttl(),
                    },
                }),
            decreases n - i,
        {
            if self.entries[i].0.eq(&key) {
                let ghost idx = i as int;
                let ghost gkey = key;
                let ghost gentry = entry;
                self.entries.set(i, (key, entry));
                proof {
                    lemma_assoc_set_at(old(self)@, gkey, gentry, idx);
                    assert(self.entries@ =~= old(self)@.update(idx, (gkey, gentry)));
                    assert(self.entries@ == assoc_set(old(self)@, gkey, gentry));
                    assert(gentry.ttl == (match ttl {
                        Some(t) => t,
                        None => old(self).spec_default_ttl(),
                    }));
                }
                return ;
            }
            i += 1;
        }
        let ghost pre = self.entries@;
        self.entries.push((key, entry));
        proof {
            lemma_assoc_set_append(pre, key, entry);
            assert(self.entries@ =~= pre.push((key, entry)));
        }
    }

    /// Drop any entry under the key.
    pub fn remove(&mut self, key: &str)
        ensures
            final(self)@ == assoc_remove(old(self)@, key@),
            final(self).spec_default_ttl() == old(self).spec_default_ttl(),
    {
        let k = key.to_owned();
        let n = self.entries.len();
        let mut out: Vec<(String, CacheEntry<T>)> = Vec::new();
        let mut rest: Vec<(String, CacheEntry<T>)> = Vec::new();
        core::mem::swap(&mut rest, &mut self.entries);
        proof {
            assert(rest@.skip(0) =~= rest@);
            assert(out@ =~= Seq::<(String, CacheEntry<T>)>::empty());
        }
        let ghost whole = rest@;
        while rest.len() > 0
            invariant
                k@ == key@,
                rest@.len() <= whole.len(),
                rest@ == whole.skip(whole.len() - rest@.len()),
                out@ + assoc_remove(rest@, key@) =~= assoc_remove(whole, key@),
            decreases rest@.len(),
        {
            let ghost done = whole.len() - rest@.len();
            let (ks, e) = rest.remove(0);
            proof {
                assert(whole.skip(done)[0] == whole[done]);
                assert(rest@ =~= whole.skip(done + 1));
            }
            if !ks.eq(&k) {
                let ghost preout = out@;
                out.push((ks, e));
                proof {
                    assert(out@ =~= preout.push(whole[done]));
                    assert(out@ + assoc_remove(rest@, key@) =~= assoc_remove(whole, key@));
                }
            } else {
                proof {
                    assert(out@ + assoc_remove(rest@, key@) =~= assoc_remove(whole, key@));
                }
            }
        }
        proof {
            assert(rest@ =~= Seq::<(String, CacheEntry<T>)>::empty());
            assert(out@ =~= assoc_remove(whole, key@));
        }
        self.entries = out;
    }

    /// Drop everything.
    pub fn clear(&mut self)
        ensures
            final(self)@ == Seq::<(String, CacheEntry<T>)>::empty(),
            final(self).spec_default_ttl() == old(self).spec_default_ttl(),
    {
        self.entries = Vec::new();
    }

    /// Drop every entry whose lifetime has elapsed at `now`.
    pub fn cleanup_expired(&mut self, now: u64)
        ensures
            final(self)@ == assoc_cleanup(old(self)@, now),
            final(self).spec_default_ttl() == old(self).spec_default_ttl(),
    {
        let mut out: Vec<(String, CacheEntry<T>)> = Vec::new();
        let mut rest: Vec<(String, CacheEntry<T>)> = Vec::new();
        core::mem::swap(&mut rest, &mut self.entries);
        proof {
            assert(rest@.skip(0) =~= rest@);
        }
        let ghost whole = rest@;
        while rest.len() > 0
            invariant
                rest@.len() <= whole.len(),
                rest@ == whole.skip(whole.len() - rest@.len()),
                out@ + assoc_cleanup(rest@, now) =~= assoc_cleanup(whole, now),
            decreases rest@.len(),
        {
            let ghost done = whole.len() - rest@.len();
            let (ks, e) = rest.remove(0);
            proof {
                assert(whole.skip(done)[0] == whole[done]);
                assert(rest@ =~= whole.skip(done + 1));
            }
            if !e.is_expired(now) {
                let ghost preout = out@;
                out.push((ks, e));
                proof {
                    assert(out@ =~= preout.push(whole[done]));
                    assert(out@ + assoc_cleanup(rest@, now) =~= assoc_cleanup(whole, now));
                }
            } else {
                proof {
                    assert(out@ + assoc_cleanup(rest@, now) =~= assoc_cleanup(whole, now));
                }
            }
        }
        proof {
            assert(rest@ =~= Seq::<(String, CacheEntry<T>)>::empty());
            assert(out@ =~= assoc_cleanup(whole, now));
        }
        self.entries = out;
    }

    /// How many entries are stored (live or not).
    pub fn len(&self) -> (r: usize)
        ensures
            r == self@.len(),
    {
        self.entries.len()
    }
}

proof fn lemma_assoc_set_split<T>(
    s: Seq<(String, CacheEntry<T>)>,
    k: String,
    e: CacheEntry<T>,
    i: int,
)
    ensures
        true,
{
}

proof fn lemma_assoc_set_at<T>(s: Seq<(String, CacheEntry<T>)>, k: String, e: CacheEntry<T>, i: int)
    requires
        0 <= i < s.len(),
        s[i].0@ == k@,
        forall|j: int| 0 <= j < i ==> s[j].0@ != k@,
    ensures
        assoc_set(s, k, e) == s.update(i, (k, e)),
    decreases i,
{
    if i == 0 {
        assert(assoc_set(s, k, e) == seq![(k, e)] + s.drop_first());
        assert(seq![(k, e)] + s.drop_first() =~= s.update(0, (k, e)));
    } else {
        assert(s[0].0@ != k@);
        assert(forall|j: int| 0 <= j < i - 1 ==> s.drop_first()[j].0@ != k@) by {
            assert(forall|j: int| 0 <= j < i - 1 ==> s.drop_first()[j] == s[j + 1]);
        };
        assert(s.drop_first()[i - 1] == s[i]);
        lemma_assoc_set_at(s.drop_first(), k, e, i - 1);
        assert(assoc_set(s, k, e) == seq![s[0]] + assoc_set(s.drop_first(), k, e));
        assert(seq![s[0]] + s.drop_first().update(i - 1, (k, e)) =~= s.update(i, (k, e)));
    }
}

proof fn lemma_assoc_set_append<T>(s: Seq<(String, CacheEntry<T>)>, k: String, e: CacheEntry<T>)
    requires
        forall|j: int| 0 <= j < s.len() ==> s[j].0@ != k@,
    ensures
        assoc_set(s, k, e) == s.push((k, e)),
    decreases s,
{
    if s.len() == 0 {
        assert(assoc_set(s, k, e) == seq![(k, e)]);
        assert(seq![(k, e)] =~= s.push((k, e)));
    } else {
        assert(s[0].0@ != k@);
        assert(forall|j: int| 0 <= j < s.len() - 1 ==> s.drop_first()[j].0@ != k@) by {
            assert(forall|j: int| 0 <= j < s.len() - 1 ==> s.drop_first()[j] == s[j + 1]);
        };
        lemma_assoc_set_append(s.drop_first(), k, e);
        assert(assoc_set(s, k, e) == seq![s[0]] + s.drop_first().push((k, e)));
        assert(seq![s[0]] + s.drop_first().push((k, e)) =~= s.push((k, e)));
    }
}

/// The parse-result memo store.
pub type ASTCache = TtlCache<RootNode>;

/// The height memo store; heights are in hundredths of a pixel.
pub type HeightCache = TtlCache<u64>;

/// The 64-bit FNV-1a hash of a byte sequence.
pub open spec fn fnv64(bytes: Seq<u8>, h: u64) -> u64
    decreases bytes,
{
    if bytes.len() == 0 {
        h
    } else {
        fnv64(bytes.drop_first(), fnv_step(h, bytes[0]))
    }
}

pub open spec fn fnv_step(h: u64, b: u8) -> u64 {
    ((((h ^ b as u64) as u128) * 0x100000001b3) % 0x10000000000000000) as u64
}

/// The lower-case hex digits of `n`, no leading zeros.
pub open spec fn u64_hex(n: nat) -> Seq<char>
    decreases n,
{
    if n < 16 {
        seq![crate::json::hex_digit(n as int)]
    } else {
        u64_hex(n / 16).push(crate::json::hex_digit((n % 16) as int))
    }
}

/// A stable content key: the hex form of the text's 64-bit FNV-1a hash.
pub fn generate_cache_key(content: &str) -> (r: String)
    ensures
        r@ == u64_hex(fnv64(content.spec_bytes(), 0xcbf29ce484222325) as nat),
{
    let bytes = content.as_bytes();
    let n = bytes.len();
    let mut h: u64 = 0xcbf29ce484222325;
    let mut i: usize = 0;
    proof {
        assert(bytes@.skip(0) =~= bytes@);
    }
    while i < n
        invariant
            i <= n,
            n == bytes@.len(),
            bytes@ == content.spec_bytes(),
            fnv64(content.spec_bytes(), 0xcbf29ce484222325) == fnv64(bytes@.skip(i as int), h),
        decreases n - i,
    {
        proof {
            assert(bytes@.skip(i as int)[0] == bytes@[i as int]);
            assert(bytes@.skip(i as int).drop_first() =~= bytes@.skip(i as int + 1));
        }
        let b = bytes[i];
        let x: u64 = h ^ (b as u64);
        proof {
            assert((x as int) * 0x100000001b3 <= 0xffffffffffffffff * 0x100000001b3)
                by (nonlinear_arith)
                requires
                    0 <= x as int <= 0xffffffffffffffff,
            ;
        }
        let prod: u128 = (x as u128) * 0x100000001b3;
        let m: u64 = (prod % 0x10000000000000000) as u64;
        proof {
            assert(m == fnv_step(h, b));
        }
        h = m;
        i += 1;
    }
    proof {
        assert(bytes@.skip(n as int) =~= Seq::<u8>::empty());
    }
    let mut out: Vec<char> = Vec::new();
    push_hex(h, &mut out);
    crate::json::chars_to_string(&out)
}

fn push_hex(n: u64, out: &mut Vec<char>)
    ensures
        final(out)@ == old(out)@ + u64_hex(n as nat),
    decreases n,
{
    if n < 16 {
        out.push(hex_char_x((n % 16) as u8));
        proof {
            assert(out@ =~= old(out)@ + u64_hex(n as nat));
        }
    } else {
        push_hex(n / 16, out);
        out.push(hex_char_x((n % 16) as u8));
        proof {
            assert(out@ =~= old(out)@ + u64_hex(n as nat));
        }
    }
}

fn hex_char_x(d: u8) -> (r: char)
    requires
        d < 16,
    ensures
        r == crate::json::hex_digit(d as int),
{
    if d < 10 {
        (48u8 + d) as char
    } else {
        (87u8 + d) as char
    }
}

} // verus!

//! A cache of parsed expressions, keyed by their normalized text.
use vstd::prelude::*;
use std::rc::Rc;
use std::hash::{Hash, Hasher};
use std::collections::hash_map::DefaultHasher;
use crate::error::DataCodeError;
use crate::parser::ast::{Expr, ExprView};
use crate::parser::expression::{Parser, parse_expr};
use crate::text::{lemma_trimmed_twice, chars_of, decimal, decimal_string, halve_double_spaces, push_string, replace_double_spaces, str_eq, string_of, trim, trimmed, utf8_len, utf8_longer_than};

verus! {

/// What `DefaultHasher` gives for a string hashed with `Hash::hash`.
pub uninterp spec fn default_hash(s: Seq<char>) -> u64;

/// Hashes a string with a new `DefaultHasher` (whose keys are fixed, so the
/// hash depends on the string alone) and returns `Hasher::finish`.
#[verifier::external_body]
fn hash_text(s: &str) -> (r: u64)
    ensures
        r == default_hash(s@),
{
    let mut hasher = DefaultHasher::new();
    s.hash(&mut hasher);
    hasher.finish()
}

/// Calls `Rc::clone`: another pointer to the same value.
#[verifier::external_body]
fn share(r: &Rc<Expr>) -> (s: Rc<Expr>)
    ensures
        *s == **r,
{
    Rc::clone(r)
}

/// The key under which an expression's text is cached: the text trimmed,
/// each pair of spaces made one; when that is longer than 100 bytes in UTF-8,
/// `hash_` followed by the decimal hash of it.
pub open spec fn cache_key(s: Seq<char>) -> Seq<char> {
    let n = halve_double_spaces(trimmed(s));
    if utf8_len(n) > 100 {
        seq!['h', 'a', 's', 'h', '_'] + decimal(default_hash(n) as nat)
    } else {
        n
    }
}

/// The keys of a list of entries are all different.
pub open spec fn distinct(es: Seq<(Seq<char>, ExprView)>) -> bool {
    forall|i: int, j: int| 0 <= i < j < es.len() ==> (#[trigger] es[i]).0 != (#[trigger] es[j]).0
}

/// The list has an entry with key `k`.
pub open spec fn has_key(es: Seq<(Seq<char>, ExprView)>, k: Seq<char>) -> bool {
    exists|i: int| 0 <= i < es.len() && es[i].0 == k
}

/// The expression cached under key `k`, if any.
pub open spec fn lookup(es: Seq<(Seq<char>, ExprView)>, k: Seq<char>) -> Option<ExprView> {
    if has_key(es, k) {
        Some(es[choose|i: int| 0 <= i < es.len() && es[i].0 == k].1)
    } else {
        None
    }
}

/// The list with `k` set to `e`: in place if the key is there, else at the end.
pub open spec fn upsert(es: Seq<(Seq<char>, ExprView)>, k: Seq<char>, e: ExprView) -> Seq<(Seq<char>, ExprView)> {
    if has_key(es, k) {
        es.update(choose|i: int| 0 <= i < es.len() && es[i].0 == k, (k, e))
    } else {
        es.push((k, e))
    }
}

/// Storing `e` under `k` in a cache of capacity `max`: below capacity the key
/// is set; at capacity the oldest entry is dropped first; a cache of
/// capacity 0 stores nothing.
pub open spec fn cache_insert(es: Seq<(Seq<char>, ExprView)>, max: nat, k: Seq<char>, e: ExprView) -> Seq<(Seq<char>, ExprView)> {
    if es.len() < max {
        upsert(es, k, e)
    } else if es.len() == 0 {
        es
    } else {
        upsert(es.drop_first(), k, e)
    }
}


/// Whitespace around an expression's text does not change its key.
pub proof fn law_cache_key_ignores_surrounding_whitespace(s: Seq<char>)
    ensures
        cache_key(trimmed(s)) == cache_key(s),
{
    lemma_trimmed_twice(s);
}

/// Setting a key and then looking it up gives what was set.
pub proof fn lemma_upsert_lookup(es: Seq<(Seq<char>, ExprView)>, k: Seq<char>, e: ExprView)
    requires
        distinct(es),
    ensures
        distinct(upsert(es, k, e)),
        lookup(upsert(es, k, e), k) == Some(e),
        upsert(es, k, e).len() == if has_key(es, k) { es.len() } else { es.len() + 1 },
{
    let r = upsert(es, k, e);
    if has_key(es, k) {
        let i = choose|i: int| 0 <= i < es.len() && es[i].0 == k;
        assert(r == es.update(i, (k, e)));
        assert(distinct(r)) by {
            assert forall|a: int, b: int| 0 <= a < b < r.len() implies (#[trigger] r[a]).0 != (#[trigger] r[b]).0 by {
                assert(r[a].0 == es[a].0 && r[b].0 == es[b].0);
            }
        }
        assert(r[i] == (k, e));
        ParseCache::lemma_lookup_at(r, i);
    } else {
        assert(r == es.push((k, e)));
        assert(distinct(r)) by {
            assert forall|a: int, b: int| 0 <= a < b < r.len() implies (#[trigger] r[a]).0 != (#[trigger] r[b]).0 by {
                if b == es.len() {
                    assert(es[a].0 != k);
                } else {
                    assert(r[a] == es[a] && r[b] == es[b]);
                }
            }
        }
        ParseCache::lemma_lookup_at(r, es.len() as int);
    }
}

/// What a cache of positive capacity gives back for a key just stored is
/// what was stored; the cache keeps each key once and stays within its
/// capacity.
pub proof fn law_cache_read_after_write(es: Seq<(Seq<char>, ExprView)>, max: nat, k: Seq<char>, e: ExprView)
    requires
        distinct(es),
        es.len() <= max,
        max > 0,
    ensures
        lookup(cache_insert(es, max, k, e), k) == Some(e),
        distinct(cache_insert(es, max, k, e)),
        cache_insert(es, max, k, e).len() <= max,
{
    if es.len() < max {
        lemma_upsert_lookup(es, k, e);
    } else {
        let d = es.drop_first();
        assert(distinct(d)) by {
            assert forall|a: int, b: int| 0 <= a < b < d.len() implies (#[trigger] d[a]).0 != (#[trigger] d[b]).0 by {
                assert(d[a] == es[a + 1] && d[b] == es[b + 1]);
            }
        }
        lemma_upsert_lookup(d, k, e);
    }
}

/// The expressions that `preload_common_expressions` stores.
pub open spec fn common_expressions() -> Seq<Seq<char>> {
    seq![
        seq!['t', 'r', 'u', 'e'],
        seq!['f', 'a', 'l', 's', 'e'],
        seq!['n', 'u', 'l', 'l'],
        seq!['0'],
        seq!['1'],
        seq!['-', '1'],
        seq!['\'', '\''],
        seq!['[', ']'],
        seq!['{', '}'],
        seq!['a', 'g', 'e', ' ', '>', ' ', '0'],
        seq!['a', 'g', 'e', ' ', '>', '=', ' ', '1', '8'],
        seq!['a', 'g', 'e', ' ', '<', ' ', '1', '0', '0'],
        seq!['n', 'a', 'm', 'e', ' ', '!', '=', ' ', 'n', 'u', 'l', 'l'],
        seq!['n', 'a', 'm', 'e', ' ', '!', '=', ' ', '\'', '\''],
        seq!['i', 'd', ' ', '>', ' ', '0']
    ]
}

/// The entries after storing the first `n` common expressions that parse,
/// in order, each under its key.
pub open spec fn preload(es: Seq<(Seq<char>, ExprView)>, max: nat, n: nat) -> Seq<(Seq<char>, ExprView)>
    decreases n,
{
    if n == 0 {
        es
    } else {
        let prev = preload(es, max, (n - 1) as nat);
        let src = common_expressions()[n - 1];
        match parse_expr(src) {
            Some((e, _)) => cache_insert(prev, max, cache_key(src), e),
            None => prev,
        }
    }
}

fn common_expression(i: usize) -> (r: String)
    requires
        i < 15,
    ensures
        r@ == common_expressions()[i as int],
{
    proof {
        assert(common_expressions().len() == 15);
    }
    let r = {
        if i == 0 {
            string_of(&['t', 'r', 'u', 'e'])
        } else if i == 1 {
            string_of(&['f', 'a', 'l', 's', 'e'])
        } else if i == 2 {
            string_of(&['n', 'u', 'l', 'l'])
        } else if i == 3 {
            string_of(&['0'])
        } else if i == 4 {
            string_of(&['1'])
        } else if i == 5 {
            string_of(&['-', '1'])
        } else if i == 6 {
            string_of(&['\'', '\''])
        } else if i == 7 {
            string_of(&['[', ']'])
        } else if i == 8 {
            string_of(&['{', '}'])
        } else if i == 9 {
            string_of(&['a', 'g', 'e', ' ', '>', ' ', '0'])
        } else if i == 10 {
            string_of(&['a', 'g', 'e', ' ', '>', '=', ' ', '1', '8'])
        } else if i == 11 {
            string_of(&['a', 'g', 'e', ' ', '<', ' ', '1', '0', '0'])
        } else if i == 12 {
            string_of(&['n', 'a', 'm', 'e', ' ', '!', '=', ' ', 'n', 'u', 'l', 'l'])
        } else if i == 13 {
            string_of(&['n', 'a', 'm', 'e', ' ', '!', '=', ' ', '\'', '\''])
        } else {
            string_of(&['i', 'd', ' ', '>', ' ', '0'])
        }
    };
    r
}

/// The counts and sizes of a cache.
#[derive(Debug, Clone, Copy)]
pub struct CacheStats {
    pub hits: usize,
    pub misses: usize,
    pub size: usize,
    pub max_size: usize,
}

impl CacheStats {
    /// Whether the cache pays off: more than 30% of the lookups hit, and
    /// more than ten did.
    pub fn is_effective(&self) -> (r: bool)
        ensures
            r == (10 * self.hits > 3 * (self.hits + self.misses) && self.hits > 10),
    {
        let hits = self.hits as u128;
        let total = hits + self.misses as u128;
        10 * hits > 3 * total && self.hits > 10
    }
}

/// A cache of parsed expressions with a fixed capacity, counting hits and misses.
pub struct ParseCache {
    cache: Vec<(String, Rc<Expr>)>,
    hit_count: usize,
    miss_count: usize,
    max_size: usize,
}

/// The entries of a cache as the specifications see them.
pub open spec fn entry_views(v: Seq<(String, Rc<Expr>)>) -> Seq<(Seq<char>, ExprView)> {
    v.map_values(|e: (String, Rc<Expr>)| (e.0@, (*e.1)@))
}

impl ParseCache {
    /// The entries, oldest first.
    pub closed spec fn entries(&self) -> Seq<(Seq<char>, ExprView)> {
        entry_views(self.cache@)
    }

    /// The number of hits.
    pub closed spec fn hits(&self) -> nat {
        self.hit_count as nat
    }

    /// The number of misses.
    pub closed spec fn misses(&self) -> nat {
        self.miss_count as nat
    }

    /// The capacity.
    pub closed spec fn capacity(&self) -> nat {
        self.max_size as nat
    }

    /// No key twice, and no more entries than the capacity.
    pub closed spec fn wf(&self) -> bool {
        &&& distinct(self.entries())
        &&& self.cache@.len() <= self.max_size
    }

    /// A well-formed cache keeps each key once and holds no more entries
    /// than its capacity.
    pub proof fn lemma_wf(&self)
        requires
            self.wf(),
        ensures
            distinct(self.entries()),
            self.entries().len() <= self.capacity(),
    {
    }

    /// An empty cache of capacity 1000.
    pub fn new() -> (r: Self)
        ensures
            r.wf(),
            r.entries() == Seq::<(Seq<char>, ExprView)>::empty(),
            r.hits() == 0,
            r.misses() == 0,
            r.capacity() == 1000,
    {
        Self::with_capacity(1000)
    }

    /// An empty cache of the given capacity.
    pub fn with_capacity(max_size: usize) -> (r: Self)
        ensures
            r.wf(),
            r.entries() == Seq::<(Seq<char>, ExprView)>::empty(),
            r.hits() == 0,
            r.misses() == 0,
            r.capacity() == max_size,
    {
        let r = ParseCache { cache: Vec::new(), hit_count: 0, miss_count: 0, max_size };
        assert(entry_views(r.cache@) =~= Seq::<(Seq<char>, ExprView)>::empty());
        r
    }

    /// The key for an expression's text (see `cache_key`).
    pub fn create_cache_key(&self, expr_str: &str) -> (r: String)
        ensures
            r@ == cache_key(expr_str@),
    {
        let c = chars_of(expr_str);
        let t = trim(&c);
        let h = replace_double_spaces(&t);
        let normalized = string_of(&h);
        if utf8_longer_than(&h, 100) {
            let mut key = string_of(&['h', 'a', 's', 'h', '_']);
            let digits = decimal_string(hash_text(normalized.as_str()));
            push_string(&mut key, digits.as_str());
            key
        } else {
            normalized
        }
    }

    fn find(&self, key: &str) -> (r: Option<usize>)
        ensures
            match r {
                Some(i) => i < self.cache@.len() && self.entries()[i as int].0 == key@,
                None => !has_key(self.entries(), key@),
            },
    {
        let mut i: usize = 0;
        while i < self.cache.len()
            invariant
                i <= self.cache@.len(),
                forall|j: int| 0 <= j < i ==> #[trigger] self.entries()[j].0 != key@,
            decreases self.cache.len() - i,
        {
            if str_eq(self.cache[i].0.as_str(), key) {
                return Some(i);
            }
            i = i + 1;
        }
        None
    }

    /// In entries whose keys are distinct, the key of the entry at `i` is
    /// found, and looking it up gives that entry's expression.
    pub proof fn lemma_lookup_at(es: Seq<(Seq<char>, ExprView)>, i: int)
        requires
            distinct(es),
            0 <= i < es.len(),
        ensures
            has_key(es, es[i].0),
            lookup(es, es[i].0) == Some(es[i].1),
            (choose|j: int| 0 <= j < es.len() && es[j].0 == es[i].0) == i,
    {
        let j = choose|j: int| 0 <= j < es.len() && es[j].0 == es[i].0;
        if j != i {
            if j < i {
                assert(es[j].0 != es[i].0);
            } else {
                assert(es[i].0 != es[j].0);
            }
        }
    }

    /// The cached expression for a text, counting a hit when it is there and
    /// a miss when it is not.
    pub fn get(&mut self, expr_str: &str) -> (r: Option<Rc<Expr>>)
        requires
            old(self).wf(),
            old(self).hits() < usize::MAX,
            old(self).misses() < usize::MAX,
        ensures
            final(self).wf(),
            final(self).entries() == old(self).entries(),
            final(self).capacity() == old(self).capacity(),
            match lookup(old(self).entries(), cache_key(expr_str@)) {
                Some(e) => r matches Some(x) && (*x)@ == e
                    && final(self).hits() == old(self).hits() + 1 && final(self).misses() == old(self).misses(),
                None => r is None
                    && final(self).hits() == old(self).hits() && final(self).misses() == old(self).misses() + 1,
            },
    {
        let key = self.create_cache_key(expr_str);
        match self.find(key.as_str()) {
            Some(i) => {
                proof { Self::lemma_lookup_at(self.entries(), i as int); }
                self.hit_count = self.hit_count + 1;
                Some(share(&self.cache[i].1))
            },
            None => {
                self.miss_count = self.miss_count + 1;
                None
            },
        }
    }

    fn store(&mut self, key: String, expr: Rc<Expr>)
        requires
            old(self).wf(),
        ensures
            final(self).wf(),
            final(self).entries() == cache_insert(old(self).entries(), old(self).capacity(), key@, (*expr)@),
            final(self).hits() == old(self).hits(),
            final(self).misses() == old(self).misses(),
            final(self).capacity() == old(self).capacity(),
    {
        let ghost k = key@;
        let ghost e = (*expr)@;
        if self.cache.len() < self.max_size {
            self.upsert(key, expr);
        } else if self.cache.len() > 0 {
            let ghost before = self.entries();
            let _ = self.cache.remove(0);
            proof {
                assert(self.entries() =~= before.drop_first());
                assert(distinct(self.entries())) by {
                    assert forall|i: int, j: int| 0 <= i < j < self.entries().len() implies (#[trigger] self.entries()[i]).0 != (#[trigger] self.entries()[j]).0 by {
                        assert(self.entries()[i] == before[i + 1] && self.entries()[j] == before[j + 1]);
                    }
                }
            }
            self.upsert(key, expr);
        }
    }

    fn upsert(&mut self, key: String, expr: Rc<Expr>)
        requires
            old(self).wf() || (distinct(old(self).entries()) && old(self).cache@.len() < old(self).max_size),
            distinct(old(self).entries()),
            old(self).cache@.len() <= old(self).max_size,
            old(self).cache@.len() < old(self).max_size || has_key(old(self).entries(), key@)
                || old(self).cache@.len() + 1 <= old(self).max_size,
        ensures
            distinct(final(self).entries()),
            final(self).entries() == upsert(old(self).entries(), key@, (*expr)@),
            final(self).cache@.len() <= old(self).cache@.len() + 1,
            has_key(old(self).entries(), key@) ==> final(self).cache@.len() == old(self).cache@.len(),
            final(self).hits() == old(self).hits(),
            final(self).misses() == old(self).misses(),
            final(self).capacity() == old(self).capacity(),
            final(self).max_size == old(self).max_size,
    {
        let ghost k = key@;
        let ghost e = (*expr)@;
        let ghost before = self.entries();
        match self.find(key.as_str()) {
            Some(i) => {
                proof { Self::lemma_lookup_at(before, i as int); }
                self.cache.set(i, (key, expr));
                proof {
                    assert(self.entries() =~= before.update(i as int, (k, e)));
                    assert(distinct(self.entries())) by {
                        assert forall|a: int, b: int| 0 <= a < b < self.entries().len() implies (#[trigger] self.entries()[a]).0 != (#[trigger] self.entries()[b]).0 by {
                            assert(self.entries()[a].0 == before[a].0 && self.entries()[b].0 == before[b].0);
                        }
                    }
                }
            },
            None => {
                self.cache.push((key, expr));
                proof {
                    assert(self.entries() =~= before.push((k, e)));
                    assert(distinct(self.entries())) by {
                        assert forall|a: int, b: int| 0 <= a < b < self.entries().len() implies (#[trigger] self.entries()[a]).0 != (#[trigger] self.entries()[b]).0 by {
                            if b == before.len() {
                                assert(before[a].0 != k);
                            } else {
                                assert(self.entries()[a] == before[a] && self.entries()[b] == before[b]);
                            }
                        }
                    }
                }
            },
        }
    }

    /// Stores an expression under its text's key (see `cache_insert`); the
    /// counts do not change.
    pub fn insert(&mut self, expr_str: &str, expr: Expr)
        requires
            old(self).wf(),
        ensures
            final(self).wf(),
            final(self).entries() == cache_insert(old(self).entries(), old(self).capacity(), cache_key(expr_str@), expr@),
            final(self).hits() == old(self).hits(),
            final(self).misses() == old(self).misses(),
            final(self).capacity() == old(self).capacity(),
    {
        let key = self.create_cache_key(expr_str);
        self.store(key, Rc::new(expr));
    }

    /// The cached expression for a text (a hit); otherwise (a miss) the
    /// result of `parser_fn` on the text, stored when it is `Ok`.
    pub fn get_or_parse<F>(&mut self, expr_str: &str, parser_fn: F) -> (r: Result<Rc<Expr>, DataCodeError>)
        where
            F: FnOnce(&str) -> Result<Expr, DataCodeError>,
        requires
            old(self).wf(),
            old(self).hits() < usize::MAX,
            old(self).misses() < usize::MAX,
            call_requires(parser_fn, (expr_str,)),
        ensures
            final(self).wf(),
            final(self).capacity() == old(self).capacity(),
            match lookup(old(self).entries(), cache_key(expr_str@)) {
                Some(e) => r matches Ok(x) && (*x)@ == e
                    && final(self).entries() == old(self).entries()
                    && final(self).hits() == old(self).hits() + 1
                    && final(self).misses() == old(self).misses(),
                None => final(self).hits() == old(self).hits()
                    && final(self).misses() == old(self).misses() + 1
                    && match r {
                        Ok(x) => call_ensures(parser_fn, (expr_str,), Ok(*x))
                            && final(self).entries() == cache_insert(
                                old(self).entries(), old(self).capacity(), cache_key(expr_str@), (*x)@),
                        Err(err) => call_ensures(parser_fn, (expr_str,), Err(err))
                            && final(self).entries() == old(self).entries(),
                    },
            },
    {
        let key = self.create_cache_key(expr_str);
        match self.find(key.as_str()) {
            Some(i) => {
                proof { Self::lemma_lookup_at(self.entries(), i as int); }
                self.hit_count = self.hit_count + 1;
                return Ok(share(&self.cache[i].1));
            },
            None => {},
        }
        self.miss_count = self.miss_count + 1;
        let parsed = parser_fn(expr_str);
        match parsed {
            Ok(e) => {
                let rc = Rc::new(e);
                let out = share(&rc);
                self.store(key, rc);
                Ok(out)
            },
            Err(err) => Err(err),
        }
    }

    /// Empties the cache and zeroes the counts; the capacity stays.
    pub fn clear(&mut self)
        requires
            old(self).wf(),
        ensures
            final(self).wf(),
            final(self).entries() == Seq::<(Seq<char>, ExprView)>::empty(),
            final(self).hits() == 0,
            final(self).misses() == 0,
            final(self).capacity() == old(self).capacity(),
    {
        self.cache = Vec::new();
        self.hit_count = 0;
        self.miss_count = 0;
        assert(entry_views(self.cache@) =~= Seq::<(Seq<char>, ExprView)>::empty());
    }

    /// The number of hits.
    pub fn get_hit_count(&self) -> (r: usize)
        ensures
            r == self.hits(),
    {
        self.hit_count
    }

    /// The number of misses.
    pub fn get_miss_count(&self) -> (r: usize)
        ensures
            r == self.misses(),
    {
        self.miss_count
    }

    /// The number of cached expressions.
    pub fn size(&self) -> (r: usize)
        ensures
            r == self.entries().len(),
    {
        self.cache.len()
    }

    /// The capacity.
    pub fn max_size(&self) -> (r: usize)
        ensures
            r == self.capacity(),
    {
        self.max_size
    }

    /// Whether the cache holds as many expressions as its capacity.
    pub fn is_full(&self) -> (r: bool)
        ensures
            r == (self.entries().len() >= self.capacity()),
    {
        self.cache.len() >= self.max_size
    }


    /// Stores the parse of each common expression (`true`, `false`, `null`,
    /// `0`, `1`, `-1`, `''`, `[]`, `{}`, and a few comparisons) that parses,
    /// in order (see `preload`).
    pub fn preload_common_expressions(&mut self)
        requires
            old(self).wf(),
        ensures
            final(self).wf(),
            final(self).entries() == preload(old(self).entries(), old(self).capacity(), 15),
            final(self).hits() == old(self).hits(),
            final(self).misses() == old(self).misses(),
            final(self).capacity() == old(self).capacity(),
    {
        let mut i: usize = 0;
        while i < 15
            invariant
                i <= 15,
                self.wf(),
                self.entries() == preload(old(self).entries(), old(self).capacity(), i as nat),
                self.hits() == old(self).hits(),
                self.misses() == old(self).misses(),
                self.capacity() == old(self).capacity(),
            decreases 15 - i,
        {
            let src = common_expression(i);
            let mut parser = Parser::new(src.as_str());
            match parser.parse_expression() {
                Ok(e) => self.insert(src.as_str(), e),
                Err(_) => {},
            }
            i = i + 1;
        }
    }

    /// The counts and sizes.
    pub fn get_stats(&self) -> (r: CacheStats)
        ensures
            r.hits == self.hits(),
            r.misses == self.misses(),
            r.size == self.entries().len(),
            r.max_size == self.capacity(),
    {
        CacheStats { hits: self.hit_count, misses: self.miss_count, size: self.cache.len(), max_size: self.max_size }
    }
}

impl Default for ParseCache {
    fn default() -> (r: Self)
        ensures
            r.wf(),
            r.entries() == Seq::<(Seq<char>, ExprView)>::empty(),
            r.hits() == 0,
            r.misses() == 0,
            r.capacity() == 1000,
    {
        Self::new()
    }
}

} // verus!

//! The connection pool: at most one open connection per host, reused by
//! every request to that host.
use vstd::prelude::*;

verus! {

/// Open connections keyed by host, at most one per host.
pub struct ConnectionPool<C> {
    max_idle_connections: u32,
    keep_alive_secs: i64,
    entries: Vec<(String, C)>,
}

/// Whether no key occurs twice among `s`.
pub open spec fn pool_distinct_keys<C>(s: Seq<(String, C)>) -> bool {
    forall|i: int, j: int|
        0 <= i < s.len() && 0 <= j < s.len() && i != j ==> #[trigger] s[i].0@ != #[trigger] s[j].0@
}

/// Whether `k` is the key of some entry of `s`.
pub open spec fn pool_has_key<C>(s: Seq<(String, C)>, k: Seq<char>) -> bool {
    exists|j: int| 0 <= j < s.len() && #[trigger] s[j].0@ == k
}

/// The map from hosts to connections that the entries `s` hold.
pub open spec fn pool_entries_map<C>(s: Seq<(String, C)>) -> Map<Seq<char>, C> {
    Map::new(
        |k: Seq<char>| pool_has_key(s, k),
        |k: Seq<char>| s[choose|j: int| 0 <= j < s.len() && #[trigger] s[j].0@ == k].1,
    )
}

/// With distinct keys, the entry at `j` is what the map holds for its key.
pub proof fn pool_lemma_entry_in_map<C>(s: Seq<(String, C)>, j: int)
    requires
        pool_distinct_keys(s),
        0 <= j < s.len(),
    ensures
        pool_entries_map(s).dom().contains(s[j].0@),
        pool_entries_map(s)[s[j].0@] == s[j].1,
{
    assert(pool_has_key(s, s[j].0@));
    let w = choose|i: int| 0 <= i < s.len() && #[trigger] s[i].0@ == s[j].0@;
    assert(w == j);
}

impl<C> View for ConnectionPool<C> {
    type V = Map<Seq<char>, C>;

    closed spec fn view(&self) -> Map<Seq<char>, C> {
        pool_entries_map(self.entries@)
    }
}

impl<C> ConnectionPool<C> {
    #[verifier::type_invariant]
    closed spec fn wf(self) -> bool {
        pool_distinct_keys(self.entries@)
    }

    /// The view's domain is finite.
    pub proof fn lemma_finite(&self)
        ensures
            self@.dom().finite(),
    {
        pool_lemma_dom_finite(self.entries@);
    }

    /// An empty pool that keeps up to `max_idle_connections` idle
    /// connections for `keep_alive_secs` seconds.
    pub fn new(max_idle_connections: u32, keep_alive_secs: i64) -> (r: Self)
        ensures
            r@ == Map::<Seq<char>, C>::empty(),
            r.max_idle_connections() == max_idle_connections,
            r.keep_alive_secs() == keep_alive_secs,
    {
        let r = ConnectionPool { max_idle_connections, keep_alive_secs, entries: Vec::new() };
        assert(r@ =~= Map::<Seq<char>, C>::empty());
        r
    }

    /// An empty pool with the default settings: five idle connections kept
    /// for five minutes.
    pub fn default_pool() -> (r: Self)
        ensures
            r@ == Map::<Seq<char>, C>::empty(),
            r.max_idle_connections() == 5,
            r.keep_alive_secs() == 300,
    {
        ConnectionPool::new(5, 300)
    }

    /// How many idle connections are kept.
    pub closed spec fn max_idle_connections(&self) -> u32 {
        self.max_idle_connections
    }

    /// How long idle connections are kept, in seconds.
    pub closed spec fn keep_alive_secs(&self) -> i64 {
        self.keep_alive_secs
    }

    /// Sets how many idle connections are kept.
    pub fn set_max_idle_connections(&mut self, max_idle_connections: u32)
        ensures
            final(self)@ == old(self)@,
            final(self).max_idle_connections() == max_idle_connections,
            final(self).keep_alive_secs() == old(self).keep_alive_secs(),
    {
        proof {
            use_type_invariant(&*self);
        }
        self.max_idle_connections = max_idle_connections;
    }

    /// Sets how long idle connections are kept, in seconds.
    pub fn set_keep_alive_duration(&mut self, keep_alive_secs: i64)
        ensures
            final(self)@ == old(self)@,
            final(self).keep_alive_secs() == keep_alive_secs,
            final(self).max_idle_connections() == old(self).max_idle_connections(),
    {
        proof {
            use_type_invariant(&*self);
        }
        self.keep_alive_secs = keep_alive_secs;
    }

    /// Index of the entry with key `k`, if any.
    fn find(&self, k: &str) -> (r: Option<usize>)
        ensures
            match r {
                Some(i) => i < self.entries@.len() && self.entries@[i as int].0@ == k@,
                None => !pool_has_key(self.entries@, k@),
            },
    {
        let ks: String = k.to_owned();
        let mut i: usize = 0;
        while i < self.entries.len()
            invariant
                ks@ == k@,
                i <= self.entries@.len(),
                forall|j: int| 0 <= j < i ==> #[trigger] self.entries@[j].0@ != k@,
            decreases self.entries@.len() - i,
        {
            if self.entries[i].0 == ks {
                return Some(i);
            }
            i = i + 1;
        }
        None
    }

    /// Whether a connection to `k` is kept.
    pub fn contains_key(&self, k: &str) -> (r: bool)
        ensures
            r == self@.dom().contains(k@),
    {
        match self.find(k) {
            Some(_) => true,
            None => false,
        }
    }

    /// The connection to `k`, if one is kept.
    pub fn get(&self, k: &str) -> (r: Option<&C>)
        ensures
            match r {
                Some(c) => self@.dom().contains(k@) && self@[k@] == *c,
                None => !self@.dom().contains(k@),
            },
    {
        proof {
            use_type_invariant(self);
        }
        match self.find(k) {
            Some(i) => {
                proof {
                    pool_lemma_entry_in_map(self.entries@, i as int);
                }
                Some(&self.entries[i].1)
            },
            None => None,
        }
    }

    pub fn insert(&mut self, k: String, conn: C)
        ensures
            final(self)@ == old(self)@.insert(k@, conn),
            final(self).max_idle_connections() == old(self).max_idle_connections(),
            final(self).keep_alive_secs() == old(self).keep_alive_secs(),
    {
        proof {
            use_type_invariant(&*self);
        }
        let ghost old_s = self.entries@;
        let ghost kv = k@;
        let ghost cv = conn;
        match self.find(k.as_str()) {
            Some(i) => {
                let mut entries: Vec<(String, C)> = Vec::new();
                std::mem::swap(&mut entries, &mut self.entries);
                entries.set(i, (k, conn));
                let ghost s = entries@;
                proof {
                    assert(s == old_s.update(i as int, s[i as int]));
                    assert(pool_distinct_keys(s)) by {
                        assert forall|a: int, b: int|
                            0 <= a < s.len() && 0 <= b < s.len() && a != b implies #[trigger] s[a].0@
                            != #[trigger] s[b].0@ by {
                            if a != i && b != i {
                                assert(old_s[a] == s[a] && old_s[b] == s[b]);
                            } else if a == i {
                                assert(old_s[b] == s[b]);
                            } else {
                                assert(old_s[a] == s[a]);
                            }
                        }
                    }
                    pool_lemma_replace_map(old_s, s, i as int);
                }
                self.entries = entries;
            },
            None => {
                let mut entries: Vec<(String, C)> = Vec::new();
                std::mem::swap(&mut entries, &mut self.entries);
                entries.push((k, conn));
                let ghost s = entries@;
                proof {
                    assert(pool_distinct_keys(s)) by {
                        assert forall|a: int, b: int|
                            0 <= a < s.len() && 0 <= b < s.len() && a != b implies #[trigger] s[a].0@
                            != #[trigger] s[b].0@ by {
                            if a < old_s.len() && b < old_s.len() {
                                assert(old_s[a] == s[a] && old_s[b] == s[b]);
                            } else if a < old_s.len() {
                                assert(old_s[a] == s[a]);
                            } else {
                                assert(old_s[b] == s[b]);
                            }
                        }
                    }
                    pool_lemma_push_map(old_s, s);
                }
                self.entries = entries;
            },
        }
    }

    /// Keeps `conn` as the connection to `k` unless one is kept already, in
    /// which case the pool is unchanged and `conn` is handed back.
    pub fn insert_if_absent(&mut self, k: String, conn: C) -> (r: Option<C>)
        ensures
            final(self)@ == if old(self)@.dom().contains(k@) {
                old(self)@
            } else {
                old(self)@.insert(k@, conn)
            },
            final(self).max_idle_connections() == old(self).max_idle_connections(),
            final(self).keep_alive_secs() == old(self).keep_alive_secs(),
            r == if old(self)@.dom().contains(k@) {
                Some(conn)
            } else {
                None::<C>
            },
    {
        if self.contains_key(k.as_str()) {
            Some(conn)
        } else {
            self.insert(k, conn);
            None
        }
    }

    /// Takes the connection to `k` out of the pool, if one is kept.
    pub fn take(&mut self, k: &str) -> (r: Option<C>)
        ensures
            final(self)@ == old(self)@.remove(k@),
            final(self).max_idle_connections() == old(self).max_idle_connections(),
            final(self).keep_alive_secs() == old(self).keep_alive_secs(),
            match r {
                Some(c) => old(self)@.dom().contains(k@) && old(self)@[k@] == c,
                None => !old(self)@.dom().contains(k@),
            },
    {
        proof {
            use_type_invariant(&*self);
        }
        let ghost old_s = self.entries@;
        match self.find(k) {
            Some(i) => {
                let mut entries: Vec<(String, C)> = Vec::new();
                std::mem::swap(&mut entries, &mut self.entries);
                let taken = entries.remove(i);
                let ghost s = entries@;
                proof {
                    assert(pool_distinct_keys(s)) by {
                        assert forall|a: int, b: int|
                            0 <= a < s.len() && 0 <= b < s.len() && a != b implies #[trigger] s[a].0@
                            != #[trigger] s[b].0@ by {
                            let a2 = if a < i { a } else { a + 1 };
                            let b2 = if b < i { b } else { b + 1 };
                            assert(s[a] == old_s[a2] && s[b] == old_s[b2]);
                        }
                    }
                    pool_lemma_remove_map(old_s, s, i as int);
                    pool_lemma_entry_in_map(old_s, i as int);
                }
                self.entries = entries;
                Some(taken.1)
            },
            None => {
                proof {
                    assert(old(self)@.remove(k@) =~= old(self)@);
                }
                None
            },
        }
    }

    /// The number of connections kept (as a `u32`, wrapping).
    pub fn connection_count(&self) -> (r: u32)
        ensures
            r == self@.dom().len() as u32,
    {
        proof {
            use_type_invariant(self);
            pool_lemma_map_len(self.entries@);
        }
        self.entries.len() as u32
    }
}

/// The map of entries is finite.
pub proof fn pool_lemma_dom_finite<C>(s: Seq<(String, C)>)
    ensures
        pool_entries_map(s).dom().finite(),
{
    let f = |j: int| s[j].0@;
    let idx = Set::new(|j: int| 0 <= j < s.len());
    assert(idx =~= vstd::set_lib::set_int_range(0, s.len() as int));
    vstd::set_lib::lemma_int_range(0, s.len() as int);
    assert forall|x: Seq<char>| #[trigger] pool_entries_map(s).dom().contains(x) implies idx.map(
        f,
    ).contains(x) by {
        let w = choose|j: int| 0 <= j < s.len() && #[trigger] s[j].0@ == x;
        assert(idx.contains(w) && f(w) == x);
    }
    assert forall|x: Seq<char>| #[trigger] idx.map(f).contains(x) implies pool_entries_map(
        s,
    ).dom().contains(x) by {
        let w = choose|j: int| idx.contains(j) && f(j) == x;
        assert(s[w].0@ == x);
    }
    assert(pool_entries_map(s).dom() =~= idx.map(f));
    idx.lemma_map_finite(f);
}

/// With distinct keys, the map has one key per entry.
pub proof fn pool_lemma_map_len<C>(s: Seq<(String, C)>)
    requires
        pool_distinct_keys(s),
    ensures
        pool_entries_map(s).dom().len() == s.len(),
        pool_entries_map(s).dom().finite(),
    decreases s.len(),
{
    pool_lemma_dom_finite(s);
    if s.len() == 0 {
        assert(pool_entries_map(s).dom() =~= Set::<Seq<char>>::empty());
    } else {
        let t = s.drop_last();
        assert(pool_distinct_keys(t)) by {
            assert forall|a: int, b: int|
                0 <= a < t.len() && 0 <= b < t.len() && a != b implies #[trigger] t[a].0@
                != #[trigger] t[b].0@ by {
                assert(t[a] == s[a] && t[b] == s[b]);
            }
        }
        pool_lemma_map_len(t);
        let k = s.last().0@;
        assert(!pool_has_key(t, k)) by {
            if pool_has_key(t, k) {
                let w = choose|j: int| 0 <= j < t.len() && #[trigger] t[j].0@ == k;
                assert(t[w] == s[w]);
                assert(s[w].0@ == s[s.len() - 1].0@);
            }
        }
        assert(pool_entries_map(s).dom() =~= pool_entries_map(t).dom().insert(k)) by {
            assert forall|x: Seq<char>| pool_entries_map(s).dom().contains(x) implies pool_entries_map(
                t,
            ).dom().insert(k).contains(x) by {
                let w = choose|j: int| 0 <= j < s.len() && #[trigger] s[j].0@ == x;
                if w < t.len() {
                    assert(t[w] == s[w]);
                }
            }
            assert forall|x: Seq<char>| pool_entries_map(t).dom().insert(k).contains(x) implies pool_entries_map(
                s,
            ).dom().contains(x) by {
                if x != k {
                    let w = choose|j: int| 0 <= j < t.len() && #[trigger] t[j].0@ == x;
                    assert(t[w] == s[w]);
                } else {
                    assert(s[s.len() - 1].0@ == x);
                }
            }
        }
    }
}

/// Replacing the entry at `i` by one with the same key updates that key.
pub proof fn pool_lemma_replace_map<C>(old_s: Seq<(String, C)>, s: Seq<(String, C)>, i: int)
    requires
        pool_distinct_keys(old_s),
        pool_distinct_keys(s),
        0 <= i < old_s.len(),
        s.len() == old_s.len(),
        s[i].0@ == old_s[i].0@,
        forall|j: int| 0 <= j < s.len() && j != i ==> s[j] == old_s[j],
    ensures
        pool_entries_map(s) == pool_entries_map(old_s).insert(s[i].0@, s[i].1),
{
    let m = pool_entries_map(old_s).insert(s[i].0@, s[i].1);
    assert forall|x: Seq<char>| #[trigger] pool_entries_map(s).dom().contains(x) <==> m.dom().contains(x) by {
        if pool_entries_map(s).dom().contains(x) {
            let w = choose|j: int| 0 <= j < s.len() && #[trigger] s[j].0@ == x;
            if w != i {
                assert(old_s[w] == s[w]);
            }
        }
        if m.dom().contains(x) && x != s[i].0@ {
            let w = choose|j: int| 0 <= j < old_s.len() && #[trigger] old_s[j].0@ == x;
            assert(old_s[w] == s[w]);
        }
    }
    assert forall|x: Seq<char>| #[trigger] pool_entries_map(s).dom().contains(x) implies pool_entries_map(s)[x]
        == m[x] by {
        let w = choose|j: int| 0 <= j < s.len() && #[trigger] s[j].0@ == x;
        pool_lemma_entry_in_map(s, w);
        if w != i {
            assert(old_s[w] == s[w]);
            pool_lemma_entry_in_map(old_s, w);
        }
    }
    assert(pool_entries_map(s) =~= m);
}

/// Pushing an entry with a new key inserts that key.
pub proof fn pool_lemma_push_map<C>(old_s: Seq<(String, C)>, s: Seq<(String, C)>)
    requires
        pool_distinct_keys(old_s),
        pool_distinct_keys(s),
        s.len() == old_s.len() + 1,
        forall|j: int| 0 <= j < old_s.len() ==> s[j] == old_s[j],
    ensures
        pool_entries_map(s) == pool_entries_map(old_s).insert(s.last().0@, s.last().1),
{
    let n = old_s.len() as int;
    let m = pool_entries_map(old_s).insert(s[n].0@, s[n].1);
    assert forall|x: Seq<char>| #[trigger] pool_entries_map(s).dom().contains(x) <==> m.dom().contains(x) by {
        if pool_entries_map(s).dom().contains(x) {
            let w = choose|j: int| 0 <= j < s.len() && #[trigger] s[j].0@ == x;
            if w != n {
                assert(old_s[w] == s[w]);
            }
        }
        if m.dom().contains(x) && x != s[n].0@ {
            let w = choose|j: int| 0 <= j < old_s.len() && #[trigger] old_s[j].0@ == x;
            assert(old_s[w] == s[w]);
        }
    }
    assert forall|x: Seq<char>| #[trigger] pool_entries_map(s).dom().contains(x) implies pool_entries_map(s)[x]
        == m[x] by {
        let w = choose|j: int| 0 <= j < s.len() && #[trigger] s[j].0@ == x;
        pool_lemma_entry_in_map(s, w);
        if w != n {
            assert(old_s[w] == s[w]);
            pool_lemma_entry_in_map(old_s, w);
        }
    }
    assert(pool_entries_map(s) =~= m);
}

/// Removing the entry at `i` removes its key.
pub proof fn pool_lemma_remove_map<C>(old_s: Seq<(String, C)>, s: Seq<(String, C)>, i: int)
    requires
        pool_distinct_keys(old_s),
        pool_distinct_keys(s),
        0 <= i < old_s.len(),
        s == old_s.remove(i),
    ensures
        pool_entries_map(s) == pool_entries_map(old_s).remove(old_s[i].0@),
{
    let m = pool_entries_map(old_s).remove(old_s[i].0@);
    assert forall|x: Seq<char>| #[trigger] pool_entries_map(s).dom().contains(x) <==> m.dom().contains(x) by {
        if pool_entries_map(s).dom().contains(x) {
            let w = choose|j: int| 0 <= j < s.len() && #[trigger] s[j].0@ == x;
            let w2 = if w < i { w } else { w + 1 };
            assert(s[w] == old_s[w2]);
        }
        if m.dom().contains(x) {
            let w = choose|j: int| 0 <= j < old_s.len() && #[trigger] old_s[j].0@ == x;
            assert(w != i);
            let w2 = if w < i { w } else { w - 1 };
            assert(s[w2] == old_s[w]);
        }
    }
    assert forall|x: Seq<char>| #[trigger] pool_entries_map(s).dom().contains(x) implies pool_entries_map(s)[x]
        == m[x] by {
        let w = choose|j: int| 0 <= j < s.len() && #[trigger] s[j].0@ == x;
        pool_lemma_entry_in_map(s, w);
        let w2 = if w < i { w } else { w + 1 };
        assert(s[w] == old_s[w2]);
        pool_lemma_entry_in_map(old_s, w2);
    }
    assert(pool_entries_map(s) =~= m);
}


/// A connection kept for a host is the one handed out for that host, and
/// keeping one for a host already in the pool does not add a host.
pub proof fn lemma_pool_reuse<C>(m: Map<Seq<char>, C>, host: Seq<char>, c: C, other: Seq<char>)
    requires
        other != host,
    ensures
        m.insert(host, c).dom().contains(host),
        m.insert(host, c)[host] == c,
        m.dom().contains(host) ==> m.insert(host, c).dom() == m.dom(),
        m.insert(host, c).dom().contains(other) == m.dom().contains(other),
        m.dom().contains(other) ==> m.insert(host, c)[other] == m[other],
        m.insert(host, c).remove(host) == m.remove(host),
{
    assert(m.dom().contains(host) ==> m.insert(host, c).dom() =~= m.dom());
    assert(m.insert(host, c).remove(host) =~= m.remove(host));
}

} // verus!

//! Shared crawl state: the visited set, the link graph, and the
//! per-host counters.  All three are association structures over
//! canonical URL strings, with uniqueness of keys as their invariant.

use crate::urlnorm::str_eq;
use vstd::prelude::*;

verus! {

/// First-match association lookup over string keys.
pub open spec fn assoc_get<V>(keys: Seq<Seq<char>>, vals: Seq<V>, k: Seq<char>) -> Option<V>
    decreases keys.len(),
{
    if keys.len() == 0 || vals.len() == 0 {
        None
    } else if keys[0] == k {
        Some(vals[0])
    } else {
        assoc_get(keys.drop_first(), vals.drop_first(), k)
    }
}

/// When `i` is the first index whose key is `k`, the lookup returns the
/// value at `i`.
pub proof fn lemma_assoc_get_at<V>(keys: Seq<Seq<char>>, vals: Seq<V>, k: Seq<char>, i: int)
    requires
        keys.len() == vals.len(),
        0 <= i < keys.len(),
        keys[i] == k,
        forall|j: int| 0 <= j < i ==> #[trigger] keys[j] != k,
    ensures
        assoc_get(keys, vals, k) == Some(vals[i]),
    decreases i,
{
    if i > 0 {
        assert(forall|j: int|
            0 <= j < i - 1 ==> #[trigger] keys.drop_first()[j] == keys[j + 1]);
        assert(keys.drop_first()[i - 1] == keys[i]);
        lemma_assoc_get_at(keys.drop_first(), vals.drop_first(), k, i - 1);
    }
}

/// When no key is `k`, the lookup misses.
pub proof fn lemma_assoc_get_none<V>(keys: Seq<Seq<char>>, vals: Seq<V>, k: Seq<char>)
    requires
        keys.len() == vals.len(),
        forall|j: int| 0 <= j < keys.len() ==> #[trigger] keys[j] != k,
    ensures
        assoc_get(keys, vals, k) is None,
    decreases keys.len(),
{
    if keys.len() > 0 {
        assert(forall|j: int|
            0 <= j < keys.len() - 1 ==> #[trigger] keys.drop_first()[j] == keys[j + 1]);
        lemma_assoc_get_none(keys.drop_first(), vals.drop_first(), k);
    }
}

/// Appending a binding serves `k` only when every older key missed.
pub proof fn lemma_assoc_get_push<V>(
    keys: Seq<Seq<char>>,
    vals: Seq<V>,
    k: Seq<char>,
    v: V,
    q: Seq<char>,
)
    requires
        keys.len() == vals.len(),
    ensures
        assoc_get(keys.push(k), vals.push(v), q) == (match assoc_get(keys, vals, q) {
            Some(x) => Some(x),
            None => if q == k {
                Some(v)
            } else {
                None
            },
        }),
    decreases keys.len(),
{
    if keys.len() == 0 {
        assert(keys.push(k)[0] == k);
        assert(vals.push(v)[0] == v);
    } else {
        assert(keys.push(k)[0] == keys[0]);
        assert(vals.push(v)[0] == vals[0]);
        if keys[0] != q {
            assert(keys.push(k).drop_first() =~= keys.drop_first().push(k));
            assert(vals.push(v).drop_first() =~= vals.drop_first().push(v));
            lemma_assoc_get_push(keys.drop_first(), vals.drop_first(), k, v, q);
        }
    }
}

/// Updating the value at the first index bound to `k` rebinds `k` and
/// leaves every other key alone.
pub proof fn lemma_assoc_get_update<V>(
    keys: Seq<Seq<char>>,
    vals: Seq<V>,
    i: int,
    v2: V,
    q: Seq<char>,
)
    requires
        keys.len() == vals.len(),
        0 <= i < keys.len(),
        forall|j: int| 0 <= j < i ==> #[trigger] keys[j] != keys[i],
    ensures
        assoc_get(keys, vals.update(i, v2), q) == (if q == keys[i] {
            Some(v2)
        } else {
            assoc_get(keys, vals, q)
        }),
    decreases i,
{
    if i == 0 {
        assert(vals.update(0, v2)[0] == v2);
        if keys[0] != q {
            assert(vals.update(0, v2).drop_first() =~= vals.drop_first());
        }
    } else {
        assert(vals.update(i, v2)[0] == vals[0]);
        if keys[0] != q {
            assert(forall|j: int|
                0 <= j < i - 1 ==> #[trigger] keys.drop_first()[j] == keys[j + 1]);
            assert(keys.drop_first()[i - 1] == keys[i]);
            assert(vals.update(i, v2).drop_first() =~= vals.drop_first().update(i - 1, v2));
            lemma_assoc_get_update(keys.drop_first(), vals.drop_first(), i - 1, v2, q);
        }
    }
}

/// Index of the first key equal to `k`, by linear scan.
pub fn assoc_find_index(keys: &Vec<String>, k: &str) -> (r: Option<usize>)
    ensures
        match r {
            Some(i) => i < keys@.len() && keys.deep_view()[i as int] == k@ && forall|j: int|
                0 <= j < i ==> #[trigger] keys.deep_view()[j] != k@,
            None => forall|j: int|
                0 <= j < keys@.len() ==> #[trigger] keys.deep_view()[j] != k@,
        },
{
    let n = keys.len();
    let mut i: usize = 0;
    while i < n
        invariant
            0 <= i <= n == keys@.len(),
            forall|j: int| 0 <= j < i ==> #[trigger] keys.deep_view()[j] != k@,
        decreases n - i,
    {
        proof {
            assert(keys.deep_view()[i as int] == keys@[i as int]@);
        }
        if str_eq(keys[i].as_str(), k) {
            return Some(i);
        }
        i = i + 1;
    }
    None
}

/// The set of canonical URLs ever admitted to the frontier.  Insertion
/// is the atomic gate against duplicate work.
#[derive(Debug)]
pub struct VisitedSet {
    pub urls: Vec<String>,
}

impl VisitedSet {
    /// The admitted URLs in admission order.
    pub open spec fn seq_view(self) -> Seq<Seq<char>> {
        self.urls.deep_view()
    }

    /// No URL is admitted twice.
    pub open spec fn wf(self) -> bool {
        self.seq_view().no_duplicates()
    }

    /// An empty visited set.
    pub fn new() -> (r: VisitedSet)
        ensures
            r.wf(),
            r.seq_view() == Seq::<Seq<char>>::empty(),
    {
        let r = VisitedSet { urls: Vec::new() };
        proof {
            assert(r.seq_view() =~~= Seq::<Seq<char>>::empty());
        }
        r
    }

    /// How many URLs were admitted.
    pub fn len(&self) -> (n: usize)
        ensures
            n == self.seq_view().len(),
    {
        self.urls.len()
    }

    /// Whether `url` was already admitted.
    pub fn contains(&self, url: &str) -> (r: bool)
        ensures
            r == self.seq_view().contains(url@),
    {
        match assoc_find_index(&self.urls, url) {
            Some(i) => {
                proof {
                    assert(self.seq_view()[i as int] == url@);
                }
                true
            },
            None => {
                proof {
                    if self.seq_view().contains(url@) {
                        let w = choose|w: int|
                            0 <= w < self.seq_view().len() && self.seq_view()[w] == url@;
                        assert(self.seq_view()[w] == url@);
                    }
                }
                false
            },
        }
    }

    /// Admit a URL that is not yet in the set.
    pub fn insert_new(&mut self, url: String)
        requires
            old(self).wf(),
            !old(self).seq_view().contains(url@),
        ensures
            final(self).wf(),
            final(self).seq_view() == old(self).seq_view().push(url@),
    {
        let ghost before = self.seq_view();
        let ghost uv = url@;
        self.urls.push(url);
        proof {
            assert(self.seq_view() =~~= before.push(uv));
            assert(self.seq_view().no_duplicates()) by {
                assert(forall|t: int|
                    0 <= t < before.len() ==> #[trigger] before.push(uv)[t] == before[t]);
                assert(before.push(uv)[before.len() as int] == uv);
            }
        }
    }
}

/// The directed link graph: each key is a fetched page whose links were
/// extracted, bound to its outgoing canonical URLs in document order.
#[derive(Debug)]
pub struct UrlGraph {
    pub keys: Vec<String>,
    pub vals: Vec<Vec<String>>,
}

impl UrlGraph {
    /// The keys, in insertion order.
    pub open spec fn keys_view(self) -> Seq<Seq<char>> {
        self.keys.deep_view()
    }

    /// The link lists, in the same order as the keys.
    pub open spec fn vals_view(self) -> Seq<Seq<Seq<char>>> {
        self.vals.deep_view()
    }

    /// Keys are unique and line up with their link lists.
    pub open spec fn wf(self) -> bool {
        self.keys@.len() == self.vals@.len() && self.keys_view().no_duplicates()
    }

    /// The link list bound to `k`, if `k` was inserted.
    pub open spec fn spec_get(self, k: Seq<char>) -> Option<Seq<Seq<char>>> {
        assoc_get(self.keys_view(), self.vals_view(), k)
    }

    /// An empty graph.
    pub fn new() -> (r: UrlGraph)
        ensures
            r.wf(),
            r.keys_view() == Seq::<Seq<char>>::empty(),
            forall|k: Seq<char>| #[trigger] r.spec_get(k) is None,
    {
        let r = UrlGraph { keys: Vec::new(), vals: Vec::new() };
        proof {
            assert(r.keys_view() =~~= Seq::<Seq<char>>::empty());
            assert(r.vals_view() =~~= Seq::<Seq<Seq<char>>>::empty());
        }
        r
    }

    /// How many pages have an entry.
    pub fn len(&self) -> (n: usize)
        requires
            self.wf(),
        ensures
            n == self.keys_view().len(),
    {
        self.keys.len()
    }

    /// The links recorded for `url`, if any.
    pub fn get(&self, url: &str) -> (r: Option<&Vec<String>>)
        requires
            self.wf(),
        ensures
            match r {
                Some(v) => self.spec_get(url@) == Some(v.deep_view()),
                None => self.spec_get(url@) is None,
            },
    {
        match assoc_find_index(&self.keys, url) {
            Some(i) => {
                proof {
                    lemma_assoc_get_at(self.keys_view(), self.vals_view(), url@, i as int);
                    assert(self.vals_view()[i as int] == self.vals@[i as int].deep_view());
                }
                Some(&self.vals[i])
            },
            None => {
                proof {
                    lemma_assoc_get_none(self.keys_view(), self.vals_view(), url@);
                }
                None
            },
        }
    }

    /// Record the outgoing links of a page not yet in the graph.
    pub fn insert_new(&mut self, key: String, val: Vec<String>)
        requires
            old(self).wf(),
            old(self).spec_get(key@) is None,
        ensures
            final(self).wf(),
            final(self).keys_view() == old(self).keys_view().push(key@),
            final(self).vals_view() == old(self).vals_view().push(val.deep_view()),
            final(self).spec_get(key@) == Some(val.deep_view()),
            forall|q: Seq<char>|
                q != key@ ==> #[trigger] final(self).spec_get(q) == old(self).spec_get(q),
    {
        let ghost kb = self.keys_view();
        let ghost vb = self.vals_view();
        let ghost kv = key@;
        let ghost vv = val.deep_view();
        proof {
            lemma_assoc_lookup_miss_means_absent(kb, vb, kv);
        }
        self.keys.push(key);
        self.vals.push(val);
        proof {
            assert(self.keys_view() =~~= kb.push(kv));
            assert(self.vals_view() =~~= vb.push(vv));
            assert(self.keys_view().no_duplicates()) by {
                assert(forall|t: int| 0 <= t < kb.len() ==> #[trigger] kb.push(kv)[t] == kb[t]);
                assert(kb.push(kv)[kb.len() as int] == kv);
            }
            assert forall|q: Seq<char>| true implies #[trigger] self.spec_get(q) == (match assoc_get(
                kb,
                vb,
                q,
            ) {
                Some(x) => Some(x),
                None => if q == kv {
                    Some(vv)
                } else {
                    None
                },
            }) by {
                lemma_assoc_get_push(kb, vb, kv, vv, q);
            }
        }
    }
}

/// A missing binding means no key matches.
pub proof fn lemma_assoc_lookup_miss_means_absent<V>(
    keys: Seq<Seq<char>>,
    vals: Seq<V>,
    k: Seq<char>,
)
    requires
        keys.len() == vals.len(),
        assoc_get(keys, vals, k) is None,
    ensures
        forall|j: int| 0 <= j < keys.len() ==> #[trigger] keys[j] != k,
    decreases keys.len(),
{
    if keys.len() > 0 {
        lemma_assoc_lookup_miss_means_absent(keys.drop_first(), vals.drop_first(), k);
        assert(forall|j: int|
            1 <= j < keys.len() ==> #[trigger] keys[j] == keys.drop_first()[j - 1]);
    }
}

/// How many URLs were dispatched per host, to enforce the per-domain cap.
#[derive(Debug)]
pub struct DomainCounter {
    pub hosts: Vec<String>,
    pub counts: Vec<usize>,
}

impl DomainCounter {
    /// The hosts with a counter.
    pub open spec fn hosts_view(self) -> Seq<Seq<char>> {
        self.hosts.deep_view()
    }

    /// Hosts are unique and line up with their counts.
    pub open spec fn wf(self) -> bool {
        self.hosts@.len() == self.counts@.len() && self.hosts_view().no_duplicates()
    }

    /// The count for `h`, zero when `h` has no counter yet.
    pub open spec fn count_of(self, h: Seq<char>) -> nat {
        match assoc_get(self.hosts_view(), self.counts@, h) {
            Some(c) => c as nat,
            None => 0,
        }
    }

    /// An empty counter table.
    pub fn new() -> (r: DomainCounter)
        ensures
            r.wf(),
            forall|h: Seq<char>| #[trigger] r.count_of(h) == 0,
    {
        let r = DomainCounter { hosts: Vec::new(), counts: Vec::new() };
        proof {
            assert(r.hosts_view() =~~= Seq::<Seq<char>>::empty());
        }
        r
    }

    /// The current count for a host.
    pub fn get_count(&self, host: &str) -> (n: usize)
        requires
            self.wf(),
        ensures
            n == self.count_of(host@),
    {
        match assoc_find_index(&self.hosts, host) {
            Some(i) => {
                proof {
                    lemma_assoc_get_at(self.hosts_view(), self.counts@, host@, i as int);
                }
                self.counts[i]
            },
            None => {
                proof {
                    lemma_assoc_get_none(self.hosts_view(), self.counts@, host@);
                }
                0
            },
        }
    }

    /// Add one to a host's count.
    pub fn increment(&mut self, host: &str)
        requires
            old(self).wf(),
            old(self).count_of(host@) < usize::MAX,
        ensures
            final(self).wf(),
            final(self).count_of(host@) == old(self).count_of(host@) + 1,
            forall|h: Seq<char>|
                h != host@ ==> #[trigger] final(self).count_of(h) == old(self).count_of(h),
    {
        let ghost hb = self.hosts_view();
        let ghost cb = self.counts@;
        match assoc_find_index(&self.hosts, host) {
            Some(i) => {
                proof {
                    lemma_assoc_get_at(hb, cb, host@, i as int);
                }
                let c = self.counts[i];
                self.counts.set(i, c + 1);
                proof {
                    assert(self.hosts_view() =~~= hb);
                    assert(self.counts@ =~= cb.update(i as int, (c + 1) as usize));
                    assert forall|h: Seq<char>| true implies #[trigger] assoc_get(
                        hb,
                        self.counts@,
                        h,
                    ) == (if h == hb[i as int] {
                        Some((c + 1) as usize)
                    } else {
                        assoc_get(hb, cb, h)
                    }) by {
                        lemma_assoc_get_update(hb, cb, i as int, (c + 1) as usize, h);
                    }
                }
            },
            None => {
                proof {
                    lemma_assoc_get_none(hb, cb, host@);
                }
                let ghost hv = host@;
                self.hosts.push(host.to_owned());
                self.counts.push(1);
                proof {
                    assert(self.hosts_view() =~~= hb.push(hv));
                    assert(self.counts@ =~= cb.push(1));
                    assert(self.hosts_view().no_duplicates()) by {
                        assert(forall|t: int|
                            0 <= t < hb.len() ==> #[trigger] hb.push(hv)[t] == hb[t]);
                        assert(hb.push(hv)[hb.len() as int] == hv);
                    }
                    assert forall|h: Seq<char>| true implies #[trigger] assoc_get(
                        self.hosts_view(),
                        self.counts@,
                        h,
                    ) == (match assoc_get(hb, cb, h) {
                        Some(x) => Some(x),
                        None => if h == hv {
                            Some(1usize)
                        } else {
                            None
                        },
                    }) by {
                        lemma_assoc_get_push(hb, cb, hv, 1usize, h);
                    }
                }
            },
        }
    }
}

} // verus!

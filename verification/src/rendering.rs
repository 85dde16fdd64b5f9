//! What stands behind a rendered page: the data handed to the template
//! and the time-bounded cache of finished renders.
use vstd::prelude::*;

pub mod collections;

use crate::consts;
use crate::strutil::str_eq;
use crate::strutil::strs_contain;
use crate::pomerium;

verus! {

/// Data shared by every rendered page.
#[derive(Debug)]
pub struct GlobalData {
    pub sign_out_url: String,
}

/// Everything the page template needs for one identity.
#[derive(Debug)]
pub struct UserDataRender {
    pub name: String,
    pub email: String,
    pub background: String,
    pub accessible_routes: Vec<crate::config::Route>,
}

/// One finished render and the moment it was stored, in seconds.
#[derive(Debug)]
pub struct RenderCacheItem {
    pub render: String,
    pub time: u64,
}

/// Mathematical image of a cache entry.
#[verifier::ext_equal]
pub struct CacheItemView {
    pub render: Seq<char>,
    pub time: u64,
}

/// The per-identity cache of rendered pages.
#[derive(Debug)]
pub struct RenderCache {
    pub dict: Vec<(String, RenderCacheItem)>,
}

/// The association list read as a map; a later entry for the same key
/// overrides an earlier one.
pub open spec fn cache_entries_map(s: Seq<(String, RenderCacheItem)>) -> Map<
    Seq<char>,
    CacheItemView,
>
    decreases s,
{
    if s.len() == 0 {
        Map::empty()
    } else {
        cache_entries_map(s.drop_last()).insert(
            s.last().0@,
            CacheItemView { render: s.last().1.render@, time: s.last().1.time },
        )
    }
}

pub proof fn lemma_cache_entries_map(s: Seq<(String, RenderCacheItem)>)
    ensures
        forall|k: Seq<char>|
            #[trigger] cache_entries_map(s).contains_key(k) <==> exists|i: int|
                0 <= i < s.len() && s[i].0@ == k,
        (forall|i: int, j: int| 0 <= i < j < s.len() ==> s[i].0@ != s[j].0@) ==> forall|i: int|
            0 <= i < s.len() ==> cache_entries_map(s)[#[trigger] s[i].0@] == (CacheItemView {
                render: s[i].1.render@,
                time: s[i].1.time,
            }),
    decreases s,
{
    if s.len() > 0 {
        lemma_cache_entries_map(s.drop_last());
        assert forall|k: Seq<char>|
            #[trigger] cache_entries_map(s).contains_key(k) implies exists|i: int|
            0 <= i < s.len() && s[i].0@ == k by {
            if s.last().0@ == k {
                assert(s[s.len() - 1].0@ == k);
            } else {
                assert(cache_entries_map(s.drop_last()).contains_key(k));
                let i = choose|i: int| 0 <= i < s.drop_last().len() && s.drop_last()[i].0@ == k;
                assert(s[i].0@ == k);
            }
        }
        assert forall|k: Seq<char>| (exists|i: int| 0 <= i < s.len() && s[i].0@ == k) implies
            cache_entries_map(s).contains_key(k) by {
            let i = choose|i: int| 0 <= i < s.len() && s[i].0@ == k;
            if i < s.len() - 1 {
                assert(s.drop_last()[i].0@ == k);
                assert(cache_entries_map(s.drop_last()).contains_key(k));
            } else {
                assert(s.last().0@ == k);
            }
        }
        if forall|i: int, j: int| 0 <= i < j < s.len() ==> s[i].0@ != s[j].0@ {
            assert forall|i: int, j: int|
                0 <= i < j < s.drop_last().len() implies s.drop_last()[i].0@ != s.drop_last()[j].0@ by {
                assert(s[i].0@ != s[j].0@);
            }
            assert forall|i: int| 0 <= i < s.len() implies cache_entries_map(s)[#[trigger] s[i].0@]
                == (CacheItemView { render: s[i].1.render@, time: s[i].1.time }) by {
                if i < s.len() - 1 {
                    assert(s[i].0@ != s[s.len() - 1].0@);
                    assert(s.drop_last()[i].0@ == s[i].0@);
                    assert(cache_entries_map(s.drop_last())[s.drop_last()[i].0@]
                        == (CacheItemView {
                        render: s.drop_last()[i].1.render@,
                        time: s.drop_last()[i].1.time,
                    }));
                }
            }
        }
    }
}

/// An entry is live at `now` when its timestamp is not in the future and
/// its age has not reached the maximum lifetime.
pub open spec fn live(it: CacheItemView, now: u64) -> bool {
    it.time <= now && now - it.time < consts::MAX_TIME
}

/// What the eviction sweep leaves of a cache: exactly the live entries.
pub open spec fn spec_sweep(m: Map<Seq<char>, CacheItemView>, now: u64) -> Map<
    Seq<char>,
    CacheItemView,
> {
    Map::new(|k: Seq<char>| m.contains_key(k) && live(m[k], now), |k: Seq<char>| m[k])
}

impl RenderCache {
    pub open spec fn view(&self) -> Map<Seq<char>, CacheItemView> {
        cache_entries_map(self.dict@)
    }

    /// No two entries share a key, so a linear scan agrees with the map.
    pub open spec fn wf(&self) -> bool {
        forall|i: int, j: int| 0 <= i < j < self.dict@.len() ==> self.dict@[i].0@ != self.dict@[j].0@
    }

    /// A cache with nothing stored yet.
    pub fn new() -> (r: Self)
        ensures
            r.wf(),
            r@ == Map::<Seq<char>, CacheItemView>::empty(),
    {
        RenderCache { dict: Vec::new() }
    }

    /// The render stored for this identity, if one is present; no age
    /// check happens here — staleness is the sweep's business alone.
    pub fn lookup(&self, email: &str) -> (r: Option<String>)
        requires
            self.wf(),
        ensures
            match r {
                Some(s) => self@.contains_key(email@) && s@ == self@[email@].render,
                None => !self@.contains_key(email@),
            },
    {
        proof {
            lemma_cache_entries_map(self.dict@);
        }
        let n = self.dict.len();
        #[verifier::loop_isolation(false)]
        for i in 0..n
            invariant
                forall|k: int| 0 <= k < i ==> self.dict@[k].0@ != email@,
        {
            if str_eq(self.dict[i].0.as_str(), email) {
                return Some(self.dict[i].1.render.clone());
            }
        }
        None
    }

    /// Stores a freshly rendered page for an identity, replacing any
    /// earlier entry for it.
    #[verifier::loop_isolation(false)]
    pub fn store(&mut self, email: String, render: String, now: u64)
        requires
            old(self).wf(),
        ensures
            final(self).wf(),
            final(self)@ == old(self)@.insert(
                email@,
                CacheItemView { render: render@, time: now },
            ),
    {
        let ghost orig = self.dict@;
        let mut kept: Vec<(String, RenderCacheItem)> = Vec::new();
        let n = self.dict.len();
        for i in 0..n
            invariant
                n == self.dict@.len(),
                self.dict@ == orig,
                forall|j: int| #![trigger kept@[j]] 0 <= j < kept@.len() ==> exists|l: int|
                    0 <= l < i && #[trigger] orig[l].0@ == kept@[j].0@,
                forall|i1: int, j1: int|
                    0 <= i1 < j1 < kept@.len() ==> kept@[i1].0@ != kept@[j1].0@,
                forall|j: int| #![auto] 0 <= j < kept@.len() ==> kept@[j].0@ != email@,
                cache_entries_map(kept@) =~= cache_entries_map(orig.take(i as int)).remove(email@),
        {
            let keep = !str_eq(self.dict[i].0.as_str(), email.as_str());
            proof {
                assert(orig.take(i + 1).drop_last() =~= orig.take(i as int));
            }
            if keep {
                let e = &self.dict[i];
                let ghost kb = kept@;
                kept.push((e.0.clone(), RenderCacheItem { render: e.1.render.clone(), time: e.1.time }));
                proof {
                    assert(kept@.drop_last() =~= kb);
                    assert forall|i1: int, j1: int|
                        0 <= i1 < j1 < kept@.len() implies kept@[i1].0@ != kept@[j1].0@ by {
                        if j1 == kept@.len() - 1 {
                            let l = choose|l: int| 0 <= l < i && orig[l].0@ == kept@[i1].0@;
                            assert(orig[l].0@ != orig[i as int].0@);
                        }
                    }
                    assert(cache_entries_map(kept@) =~= cache_entries_map(
                        orig.take(i + 1),
                    ).remove(email@));
                }
            } else {
                proof {
                    assert(cache_entries_map(kept@) =~= cache_entries_map(
                        orig.take(i + 1),
                    ).remove(email@));
                }
            }
        }
        proof {
            assert(orig.take(n as int) =~= orig);
            assert(cache_entries_map(kept@) =~= cache_entries_map(orig).remove(email@));
        }
        let ghost kb = kept@;
        kept.push((email, RenderCacheItem { render, time: now }));
        self.dict = kept;
        proof {
            assert(self.dict@.drop_last() =~= kb);
            assert(cache_entries_map(self.dict@) =~= old(self)@.insert(
                email@,
                CacheItemView { render: render@, time: now },
            ));
        }
    }

    /// The eviction sweep: removes every entry that is older than the
    /// maximum lifetime, and, conservatively, every entry whose timestamp
    /// lies in the future.
    #[verifier::loop_isolation(false)]
    pub fn clean_old(&mut self, now: u64)
        requires
            old(self).wf(),
        ensures
            final(self).wf(),
            final(self)@ == spec_sweep(old(self)@, now),
    {
        let ghost orig = self.dict@;
        proof {
            lemma_cache_entries_map(orig);
        }
        let mut kept: Vec<(String, RenderCacheItem)> = Vec::new();
        let n = self.dict.len();
        for i in 0..n
            invariant
                n == self.dict@.len(),
                self.dict@ == orig,
                forall|j: int| #![trigger kept@[j]] 0 <= j < kept@.len() ==> exists|l: int|
                    0 <= l < i && #[trigger] orig[l].0@ == kept@[j].0@,
                forall|i1: int, j1: int|
                    0 <= i1 < j1 < kept@.len() ==> kept@[i1].0@ != kept@[j1].0@,
                cache_entries_map(kept@) =~= spec_sweep(cache_entries_map(orig.take(i as int)), now),
        {
            let e = &self.dict[i];
            let keep = e.1.time <= now && now - e.1.time < consts::MAX_TIME;
            proof {
                assert(orig.take(i + 1).drop_last() =~= orig.take(i as int));
            }
            if keep {
                let ghost kb = kept@;
                kept.push((e.0.clone(), RenderCacheItem { render: e.1.render.clone(), time: e.1.time }));
                proof {
                    assert(kept@.drop_last() =~= kb);
                    assert forall|i1: int, j1: int|
                        0 <= i1 < j1 < kept@.len() implies kept@[i1].0@ != kept@[j1].0@ by {
                        if j1 == kept@.len() - 1 {
                            let l = choose|l: int| 0 <= l < i && orig[l].0@ == kept@[i1].0@;
                            assert(orig[l].0@ != orig[i as int].0@);
                        }
                    }
                    assert(cache_entries_map(kept@) =~= spec_sweep(
                        cache_entries_map(orig.take(i + 1)),
                        now,
                    ));
                }
            } else {
                proof {
                    assert(cache_entries_map(orig.take(i + 1)) =~= cache_entries_map(
                        orig.take(i as int),
                    ).insert(orig[i as int].0@, CacheItemView {
                        render: orig[i as int].1.render@,
                        time: orig[i as int].1.time,
                    }));
                    assert(!live(CacheItemView {
                        render: orig[i as int].1.render@,
                        time: orig[i as int].1.time,
                    }, now));
                    lemma_cache_entries_map(orig.take(i as int));
                    assert(!cache_entries_map(orig.take(i as int)).contains_key(
                        orig[i as int].0@,
                    )) by {
                        if cache_entries_map(orig.take(i as int)).contains_key(orig[i as int].0@) {
                            let l = choose|l: int|
                                0 <= l < orig.take(i as int).len() && orig.take(i as int)[l].0@
                                    == orig[i as int].0@;
                            assert(orig[l].0@ == orig[i as int].0@);
                        }
                    }
                    assert(cache_entries_map(kept@) =~= spec_sweep(
                        cache_entries_map(orig.take(i + 1)),
                        now,
                    ));
                }
            }
        }
        proof {
            assert(orig.take(n as int) =~= orig);
        }
        self.dict = kept;
    }
}

/// Every identity literal of the policy document, collected for the
/// per-identity table.
pub fn extract_emails(pomerium_data: &Vec<pomerium::Route>) -> (r: Vec<String>)
    ensures
        forall|e: Seq<char>|
            strs_contain(r@, e) <==> pomerium::routes_emails(
                pomerium::policy_routes_view(pomerium_data@),
            ).contains(e),
{
    let ghost views = pomerium::policy_routes_view(pomerium_data@);
    let mut h: Vec<String> = Vec::new();
    let n = pomerium_data.len();
    #[verifier::loop_isolation(false)]
    for i in 0..n
        invariant
            forall|e: Seq<char>|
                strs_contain(h@, e) <==> pomerium::routes_emails(views.take(i as int)).contains(e),
    {
        proof {
            assert(views[i as int] == pomerium_data@[i as int].view());
        }
        pomerium_data[i].policy.extract_emails(&mut h);
        proof {
            pomerium::lemma_routes_emails_take(views, i + 1);
        }
    }
    proof {
        assert(views.take(n as int) =~= views);
    }
    h
}

/// A page cached before its lifetime has elapsed is still there after a
/// sweep, unchanged.
pub proof fn lemma_cache_hit_before_expiry(
    m: Map<Seq<char>, CacheItemView>,
    email: Seq<char>,
    it: CacheItemView,
    now: u64,
)
    requires
        live(it, now),
    ensures
        spec_sweep(m.insert(email, it), now).contains_key(email),
        spec_sweep(m.insert(email, it), now)[email] == it,
{
}

/// A page whose lifetime has elapsed by the time of a sweep is gone
/// afterwards: the next lookup is a fresh miss.
pub proof fn lemma_cache_miss_after_expiry(
    m: Map<Seq<char>, CacheItemView>,
    email: Seq<char>,
    it: CacheItemView,
    now: u64,
)
    requires
        !live(it, now),
    ensures
        !spec_sweep(m.insert(email, it), now).contains_key(email),
{
}

} // verus!

use vstd::prelude::*;
use vstd::string::*;

use crate::auth::distinct_seq;
use crate::text::str_eq;

verus! {

/// The well-known port every Auth Service answers capability validation on.
pub const AUTH_PORT: u16 = 5052;

/// How many capability decisions the cache may hold at once.
pub const CACHE_CAPACITY: usize = 10000;

/// Seconds a cached decision survives without being consulted (idle expiry).
pub const CACHE_IDLE_SECONDS: u64 = 300;

/// Seconds a cached decision survives at most (absolute expiry).
pub const CACHE_LIFE_SECONDS: u64 = 3600;

/// One positive validation decision: this capability token was proved to
/// belong to this userid.
#[derive(Debug)]
pub struct CapEntry {
    pub stoken: String,
    pub userid: String,
    pub inserted_at: u64,
    pub last_used: u64,
}

/// The mathematical shape of a cache entry.
#[verifier::ext_equal]
pub ghost struct CapEntryView {
    pub stoken: Seq<char>,
    pub userid: Seq<char>,
    pub inserted_at: u64,
    pub last_used: u64,
}

impl View for CapEntry {
    type V = CapEntryView;

    open spec fn view(&self) -> CapEntryView {
        CapEntryView {
            stoken: self.stoken@,
            userid: self.userid@,
            inserted_at: self.inserted_at,
            last_used: self.last_used,
        }
    }
}

/// An entry still counts at `now`: inserted no more than an hour ago and
/// consulted no more than five minutes ago, with a clock that never ran
/// backwards past it.
pub open spec fn entry_live(e: CapEntryView, now: u64) -> bool {
    &&& e.inserted_at <= now < e.inserted_at + CACHE_LIFE_SECONDS
    &&& e.last_used <= now < e.last_used + CACHE_IDLE_SECONDS
}

/// Some live entry holds this capability token.
pub open spec fn has_live_entry(entries: Seq<CapEntryView>, stoken: Seq<char>, now: u64) -> bool {
    exists|i: int|
        0 <= i < entries.len() && entries[i].stoken == stoken && entry_live(entries[i], now)
}

/// The index of the live entry holding this capability token; meaningful
/// only when one exists (stokens are unique in a well-formed cache).
pub open spec fn live_entry_at(entries: Seq<CapEntryView>, stoken: Seq<char>, now: u64) -> int {
    choose|i: int|
        0 <= i < entries.len() && entries[i].stoken == stoken && entry_live(entries[i], now)
}

/// What consulting the cache for a capability yields.
#[derive(Debug)]
pub enum CapCheck {
    /// A live entry maps this token to the claimed userid.
    Valid,
    /// A live entry maps this token to a different userid: a substitution
    /// attempt, refused without asking anyone.
    Mismatch,
    /// Nothing live is known; the caller must ask the home Auth Service and
    /// report back through `record_validation`.
    Unknown,
}

/// The bounded, time-expiring cache of positive capability decisions held by
/// a chat server. Negative results are never cached, so revocation at the
/// Auth Service is seen after at most the expiry window.
pub struct CapCache {
    pub entries: Vec<CapEntry>,
}

impl View for CapCache {
    type V = Seq<CapEntryView>;

    open spec fn view(&self) -> Seq<CapEntryView> {
        Seq::new(self.entries@.len(), |i: int| self.entries@[i]@)
    }
}

/// The stokens of the entries, for uniqueness statements.
pub open spec fn cache_stokens(entries: Seq<CapEntryView>) -> Seq<Seq<char>> {
    entries.map_values(|e: CapEntryView| e.stoken)
}

impl CapCache {
    /// The cache invariant: bounded and with one entry per capability token.
    pub open spec fn wf(&self) -> bool {
        &&& self@.len() <= CACHE_CAPACITY
        &&& distinct_seq(cache_stokens(self@))
    }

    /// An empty cache.
    pub fn new() -> (r: CapCache)
        ensures
            r.wf(),
            r@.len() == 0,
    {
        CapCache { entries: Vec::new() }
    }

    /// The index of the entry holding this capability token, if any.
    fn find_entry(&self, stoken: &str) -> (r: Option<usize>)
        ensures
            match r {
                Some(i) => i < self@.len() && self@[i as int].stoken == stoken@,
                None => forall|i: int| 0 <= i < self@.len() ==> (#[trigger] self@[i]).stoken
                    != stoken@,
            },
    {
        let mut i: usize = 0;
        while i < self.entries.len()
            invariant
                i <= self@.len(),
                self@.len() == self.entries@.len(),
                forall|j: int| 0 <= j < i ==> (#[trigger] self@[j]).stoken != stoken@,
            decreases self.entries@.len() - i,
        {
            if str_eq(self.entries[i].stoken.as_str(), stoken) {
                return Some(i);
            }
            i = i + 1;
        }
        None
    }

    /// Consults the cache. A hit on the claimed userid refreshes the entry's
    /// idle clock and answers `Valid`; a hit on another userid answers
    /// `Mismatch`; anything else answers `Unknown` and leaves the cache
    /// unchanged.
    pub fn check(&mut self, stoken: &str, userid: &str, now: u64) -> (r: CapCheck)
        requires
            old(self).wf(),
        ensures
            final(self).wf(),
            match r {
                CapCheck::Valid => ({
                    let t = live_entry_at(old(self)@, stoken@, now);
                    &&& has_live_entry(old(self)@, stoken@, now)
                    &&& old(self)@[t].userid == userid@
                    &&& final(self)@ == old(self)@.update(
                        t,
                        CapEntryView { last_used: now, ..old(self)@[t] },
                    )
                }),
                CapCheck::Mismatch => has_live_entry(old(self)@, stoken@, now) && old(
                    self,
                )@[live_entry_at(old(self)@, stoken@, now)].userid != userid@ && final(self)@ == old(
                    self,
                )@,
                CapCheck::Unknown => !has_live_entry(old(self)@, stoken@, now) && final(self)@
                    == old(self)@,
            },
    {
        let idx = match self.find_entry(stoken) {
            Some(i) => i,
            None => {
                proof {
                    assert(!has_live_entry(self@, stoken@, now));
                }
                return CapCheck::Unknown;
            },
        };
        let live = {
            let e = &self.entries[idx];
            e.inserted_at <= now && now - e.inserted_at < CACHE_LIFE_SECONDS && e.last_used <= now
                && now - e.last_used < CACHE_IDLE_SECONDS
        };
        if !live {
            proof {
                assert forall|i: int|
                    0 <= i < self@.len() && (#[trigger] self@[i]).stoken == stoken@ implies !entry_live(
                    self@[i],
                    now,
                ) by {
                    lemma_cache_stoken_unique(self@, idx as int, i);
                }
            }
            return CapCheck::Unknown;
        }
        proof {
            lemma_live_entry_at(self@, stoken@, now, idx as int);
        }
        if str_eq(self.entries[idx].userid.as_str(), userid) {
            self.entries[idx].last_used = now;
            proof {
                assert(self@ =~= old(self)@.update(
                    idx as int,
                    CapEntryView { last_used: now, ..old(self)@[idx as int] },
                ));
                assert(cache_stokens(self@) =~= cache_stokens(old(self)@));
            }
            CapCheck::Valid
        } else {
            CapCheck::Mismatch
        }
    }

    /// Records what the home Auth Service answered. A positive answer enters
    /// the cache, replacing any stale entry for the same token and evicting
    /// the least recently used entry when full; a negative answer is not
    /// cached.
    pub fn record_validation(&mut self, stoken: &str, userid: &str, valid: bool, now: u64)
        requires
            old(self).wf(),
        ensures
            final(self).wf(),
            !valid ==> final(self)@ == old(self)@,
            valid ==> has_live_entry(final(self)@, stoken@, now) && final(self)@[live_entry_at(
                final(self)@,
                stoken@,
                now,
            )].userid == userid@,
    {
        if !valid {
            return ;
        }
        let fresh = CapEntry {
            stoken: stoken.to_owned(),
            userid: userid.to_owned(),
            inserted_at: now,
            last_used: now,
        };
        match self.find_entry(stoken) {
            Some(i) => {
                self.entries[i] = fresh;
                proof {
                    assert(self@ =~= old(self)@.update(i as int, fresh@));
                    // The replaced entry held this very token, so the token
                    // list is unchanged.
                    assert(cache_stokens(self@) =~= cache_stokens(old(self)@));
                    lemma_live_entry_at(self@, stoken@, now, i as int);
                }
            },
            None => {
                if self.entries.len() >= CACHE_CAPACITY {
                    let victim = self.least_recently_used();
                    let _evicted = self.entries.remove(victim);
                    proof {
                        assert(self@ =~= old(self)@.remove(victim as int));
                        lemma_cache_distinct_remove(old(self)@, victim as int);
                    }
                }
                let ghost pre = self@;
                self.entries.push(fresh);
                proof {
                    assert(self@ =~= pre.push(fresh@));
                    assert(cache_stokens(self@) =~= cache_stokens(pre).push(stoken@));
                    assert forall|p: int, q: int|
                        0 <= p < q < cache_stokens(self@).len() implies cache_stokens(self@)[p]
                        != cache_stokens(self@)[q] by {
                        if q < pre.len() {
                            assert(cache_stokens(pre)[p] != cache_stokens(pre)[q]);
                        }
                    }
                    lemma_live_entry_at(self@, stoken@, now, self@.len() - 1);
                }
            },
        }
    }

    /// The index of the entry least recently consulted; the cache must be
    /// non-empty.
    fn least_recently_used(&self) -> (r: usize)
        requires
            self@.len() > 0,
        ensures
            r < self@.len(),
    {
        let mut best: usize = 0;
        let mut i: usize = 1;
        while i < self.entries.len()
            invariant
                self@.len() == self.entries@.len(),
                best < self@.len(),
                i <= self@.len(),
            decreases self.entries@.len() - i,
        {
            if self.entries[i].last_used < self.entries[best].last_used {
                best = i;
            }
            i = i + 1;
        }
        best
    }
}

/// In a well-formed cache two distinct indexes never share a token, so any
/// index holding a token other than at `idx` differs from `idx`'s token.
proof fn lemma_cache_stoken_unique(entries: Seq<CapEntryView>, idx: int, other: int)
    requires
        distinct_seq(cache_stokens(entries)),
        0 <= idx < entries.len(),
        0 <= other < entries.len(),
        entries[other].stoken == entries[idx].stoken,
    ensures
        other == idx,
{
    if other != idx {
        if other < idx {
            assert(cache_stokens(entries)[other] != cache_stokens(entries)[idx]);
        } else {
            assert(cache_stokens(entries)[idx] != cache_stokens(entries)[other]);
        }
    }
}

/// Removal keeps the cache's tokens pairwise distinct.
proof fn lemma_cache_distinct_remove(entries: Seq<CapEntryView>, i: int)
    requires
        distinct_seq(cache_stokens(entries)),
        0 <= i < entries.len(),
    ensures
        distinct_seq(cache_stokens(entries.remove(i))),
{
    entries.remove_ensures(i);
    let t = entries.remove(i);
    assert forall|p: int, q: int|
        0 <= p < q < cache_stokens(t).len() implies cache_stokens(t)[p] != cache_stokens(t)[q] by {
        let p0 = if p < i {
            p
        } else {
            p + 1
        };
        let q0 = if q < i {
            q
        } else {
            q + 1
        };
        assert(t[p] == entries[p0]);
        assert(t[q] == entries[q0]);
        assert(cache_stokens(entries)[p0] != cache_stokens(entries)[q0]);
    }
}

/// With unique tokens, a live entry at `i` is the one `live_entry_at` names.
proof fn lemma_live_entry_at(entries: Seq<CapEntryView>, stoken: Seq<char>, now: u64, i: int)
    requires
        distinct_seq(cache_stokens(entries)),
        0 <= i < entries.len(),
        entries[i].stoken == stoken,
        entry_live(entries[i], now),
    ensures
        has_live_entry(entries, stoken, now),
        live_entry_at(entries, stoken, now) == i,
{
    assert(has_live_entry(entries, stoken, now));
    let j = live_entry_at(entries, stoken, now);
    lemma_cache_stoken_unique(entries, i, j);
}

} // verus!

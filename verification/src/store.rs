//! The ephemeral token store: a map from one-time token to user snapshot
//! with deadline-based eviction and at-most-once consumption.
//!
//! The store is an explicitly owned value; a caller that serves requests
//! concurrently guards it with one lock and performs each operation while
//! holding that lock, which makes the operations linearizable: the behavior
//! of any run is the behavior of some sequence of the model transitions
//! below. Time enters as an explicit instant (`now`, in seconds on
//! whatever clock the caller uses), so expiry needs no wall-clock sleeps:
//! a token is unavailable from its deadline on, whether or not the deferred
//! removal has run yet.

use vstd::prelude::*;
use crate::models::{User, UserView};
use crate::utils::str_eq;

verus! {

/// How long an issued token stays consumable: 15 minutes.
pub const TOKEN_TTL_SECONDS: u64 = 900;

/// What the store holds for one token: the user snapshot and the deadline
/// from which the token no longer authenticates.
pub ghost struct StoredToken {
    pub user: UserView,
    pub expires_at: u64,
}

struct TokenEntry {
    token: String,
    user: User,
    expires_at: u64,
}

/// The concurrent-safe ephemeral token store.
pub struct TokenStore {
    entries: Vec<TokenEntry>,
}

/// The store after issuing `tok` for `user`: the binding is added, and any
/// previous binding of the same token is superseded.
pub open spec fn issue_model(
    m: Map<Seq<char>, StoredToken>,
    tok: Seq<char>,
    user: UserView,
    expires_at: u64,
) -> Map<Seq<char>, StoredToken> {
    m.insert(tok, StoredToken { user, expires_at })
}

/// What `consume` returns at instant `now`: the stored user exactly when
/// the token is present and not yet expired.
pub open spec fn consume_result(
    m: Map<Seq<char>, StoredToken>,
    tok: Seq<char>,
    now: u64,
) -> Option<UserView> {
    if m.contains_key(tok) && now < m[tok].expires_at {
        Some(m[tok].user)
    } else {
        None
    }
}

/// The store after `consume`: the token is gone, whether the consumption
/// returned the user or found the token already expired.
pub open spec fn consume_model(
    m: Map<Seq<char>, StoredToken>,
    tok: Seq<char>,
    now: u64,
) -> Map<Seq<char>, StoredToken> {
    m.remove(tok)
}

/// The store after the deferred expiry of `tok` runs at instant `now`: the
/// token is removed exactly when it is present and its deadline has passed.
/// A token consumed (or reissued) meanwhile is left alone.
pub open spec fn expire_model(
    m: Map<Seq<char>, StoredToken>,
    tok: Seq<char>,
    now: u64,
) -> Map<Seq<char>, StoredToken> {
    if m.contains_key(tok) && m[tok].expires_at <= now {
        m.remove(tok)
    } else {
        m
    }
}

/// The view of an optional user.
pub open spec fn opt_user_view(o: Option<User>) -> Option<UserView> {
    match o {
        Some(u) => Some(u@),
        None => None,
    }
}

spec fn stored_of(e: TokenEntry) -> StoredToken {
    StoredToken { user: e.user@, expires_at: e.expires_at }
}

spec fn entries_map(s: Seq<TokenEntry>) -> Map<Seq<char>, StoredToken>
    decreases s.len(),
{
    if s.len() == 0 {
        Map::empty()
    } else {
        entries_map(s.drop_last()).insert(s.last().token@, stored_of(s.last()))
    }
}

spec fn tokens_distinct(s: Seq<TokenEntry>) -> bool {
    forall|i: int, j: int| 0 <= i < j < s.len() ==> s[i].token@ != s[j].token@
}

proof fn lemma_entries_map_domain(s: Seq<TokenEntry>, k: Seq<char>)
    ensures
        entries_map(s).contains_key(k) <==> exists|i: int| 0 <= i < s.len() && s[i].token@ == k,
    decreases s.len(),
{
    if s.len() == 0 {
    } else {
        lemma_entries_map_domain(s.drop_last(), k);
        if s.last().token@ == k {
            assert(s[s.len() - 1].token@ == k);
        } else if entries_map(s).contains_key(k) {
            let i = choose|i: int| 0 <= i < s.drop_last().len() && s.drop_last()[i].token@ == k;
            assert(s[i].token@ == k);
        } else if exists|i: int| 0 <= i < s.len() && s[i].token@ == k {
            let i = choose|i: int| 0 <= i < s.len() && s[i].token@ == k;
            assert(s.drop_last()[i].token@ == k);
        }
    }
}

proof fn lemma_entries_map_at(s: Seq<TokenEntry>, i: int)
    requires
        tokens_distinct(s),
        0 <= i < s.len(),
    ensures
        entries_map(s).contains_key(s[i].token@),
        entries_map(s)[s[i].token@] == stored_of(s[i]),
    decreases s.len(),
{
    if i == s.len() - 1 {
    } else {
        assert(tokens_distinct(s.drop_last()));
        assert(s.drop_last()[i] == s[i]);
        lemma_entries_map_at(s.drop_last(), i);
        assert(s[i].token@ != s.last().token@);
    }
}

proof fn lemma_entries_map_remove(s: Seq<TokenEntry>, i: int)
    requires
        tokens_distinct(s),
        0 <= i < s.len(),
    ensures
        entries_map(s.remove(i)) == entries_map(s).remove(s[i].token@),
    decreases s.len(),
{
    let k = s[i].token@;
    if i == s.len() - 1 {
        assert(s.remove(i) =~= s.drop_last());
        lemma_entries_map_domain(s.drop_last(), k);
        assert(forall|j: int|
            0 <= j < s.drop_last().len() ==> s.drop_last()[j] == s[j] && s[j].token@ != k);
        assert(!entries_map(s.drop_last()).contains_key(k));
        assert(entries_map(s.drop_last()) =~= entries_map(s).remove(k));
    } else {
        assert(tokens_distinct(s.drop_last()));
        assert(s.drop_last()[i] == s[i]);
        lemma_entries_map_remove(s.drop_last(), i);
        assert(s.remove(i).drop_last() =~= s.drop_last().remove(i));
        assert(s.remove(i).last() == s.last());
        assert(s.last().token@ != k);
        assert(entries_map(s.remove(i)) == entries_map(s.drop_last().remove(i)).insert(
            s.last().token@,
            stored_of(s.last()),
        ));
        assert(entries_map(s.remove(i)) =~= entries_map(s).remove(k));
    }
}

proof fn lemma_entries_map_push(s: Seq<TokenEntry>, e: TokenEntry)
    ensures
        entries_map(s.push(e)) == entries_map(s).insert(e.token@, stored_of(e)),
{
    assert(s.push(e).drop_last() =~= s);
    assert(s.push(e).last() == e);
}

impl TokenStore {
    /// The store's mathematical value: which user and deadline each live
    /// token is bound to.
    pub closed spec fn view(&self) -> Map<Seq<char>, StoredToken> {
        entries_map(self.entries@)
    }

    /// The store's internal invariant: map keys are unique at any instant.
    pub closed spec fn well_formed(&self) -> bool {
        tokens_distinct(self.entries@)
    }

    /// An empty store.
    pub fn new() -> (r: TokenStore)
        ensures
            r.well_formed(),
            r@ == Map::<Seq<char>, StoredToken>::empty(),
    {
        TokenStore { entries: Vec::new() }
    }

    fn find(&self, token: &str) -> (r: Option<usize>)
        ensures
            match r {
                Some(i) => i < self.entries@.len() && self.entries@[i as int].token@ == token@,
                None => forall|j: int|
                    0 <= j < self.entries@.len() ==> self.entries@[j].token@ != token@,
            },
    {
        let mut i: usize = 0;
        while i < self.entries.len()
            invariant
                i <= self.entries@.len(),
                forall|j: int| 0 <= j < i ==> self.entries@[j].token@ != token@,
            decreases self.entries@.len() - i,
        {
            if str_eq(self.entries[i].token.as_str(), token) {
                return Some(i);
            }
            i = i + 1;
        }
        None
    }

    /// Binds `token` to a snapshot of `user` until `expires_at`. A binding
    /// for an already-present token (vanishingly unlikely for random
    /// tokens) is superseded rather than duplicated, so keys stay unique.
    pub fn issue(&mut self, token: String, user: User, expires_at: u64)
        requires
            old(self).well_formed(),
        ensures
            final(self).well_formed(),
            final(self)@ == issue_model(old(self)@, token@, user@, expires_at),
    {
        match self.find(token.as_str()) {
            Some(i) => {
                proof {
                    lemma_entries_map_remove(self.entries@, i as int);
                }
                self.entries.remove(i);
                proof {
                    assert(forall|a: int, b: int|
                        0 <= a < b < self.entries@.len() ==> self.entries@[a].token@
                            != self.entries@[b].token@) by {
                        assert(forall|a: int|
                            0 <= a < self.entries@.len() ==> self.entries@[a]
                                == if a < i { old(self).entries@[a] } else {
                                old(self).entries@[a + 1]
                            });
                    }
                    assert(forall|j: int|
                        0 <= j < self.entries@.len() ==> self.entries@[j].token@ != token@) by {
                        assert(forall|a: int|
                            0 <= a < self.entries@.len() ==> self.entries@[a]
                                == if a < i { old(self).entries@[a] } else {
                                old(self).entries@[a + 1]
                            });
                    }
                }
                let ghost mid = self.entries@;
                let e = TokenEntry { token, user, expires_at };
                let ghost ev = e;
                self.entries.push(e);
                proof {
                    lemma_entries_map_push(mid, ev);
                    assert(entries_map(mid).insert(ev.token@, stored_of(ev)) =~= issue_model(
                        old(self)@,
                        ev.token@,
                        ev.user@,
                        expires_at,
                    ));
                }
            },
            None => {
                let ghost mid = self.entries@;
                let e = TokenEntry { token, user, expires_at };
                let ghost ev = e;
                self.entries.push(e);
                proof {
                    lemma_entries_map_push(mid, ev);
                }
            },
        }
    }

    /// Atomically removes and returns the binding of `token`, in one
    /// indivisible step under the caller's lock. Returns the user exactly
    /// when the token was present and unexpired at `now`; an unknown,
    /// already-consumed, or expired token yields absence, not an error.
    pub fn consume(&mut self, token: &str, now: u64) -> (r: Option<User>)
        requires
            old(self).well_formed(),
        ensures
            final(self).well_formed(),
            final(self)@ == consume_model(old(self)@, token@, now),
            opt_user_view(r) == consume_result(old(self)@, token@, now),
    {
        match self.find(token) {
            Some(i) => {
                proof {
                    lemma_entries_map_at(self.entries@, i as int);
                    lemma_entries_map_remove(self.entries@, i as int);
                }
                let e = self.entries.remove(i);
                proof {
                    assert(forall|a: int, b: int|
                        0 <= a < b < self.entries@.len() ==> self.entries@[a].token@
                            != self.entries@[b].token@) by {
                        assert(forall|a: int|
                            0 <= a < self.entries@.len() ==> self.entries@[a]
                                == if a < i { old(self).entries@[a] } else {
                                old(self).entries@[a + 1]
                            });
                    }
                }
                if now < e.expires_at {
                    Some(e.user)
                } else {
                    None
                }
            },
            None => {
                proof {
                    lemma_entries_map_domain(self.entries@, token@);
                    assert(self@ =~= consume_model(old(self)@, token@, now));
                }
                None
            },
        }
    }

    /// The deferred removal armed at issuance: drops `token` exactly when
    /// it is still present and its deadline has passed. A consume racing
    /// this removal resolves under the caller's lock: one of the two
    /// removes the binding and the other observes absence and is a no-op.
    pub fn expire(&mut self, token: &str, now: u64)
        requires
            old(self).well_formed(),
        ensures
            final(self).well_formed(),
            final(self)@ == expire_model(old(self)@, token@, now),
    {
        match self.find(token) {
            Some(i) => {
                proof {
                    lemma_entries_map_at(self.entries@, i as int);
                }
                if self.entries[i].expires_at <= now {
                    proof {
                        lemma_entries_map_remove(self.entries@, i as int);
                    }
                    self.entries.remove(i);
                    proof {
                        assert(forall|a: int, b: int|
                            0 <= a < b < self.entries@.len() ==> self.entries@[a].token@
                                != self.entries@[b].token@) by {
                            assert(forall|a: int|
                                0 <= a < self.entries@.len() ==> self.entries@[a]
                                    == if a < i { old(self).entries@[a] } else {
                                    old(self).entries@[a + 1]
                                });
                        }
                    }
                }
            },
            None => {
                proof {
                    lemma_entries_map_domain(self.entries@, token@);
                }
            },
        }
    }
}

/// A token issued for a user and consumed before its deadline yields that
/// user, and the store then no longer holds the token.
pub proof fn lemma_issue_then_consume(
    m: Map<Seq<char>, StoredToken>,
    tok: Seq<char>,
    user: UserView,
    expires_at: u64,
    now: u64,
)
    requires
        now < expires_at,
    ensures
        consume_result(issue_model(m, tok, user, expires_at), tok, now) == Some(user),
        !consume_model(issue_model(m, tok, user, expires_at), tok, now).contains_key(tok),
{
}

/// Once a token has been consumed — successfully or not — every further
/// consumption of it returns absent.
pub proof fn lemma_consume_at_most_once(
    m: Map<Seq<char>, StoredToken>,
    tok: Seq<char>,
    now1: u64,
    now2: u64,
)
    ensures
        consume_result(consume_model(m, tok, now1), tok, now2) is None,
{
}

/// A token whose deadline has passed can no longer be consumed, whether or
/// not its deferred removal has run.
pub proof fn lemma_expired_token_unavailable(
    m: Map<Seq<char>, StoredToken>,
    tok: Seq<char>,
    t: u64,
    now: u64,
)
    requires
        m.contains_key(tok) ==> m[tok].expires_at <= now,
    ensures
        consume_result(m, tok, now) is None,
        consume_result(expire_model(m, tok, t), tok, now) is None,
{
}

/// How many of a linearized sequence of `consume` calls on one token
/// succeed: the calls happen in order, the `i`-th at instant `times[i]`.
pub open spec fn consume_count(
    m: Map<Seq<char>, StoredToken>,
    tok: Seq<char>,
    times: Seq<u64>,
) -> nat
    decreases times.len(),
{
    if times.len() == 0 {
        0
    } else {
        (if consume_result(m, tok, times[0]) is Some {
            1nat
        } else {
            0nat
        }) + consume_count(consume_model(m, tok, times[0]), tok, times.skip(1))
    }
}

proof fn lemma_consume_count_absent(m: Map<Seq<char>, StoredToken>, tok: Seq<char>, times: Seq<u64>)
    requires
        !m.contains_key(tok),
    ensures
        consume_count(m, tok, times) == 0,
    decreases times.len(),
{
    if times.len() > 0 {
        lemma_consume_count_absent(consume_model(m, tok, times[0]), tok, times.skip(1));
    }
}

/// Of any number of concurrent `consume` calls on the same token —
/// linearized by the caller's lock into calls at instants `times` — at
/// most one succeeds; and exactly one does when the token is live at the
/// first call. All the others observe absence.
pub proof fn lemma_concurrent_consume_once(
    m: Map<Seq<char>, StoredToken>,
    tok: Seq<char>,
    times: Seq<u64>,
)
    ensures
        consume_count(m, tok, times) <= 1,
        times.len() > 0 && m.contains_key(tok) && times[0] < m[tok].expires_at ==> consume_count(
            m,
            tok,
            times,
        ) == 1,
{
    if times.len() > 0 {
        lemma_consume_count_absent(consume_model(m, tok, times[0]), tok, times.skip(1));
    }
}

} // verus!

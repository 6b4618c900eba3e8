//! The session store: a key → entry mapping with unique keys, the pure
//! entry-update rules (inbound metadata, last-route, reset), and the
//! TTL-cached `Store` that mirrors one durable JSON document.  Reading and
//! writing that document on disk, under its file lock, happens outside the
//! library; the codec that frames it is in `codec`.

use vstd::prelude::*;

verus! {

use vstd::string::StringExecFns;
use crate::sessions::{
    CtxModel, DeliveryContext, EntryModel, SessionEntry, SessionInfoResponse, dup_opt,
    generate_session_id, current_timestamp, opt_view,
};
use crate::strutil::str_eq;

/// Errors a store operation can surface.  In-memory operations never fail;
/// the variants carry filesystem and locking failures in from the caller
/// that performs the I/O, and out through `update`'s transform.
#[derive(Debug)]
pub enum StoreError {
    Io(String),
    LockTimeout,
}

impl StoreError {
    /// A human-readable description of the error.
    pub fn message(&self) -> (r: String)
        ensures
            *self matches StoreError::Io(m) ==> r@ == "store I/O error: "@ + m@,
            *self is LockTimeout ==> r@ == "store lock timed out"@,
    {
        match self {
            StoreError::Io(m) => String::from_str("store I/O error: ").concat(m.as_str()),
            StoreError::LockTimeout => String::from_str("store lock timed out"),
        }
    }
}

/// Well-formedness of one persisted entry: its timestamp is non-negative.
pub open spec fn wf_entry(e: EntryModel) -> bool {
    0 <= e.updated_at <= i64::MAX
}

/// The mapping a sequence of key/entry pairs denotes, later pairs winning.
pub open spec fn map_of_pairs(s: Seq<(String, SessionEntry)>) -> Map<Seq<char>, EntryModel>
    decreases s.len(),
{
    if s.len() == 0 {
        Map::empty()
    } else {
        map_of_pairs(s.drop_last()).insert(s.last().0@, s.last().1@)
    }
}

/// The session mapping: key/entry pairs with pairwise-distinct keys.
pub struct SessionMap {
    pub entries: Vec<(String, SessionEntry)>,
}

impl View for SessionMap {
    type V = Map<Seq<char>, EntryModel>;

    open spec fn view(&self) -> Map<Seq<char>, EntryModel> {
        map_of_pairs(self.entries@)
    }
}

pub open spec fn unique_keys(s: Seq<(String, SessionEntry)>) -> bool {
    forall|i: int, j: int| 0 <= i < j < s.len() ==> s[i].0@ != s[j].0@
}

impl SessionMap {
    /// Well-formedness: keys are pairwise distinct and every entry is
    /// well-formed.
    pub open spec fn wf(&self) -> bool {
        &&& unique_keys(self.entries@)
        &&& forall|i: int| 0 <= i < self.entries@.len() ==> wf_entry(#[trigger] self.entries@[i].1@)
    }

    pub fn new() -> (r: SessionMap)
        ensures
            r.wf(),
            r@ == Map::<Seq<char>, EntryModel>::empty(),
            r.entries@.len() == 0,
    {
        SessionMap { entries: Vec::new() }
    }

    /// The index holding a key, if any.
    pub fn find_index(&self, key: &str) -> (r: Option<usize>)
        requires
            self.wf(),
        ensures
            match r {
                Some(i) => {
                    &&& i < self.entries@.len()
                    &&& self.entries@[i as int].0@ == key@
                    &&& self@.contains_key(key@)
                    &&& self@[key@] == self.entries@[i as int].1@
                },
                None => !self@.contains_key(key@) && forall|k: int|
                    0 <= k < self.entries@.len() ==> self.entries@[k].0@ != key@,
            },
    {
        let n = self.entries.len();
        let mut i: usize = 0;
        while i < n
            invariant
                self.wf(),
                n == self.entries@.len(),
                0 <= i <= n,
                forall|k: int| 0 <= k < i ==> self.entries@[k].0@ != key@,
            decreases n - i,
        {
            if str_eq(self.entries[i].0.as_str(), key) {
                proof {
                    lemma_map_of_pairs_index(self.entries@, i as int);
                }
                return Some(i);
            }
            i += 1;
        }
        proof {
            lemma_map_of_pairs_absent(self.entries@, key@);
        }
        None
    }

    /// The entry stored under a key, if any.
    pub fn get(&self, key: &str) -> (r: Option<&SessionEntry>)
        requires
            self.wf(),
        ensures
            match r {
                Some(e) => self@.contains_key(key@) && e@ == self@[key@],
                None => !self@.contains_key(key@),
            },
    {
        match self.find_index(key) {
            Some(i) => Some(&self.entries[i].1),
            None => None,
        }
    }

    /// Inserts or replaces the entry under a key.
    pub fn upsert(&mut self, key: &str, entry: SessionEntry)
        requires
            old(self).wf(),
            wf_entry(entry@),
        ensures
            final(self).wf(),
            final(self)@ == old(self)@.insert(key@, entry@),
    {
        let ghost ks: Seq<char> = key@;
        match self.find_index(key) {
            Some(i) => {
                let pair = (String::from_str(key), entry);
                proof {
                    lemma_map_of_pairs_set(self.entries@, i as int, pair);
                }
                self.entries.set(i, pair);
                proof {
                    assert(final(self)@ =~= old(self)@.insert(ks, entry@));
                    assert(forall|k: int| 0 <= k < self.entries@.len()
                        ==> wf_entry(#[trigger] self.entries@[k].1@)) by {
                        assert(forall|k: int| 0 <= k < self.entries@.len() && k != i
                            ==> self.entries@[k] == old(self).entries@[k]);
                    }
                }
            },
            None => {
                let pair = (String::from_str(key), entry);
                self.entries.push(pair);
                proof {
                    assert(self.entries@.drop_last() =~= old(self).entries@);
                    assert(final(self)@ =~= old(self)@.insert(ks, entry@));
                    assert(forall|k: int| 0 <= k < old(self).entries@.len()
                        ==> self.entries@[k] == old(self).entries@[k]);
                    assert(unique_keys(self.entries@));
                    assert(forall|k: int| 0 <= k < self.entries@.len()
                        ==> wf_entry(#[trigger] self.entries@[k].1@));
                }
            },
        }
    }

    /// A pairwise copy: same keys, same entries, same order.
    pub fn duplicate(&self) -> (r: SessionMap)
        ensures
            r.entries@.len() == self.entries@.len(),
            forall|i: int| 0 <= i < self.entries@.len() ==> #[trigger] r.entries@[i].0@
                == self.entries@[i].0@ && r.entries@[i].1@ == self.entries@[i].1@,
            r@ == self@,
            self.wf() ==> r.wf(),
    {
        let n = self.entries.len();
        let mut out: Vec<(String, SessionEntry)> = Vec::new();
        let mut i: usize = 0;
        while i < n
            invariant
                n == self.entries@.len(),
                0 <= i <= n,
                out@.len() == i,
                forall|k: int| 0 <= k < i ==> #[trigger] out@[k].0@ == self.entries@[k].0@
                    && out@[k].1@ == self.entries@[k].1@,
            decreases n - i,
        {
            let key = self.entries[i].0.clone();
            let entry = self.entries[i].1.duplicate();
            out.push((key, entry));
            i += 1;
        }
        let r = SessionMap { entries: out };
        proof {
            lemma_map_of_pairs_congruence(r.entries@, self.entries@);
        }
        r
    }
}

pub proof fn lemma_map_of_pairs_index(s: Seq<(String, SessionEntry)>, i: int)
    requires
        unique_keys(s),
        0 <= i < s.len(),
    ensures
        map_of_pairs(s).contains_key(s[i].0@),
        map_of_pairs(s)[s[i].0@] == s[i].1@,
    decreases s.len(),
{
    if i == s.len() - 1 {
    } else {
        lemma_map_of_pairs_index(s.drop_last(), i);
        assert(s.last().0@ != s[i].0@);
    }
}

pub proof fn lemma_map_of_pairs_absent(s: Seq<(String, SessionEntry)>, k: Seq<char>)
    requires
        forall|i: int| 0 <= i < s.len() ==> s[i].0@ != k,
    ensures
        !map_of_pairs(s).contains_key(k),
    decreases s.len(),
{
    if s.len() > 0 {
        lemma_map_of_pairs_absent(s.drop_last(), k);
    }
}

/// Replacing the pair at an index whose key is unchanged updates the
/// denoted mapping at that key alone.
pub proof fn lemma_map_of_pairs_set(s: Seq<(String, SessionEntry)>, i: int, p: (String, SessionEntry))
    requires
        unique_keys(s),
        0 <= i < s.len(),
        p.0@ == s[i].0@,
    ensures
        map_of_pairs(s.update(i, p)) =~= map_of_pairs(s).insert(p.0@, p.1@),
        unique_keys(s.update(i, p)),
    decreases s.len(),
{
    let t = s.update(i, p);
    if i == s.len() - 1 {
        assert(t.drop_last() =~= s.drop_last());
        assert(t.last() == p);
    } else {
        lemma_map_of_pairs_set(s.drop_last(), i, p);
        assert(t.drop_last() =~= s.drop_last().update(i, p));
        assert(t.last() == s.last());
        assert(s.last().0@ != p.0@);
    }
}

/// Two pairwise view-equal pair sequences denote the same mapping.
pub proof fn lemma_map_of_pairs_congruence(a: Seq<(String, SessionEntry)>, b: Seq<(String, SessionEntry)>)
    requires
        a.len() == b.len(),
        forall|i: int| 0 <= i < a.len() ==> #[trigger] a[i].0@ == b[i].0@ && a[i].1@ == b[i].1@,
    ensures
        map_of_pairs(a) == map_of_pairs(b),
        unique_keys(b) ==> unique_keys(a),
    decreases a.len(),
{
    if a.len() > 0 {
        lemma_map_of_pairs_congruence(a.drop_last(), b.drop_last());
        assert(map_of_pairs(a) =~= map_of_pairs(b));
    } else {
        assert(map_of_pairs(a) =~= map_of_pairs(b));
    }
}

/// The entry a reset installs: a fresh session id and a cleared history.
pub open spec fn apply_reset_spec(fresh_id: Seq<char>, now: int) -> EntryModel {
    EntryModel {
        session_id: fresh_id,
        updated_at: clamp_time(now),
        session_file: None,
        delivery_context: None,
        last_channel: None,
        last_to: None,
        last_account_id: None,
        last_thread_id: None,
        webhook_message_id: None,
        webhook_session_id: None,
    }
}

/// Timestamps below zero are clamped so stored times stay non-negative.
pub open spec fn clamp_time(now: int) -> int {
    if now < 0 {
        0
    } else if now > i64::MAX {
        i64::MAX as int
    } else {
        now
    }
}

/// The monotone timestamp bump: never moves backwards even if the clock
/// does.
pub open spec fn bump_time(prev: int, now: int) -> int {
    if clamp_time(now) > prev {
        clamp_time(now)
    } else {
        prev
    }
}

/// What recording inbound metadata does to an entry: keep (or freshly
/// create) the session id, bump the timestamp monotonically, replace the
/// delivery context and route fields wholesale, and remember the inbound
/// message id.
pub open spec fn apply_inbound_meta_spec(
    existing: Option<EntryModel>,
    message_id: Seq<char>,
    ctx: CtxModel,
    now: int,
    fresh_id: Seq<char>,
) -> EntryModel {
    let base = match existing {
        Some(e) => e,
        None => apply_reset_spec(fresh_id, now),
    };
    EntryModel {
        session_id: base.session_id,
        updated_at: bump_time(base.updated_at, now),
        session_file: base.session_file,
        delivery_context: Some(ctx),
        last_channel: ctx.channel,
        last_to: ctx.to,
        last_account_id: ctx.account_id,
        last_thread_id: ctx.thread_id,
        webhook_message_id: Some(message_id),
        webhook_session_id: base.webhook_session_id,
    }
}

/// What a narrow last-route update does to an entry: bump the timestamp and
/// overwrite exactly the route fields present in the context, preserving
/// the rest.
pub open spec fn apply_last_route_spec(
    existing: Option<EntryModel>,
    ctx: CtxModel,
    now: int,
    fresh_id: Seq<char>,
) -> EntryModel {
    let base = match existing {
        Some(e) => e,
        None => apply_reset_spec(fresh_id, now),
    };
    EntryModel {
        session_id: base.session_id,
        updated_at: bump_time(base.updated_at, now),
        session_file: base.session_file,
        delivery_context: base.delivery_context,
        last_channel: if ctx.channel is Some {
            ctx.channel
        } else {
            base.last_channel
        },
        last_to: if ctx.to is Some {
            ctx.to
        } else {
            base.last_to
        },
        last_account_id: if ctx.account_id is Some {
            ctx.account_id
        } else {
            base.last_account_id
        },
        last_thread_id: if ctx.thread_id is Some {
            ctx.thread_id
        } else {
            base.last_thread_id
        },
        webhook_message_id: base.webhook_message_id,
        webhook_session_id: base.webhook_session_id,
    }
}

pub open spec fn opt_entry_model(e: Option<&SessionEntry>) -> Option<EntryModel> {
    match e {
        Some(e) => Some(e@),
        None => None,
    }
}

/// Clamps a wall-clock reading into the stored timestamp range.
pub fn clamp_time_exec(now: i64) -> (r: i64)
    ensures
        r as int == clamp_time(now as int),
{
    if now < 0 {
        0
    } else {
        now
    }
}

/// Builds the entry a reset installs.
pub fn fresh_session_entry(fresh_id: String, now: i64) -> (r: SessionEntry)
    ensures
        r@ == apply_reset_spec(fresh_id@, now as int),
{
    SessionEntry {
        session_id: fresh_id,
        updated_at: clamp_time_exec(now),
        session_file: None,
        delivery_context: None,
        last_channel: None,
        last_to: None,
        last_account_id: None,
        last_thread_id: None,
        webhook_message_id: None,
        webhook_session_id: None,
    }
}

/// Applies the inbound-metadata update rule to one entry.
pub fn apply_inbound_meta(
    existing: Option<&SessionEntry>,
    message_id: &str,
    delivery_ctx: &DeliveryContext,
    now: i64,
    fresh_id: String,
) -> (r: SessionEntry)
    ensures
        r@ == apply_inbound_meta_spec(
            opt_entry_model(existing),
            message_id@,
            delivery_ctx@,
            now as int,
            fresh_id@,
        ),
{
    let base = match existing {
        Some(e) => e.duplicate(),
        None => fresh_session_entry(fresh_id, now),
    };
    let bumped = clamp_time_exec(now);
    SessionEntry {
        session_id: base.session_id,
        updated_at: if bumped > base.updated_at {
            bumped
        } else {
            base.updated_at
        },
        session_file: base.session_file,
        delivery_context: Some(delivery_ctx.duplicate()),
        last_channel: dup_opt(&delivery_ctx.channel),
        last_to: dup_opt(&delivery_ctx.to),
        last_account_id: dup_opt(&delivery_ctx.account_id),
        last_thread_id: dup_opt(&delivery_ctx.thread_id),
        webhook_message_id: Some(String::from_str(message_id)),
        webhook_session_id: base.webhook_session_id,
    }
}

/// Applies the last-route update rule to one entry.
pub fn apply_last_route(
    existing: Option<&SessionEntry>,
    delivery_ctx: &DeliveryContext,
    now: i64,
    fresh_id: String,
) -> (r: SessionEntry)
    ensures
        r@ == apply_last_route_spec(
            opt_entry_model(existing),
            delivery_ctx@,
            now as int,
            fresh_id@,
        ),
{
    let base = match existing {
        Some(e) => e.duplicate(),
        None => fresh_session_entry(fresh_id, now),
    };
    let bumped = clamp_time_exec(now);
    SessionEntry {
        session_id: base.session_id,
        updated_at: if bumped > base.updated_at {
            bumped
        } else {
            base.updated_at
        },
        session_file: base.session_file,
        delivery_context: base.delivery_context,
        last_channel: match &delivery_ctx.channel {
            Some(c) => Some(c.clone()),
            None => base.last_channel,
        },
        last_to: match &delivery_ctx.to {
            Some(t) => Some(t.clone()),
            None => base.last_to,
        },
        last_account_id: match &delivery_ctx.account_id {
            Some(a) => Some(a.clone()),
            None => base.last_account_id,
        },
        last_thread_id: match &delivery_ctx.thread_id {
            Some(t) => Some(t.clone()),
            None => base.last_thread_id,
        },
        webhook_message_id: base.webhook_message_id,
        webhook_session_id: base.webhook_session_id,
    }
}

/// Configuration of one store: the durable document's path and the cache
/// and lock bounds, in milliseconds.
pub struct StoreConfig {
    pub store_path: String,
    pub cache_ttl_ms: i64,
    pub lock_timeout_ms: i64,
}

impl StoreConfig {
    /// The default configuration: a 45 s cache TTL and a 10 s lock timeout.
    pub fn new(store_path: String) -> (r: StoreConfig)
        ensures
            r.store_path@ == store_path@,
            r.cache_ttl_ms == 45000,
            r.lock_timeout_ms == 10000,
    {
        StoreConfig { store_path, cache_ttl_ms: 45000, lock_timeout_ms: 10000 }
    }
}

/// The session store: a TTL-cached mirror of the durable mapping.  The
/// caller that owns the file refreshes the cache through `needs_reload` and
/// `install`, and persists `to_persist` snapshots after mutations.
pub struct Store {
    pub config: StoreConfig,
    pub cache: SessionMap,
    pub cache_loaded_at: i64,
    pub cache_primed: bool,
}

impl View for Store {
    type V = Map<Seq<char>, EntryModel>;

    open spec fn view(&self) -> Map<Seq<char>, EntryModel> {
        self.cache@
    }
}

impl Store {
    pub open spec fn wf(&self) -> bool {
        &&& self.cache.wf()
        &&& 0 <= self.cache_loaded_at
        &&& 0 <= self.config.cache_ttl_ms
    }

    pub fn new(config: StoreConfig) -> (r: Store)
        requires
            0 <= config.cache_ttl_ms,
        ensures
            r.wf(),
            r@ == Map::<Seq<char>, EntryModel>::empty(),
            !r.cache_primed,
            r.config == config,
    {
        Store { config, cache: SessionMap::new(), cache_loaded_at: 0, cache_primed: false }
    }

    /// Whether the cached snapshot is younger than the TTL.
    pub open spec fn cache_fresh_spec(&self, now: int) -> bool {
        &&& self.cache_primed
        &&& self.cache_loaded_at <= now
        &&& now - self.cache_loaded_at < self.config.cache_ttl_ms
    }

    /// Whether a load must go to disk: the cache was never primed or its
    /// snapshot is older than the TTL.
    pub fn needs_reload(&self, now: i64) -> (r: bool)
        requires
            self.wf(),
        ensures
            r == !self.cache_fresh_spec(now as int),
    {
        !(self.cache_primed && self.cache_loaded_at <= now
            && now - self.cache_loaded_at < self.config.cache_ttl_ms)
    }

    /// Installs a freshly read mapping as the cached snapshot.
    pub fn install(&mut self, data: SessionMap, now: i64)
        requires
            old(self).wf(),
            data.wf(),
        ensures
            final(self).wf(),
            final(self)@ == data@,
            final(self).cache_primed,
            final(self).config == old(self).config,
            final(self).cache_loaded_at as int == clamp_time(now as int),
    {
        self.cache = data;
        self.cache_loaded_at = clamp_time_exec(now);
        self.cache_primed = true;
    }

    /// The cached mapping, as the original `load` returned it.  The caller
    /// refreshes the cache first when `needs_reload` says so.
    pub fn load(&self) -> (r: SessionMap)
        requires
            self.wf(),
        ensures
            r.wf(),
            r@ == self@,
    {
        self.cache.duplicate()
    }

    /// A snapshot of the cached mapping for persisting.
    pub fn to_persist(&self) -> (r: SessionMap)
        requires
            self.wf(),
        ensures
            r.wf(),
            r@ == self@,
    {
        self.cache.duplicate()
    }

    /// The entry stored under a key, if any.
    pub fn get_entry(&self, key: &str) -> (r: Option<SessionEntry>)
        requires
            self.wf(),
        ensures
            match r {
                Some(e) => self@.contains_key(key@) && e@ == self@[key@],
                None => !self@.contains_key(key@),
            },
    {
        match self.cache.get(key) {
            Some(e) => Some(e.duplicate()),
            None => None,
        }
    }

    /// Applies a transform to a snapshot of the mapping and installs its
    /// result.  The transform's own contract carries over: on success the
    /// new mapping is one the transform could have returned for a snapshot
    /// of the old one.
    pub fn update<F: FnOnce(SessionMap) -> Result<SessionMap, StoreError>>(&mut self, f: F) -> (r:
        Result<(), StoreError>)
        requires
            old(self).wf(),
            forall|m: SessionMap| m.wf() ==> #[trigger] call_requires(f, (m,)),
            forall|m: SessionMap, m2: SessionMap|
                #[trigger] call_ensures(f, (m,), Ok(m2)) ==> m2.wf(),
        ensures
            final(self).wf(),
            final(self).config == old(self).config,
            match r {
                Ok(u) => exists|m: SessionMap, m2: SessionMap|
                    {
                        &&& m@ == old(self)@
                        &&& #[trigger] call_ensures(f, (m,), Ok(m2))
                        &&& final(self)@ == m2@
                    },
                Err(e) => final(self)@ == old(self)@ && exists|m: SessionMap|
                    m@ == old(self)@ && #[trigger] call_ensures(f, (m,), Err(e)),
            },
    {
        let snapshot = self.cache.duplicate();
        match f(snapshot) {
            Ok(m2) => {
                self.cache = m2;
                Ok(())
            },
            Err(e) => Err(e),
        }
    }

    /// Applies a transform to the entry under a key (or to its absence) and
    /// upserts the returned replacement, which is also returned.
    pub fn update_entry<F: FnOnce(Option<SessionEntry>) -> Result<SessionEntry, StoreError>>(
        &mut self,
        key: &str,
        f: F,
    ) -> (r: Result<SessionEntry, StoreError>)
        requires
            old(self).wf(),
            forall|arg: Option<SessionEntry>| #[trigger] call_requires(f, (arg,)),
            forall|arg: Option<SessionEntry>, res: SessionEntry|
                #[trigger] call_ensures(f, (arg,), Ok(res)) ==> wf_entry(res@),
        ensures
            final(self).wf(),
            final(self).config == old(self).config,
            match r {
                Ok(e) => {
                    &&& final(self)@ == old(self)@.insert(key@, e@)
                    &&& exists|arg: Option<SessionEntry>, res: SessionEntry|
                        {
                            &&& opt_entry_model_of(arg) == (if old(self)@.contains_key(key@) {
                                Some(old(self)@[key@])
                            } else {
                                None::<EntryModel>
                            })
                            &&& #[trigger] call_ensures(f, (arg,), Ok(res))
                            &&& res@ == e@
                        }
                },
                Err(err) => final(self)@ == old(self)@ && exists|arg: Option<SessionEntry>|
                    {
                        &&& opt_entry_model_of(arg) == (if old(self)@.contains_key(key@) {
                            Some(old(self)@[key@])
                        } else {
                            None::<EntryModel>
                        })
                        &&& #[trigger] call_ensures(f, (arg,), Err(err))
                    },
            },
    {
        let existing = match self.cache.get(key) {
            Some(e) => Some(e.duplicate()),
            None => None,
        };
        match f(existing) {
            Ok(entry) => {
                let out = entry.duplicate();
                self.cache.upsert(key, entry);
                Ok(out)
            },
            Err(e) => Err(e),
        }
    }

    /// Upserts an entry for an inbound message: keeps (or freshly creates)
    /// the session id, bumps the timestamp monotonically, replaces the
    /// delivery context and route fields, and records the message id.
    pub fn record_inbound_meta(
        &mut self,
        session_key: &str,
        message_id: &str,
        delivery_ctx: &DeliveryContext,
    ) -> (r: SessionEntry)
        requires
            old(self).wf(),
        ensures
            final(self).wf(),
            final(self).config == old(self).config,
            final(self)@ == old(self)@.insert(session_key@, r@),
            wf_entry(r@),
            old(self)@.contains_key(session_key@) ==> {
                &&& r@.session_id == old(self)@[session_key@].session_id
                &&& r@.updated_at >= old(self)@[session_key@].updated_at
                &&& r@.session_file == old(self)@[session_key@].session_file
                &&& r@.webhook_session_id == old(self)@[session_key@].webhook_session_id
            },
            !old(self)@.contains_key(session_key@) ==> {
                &&& r@.session_id.len() == 36
                &&& r@.session_file is None
                &&& r@.webhook_session_id is None
            },
            r@.webhook_message_id == Some(message_id@),
            r@.delivery_context == Some(delivery_ctx@),
            r@.last_channel == delivery_ctx@.channel,
            r@.last_to == delivery_ctx@.to,
            r@.last_account_id == delivery_ctx@.account_id,
            r@.last_thread_id == delivery_ctx@.thread_id,
    {
        let now = current_timestamp();
        let fresh_id = generate_session_id();
        let entry = match self.cache.find_index(session_key) {
            Some(i) => apply_inbound_meta(
                Some(&self.cache.entries[i].1),
                message_id,
                delivery_ctx,
                now,
                fresh_id,
            ),
            None => apply_inbound_meta(None, message_id, delivery_ctx, now, fresh_id),
        };
        let out = entry.duplicate();
        self.cache.upsert(session_key, entry);
        out
    }

    /// Upserts an entry overwriting exactly the route fields present in the
    /// context, preserving everything else.
    pub fn update_last_route(
        &mut self,
        session_key: &str,
        delivery_ctx: &DeliveryContext,
    ) -> (r: SessionEntry)
        requires
            old(self).wf(),
        ensures
            final(self).wf(),
            final(self).config == old(self).config,
            final(self)@ == old(self)@.insert(session_key@, r@),
            wf_entry(r@),
            old(self)@.contains_key(session_key@) ==> {
                &&& r@.session_id == old(self)@[session_key@].session_id
                &&& r@.updated_at >= old(self)@[session_key@].updated_at
                &&& r@.delivery_context == old(self)@[session_key@].delivery_context
                &&& r@.webhook_message_id == old(self)@[session_key@].webhook_message_id
                &&& (delivery_ctx@.channel is None ==> r@.last_channel == old(self)@[session_key@].last_channel)
                &&& (delivery_ctx@.to is None ==> r@.last_to == old(self)@[session_key@].last_to)
                &&& (delivery_ctx@.account_id is None ==> r@.last_account_id == old(self)@[session_key@].last_account_id)
                &&& (delivery_ctx@.thread_id is None ==> r@.last_thread_id == old(self)@[session_key@].last_thread_id)
            },
            delivery_ctx@.channel is Some ==> r@.last_channel == delivery_ctx@.channel,
            delivery_ctx@.to is Some ==> r@.last_to == delivery_ctx@.to,
            delivery_ctx@.account_id is Some ==> r@.last_account_id == delivery_ctx@.account_id,
            delivery_ctx@.thread_id is Some ==> r@.last_thread_id == delivery_ctx@.thread_id,
            !old(self)@.contains_key(session_key@) ==> r@.session_id.len() == 36,
    {
        let now = current_timestamp();
        let fresh_id = generate_session_id();
        let entry = match self.cache.find_index(session_key) {
            Some(i) => apply_last_route(
                Some(&self.cache.entries[i].1),
                delivery_ctx,
                now,
                fresh_id,
            ),
            None => apply_last_route(None, delivery_ctx, now, fresh_id),
        };
        let out = entry.duplicate();
        self.cache.upsert(session_key, entry);
        out
    }

    /// Replaces the entry under a key with a fresh one: a new session id
    /// and a cleared route history, discarding prior continuity.
    pub fn reset_entry(&mut self, session_key: &str) -> (r: SessionEntry)
        requires
            old(self).wf(),
        ensures
            final(self).wf(),
            final(self).config == old(self).config,
            final(self)@ == old(self)@.insert(session_key@, r@),
            wf_entry(r@),
            r@.session_id.len() == 36,
            r@.delivery_context is None,
            r@.last_channel is None,
            r@.last_to is None,
            r@.webhook_message_id is None,
            exists|fresh: Seq<char>, now: int| r@ == apply_reset_spec(fresh, now),
    {
        let now = current_timestamp();
        let fresh_id = generate_session_id();
        let entry = fresh_session_entry(fresh_id, now);
        let out = entry.duplicate();
        self.cache.upsert(session_key, entry);
        out
    }

    /// Summaries of every session, in storage order, for a list response.
    pub fn list_sessions(&self) -> (r: Vec<SessionInfoResponse>)
        requires
            self.wf(),
        ensures
            r@.len() == self.cache.entries@.len(),
            forall|i: int| 0 <= i < r@.len() ==> {
                &&& #[trigger] r@[i].key@ == self.cache.entries@[i].0@
                &&& r@[i].session_id@ == self.cache.entries@[i].1@.session_id
                &&& r@[i].updated_at as int == self.cache.entries@[i].1@.updated_at
                &&& (match r@[i].delivery_context {
                    Some(c) => Some(c@),
                    None => None,
                }) == self.cache.entries@[i].1@.delivery_context
                &&& opt_view(r@[i].last_channel) == self.cache.entries@[i].1@.last_channel
                &&& opt_view(r@[i].last_to) == self.cache.entries@[i].1@.last_to
            },
    {
        let n = self.cache.entries.len();
        let mut out: Vec<SessionInfoResponse> = Vec::new();
        let mut i: usize = 0;
        while i < n
            invariant
                self.wf(),
                n == self.cache.entries@.len(),
                0 <= i <= n,
                out@.len() == i,
                forall|k: int| 0 <= k < i ==> {
                    &&& #[trigger] out@[k].key@ == self.cache.entries@[k].0@
                    &&& out@[k].session_id@ == self.cache.entries@[k].1@.session_id
                    &&& out@[k].updated_at as int == self.cache.entries@[k].1@.updated_at
                    &&& (match out@[k].delivery_context {
                        Some(c) => Some(c@),
                        None => None,
                    }) == self.cache.entries@[k].1@.delivery_context
                    &&& opt_view(out@[k].last_channel) == self.cache.entries@[k].1@.last_channel
                    &&& opt_view(out@[k].last_to) == self.cache.entries@[k].1@.last_to
                },
            decreases n - i,
        {
            let pair = &self.cache.entries[i];
            let e = &pair.1;
            out.push(SessionInfoResponse {
                key: pair.0.clone(),
                session_id: e.session_id.clone(),
                updated_at: e.updated_at,
                delivery_context: match &e.delivery_context {
                    Some(c) => Some(c.duplicate()),
                    None => None,
                },
                last_channel: dup_opt(&e.last_channel),
                last_to: dup_opt(&e.last_to),
            });
            i += 1;
        }
        out
    }
}

pub open spec fn opt_entry_model_of(e: Option<SessionEntry>) -> Option<EntryModel> {
    match e {
        Some(e) => Some(e@),
        None => None,
    }
}

/// Law: recording inbound metadata never moves a key's timestamp backwards
/// and never changes its session id — for every clock reading and fresh id.
pub proof fn lemma_inbound_meta_monotone(
    prior: EntryModel,
    message_id: Seq<char>,
    ctx: CtxModel,
    now: int,
    fresh_id: Seq<char>,
)
    ensures
        apply_inbound_meta_spec(Some(prior), message_id, ctx, now, fresh_id).updated_at
            >= prior.updated_at,
        apply_inbound_meta_spec(Some(prior), message_id, ctx, now, fresh_id).session_id
            == prior.session_id,
{
}

/// Law: a reset followed by recording inbound metadata yields the fresh
/// session id, so it differs from every id the key held before the reset,
/// provided the freshly generated id is indeed new.
pub proof fn lemma_reset_then_record_changes_id(
    prior_id: Seq<char>,
    fresh_id: Seq<char>,
    reset_now: int,
    message_id: Seq<char>,
    ctx: CtxModel,
    now: int,
    later_fresh: Seq<char>,
)
    requires
        fresh_id != prior_id,
    ensures
        apply_inbound_meta_spec(
            Some(apply_reset_spec(fresh_id, reset_now)),
            message_id,
            ctx,
            now,
            later_fresh,
        ).session_id == fresh_id,
        apply_inbound_meta_spec(
            Some(apply_reset_spec(fresh_id, reset_now)),
            message_id,
            ctx,
            now,
            later_fresh,
        ).session_id != prior_id,
{
}

/// Law: consecutive resets install distinct session ids whenever the
/// freshly generated ids are distinct.
pub proof fn lemma_consecutive_resets_distinct(
    id1: Seq<char>,
    id2: Seq<char>,
    now1: int,
    now2: int,
)
    requires
        id1 != id2,
    ensures
        apply_reset_spec(id1, now1).session_id != apply_reset_spec(id2, now2).session_id,
{
}

} // verus!

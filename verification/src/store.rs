//! The token-to-path store: each entry binds a token to a real path and an
//! expiry instant. Expired entries are pruned lazily, on insertion only;
//! a colliding token is silently overwritten by the later insertion.

use vstd::prelude::*;
use vstd::string::StrSliceExecFns;
use crate::token::{generate_hash, token_of};

verus! {

/// Seconds a mapping stays valid after insertion.
pub const TOKEN_TTL_SECS: u64 = 3600;

/// One token-to-path binding with its expiry instant (seconds since the
/// Unix epoch).
pub struct Mapping {
    pub token: String,
    pub path: String,
    pub expiry: u64,
}

/// The mathematical image of one mapping: (token, path, expiry).
pub type MappingModel = (Seq<char>, Seq<char>, u64);

impl Mapping {
    pub open spec fn model(&self) -> MappingModel {
        (self.token@, self.path@, self.expiry)
    }
}

/// The path and expiry bound to `token`, if any: the first entry whose
/// token matches.
pub open spec fn spec_lookup(entries: Seq<MappingModel>, token: Seq<char>) -> Option<
    (Seq<char>, u64),
>
    decreases entries.len(),
{
    if entries.len() == 0 {
        None
    } else if entries.first().0 == token {
        Some((entries.first().1, entries.first().2))
    } else {
        spec_lookup(entries.drop_first(), token)
    }
}

/// What resolving `token` at time `now` yields: the bound path while
/// `now` is strictly before the expiry, absent otherwise.
pub open spec fn spec_resolve(
    entries: Seq<MappingModel>,
    token: Seq<char>,
    now: u64,
) -> Option<Seq<char>> {
    match spec_lookup(entries, token) {
        Some((path, expiry)) => if expiry > now {
            Some(path)
        } else {
            None
        },
        None => None,
    }
}

/// Whether an entry survives the insertion-time prune at time `now` with a
/// fresh token `token`: it is unexpired and not displaced by the new token.
pub open spec fn keeps(e: MappingModel, now: u64, token: Seq<char>) -> bool {
    e.2 > now && e.0 != token
}

/// The entries that survive the insertion-time prune, in their old order.
pub open spec fn spec_prune(
    entries: Seq<MappingModel>,
    now: u64,
    token: Seq<char>,
) -> Seq<MappingModel>
    decreases entries.len(),
{
    if entries.len() == 0 {
        Seq::<MappingModel>::empty()
    } else {
        let rest = spec_prune(entries.drop_last(), now, token);
        if keeps(entries.last(), now, token) {
            rest + seq![entries.last()]
        } else {
            rest
        }
    }
}

/// Every pruned entry survived for a reason: it is unexpired and does not
/// carry the freshly inserted token.
pub proof fn lemma_prune_live(entries: Seq<MappingModel>, now: u64, token: Seq<char>)
    ensures
        forall|i: int|
            0 <= i < spec_prune(entries, now, token).len() ==> keeps(
                #[trigger] spec_prune(entries, now, token)[i],
                now,
                token,
            ),
    decreases entries.len(),
{
    if entries.len() > 0 {
        lemma_prune_live(entries.drop_last(), now, token);
        let rest = spec_prune(entries.drop_last(), now, token);
        let all = spec_prune(entries, now, token);
        assert forall|i: int| 0 <= i < all.len() implies keeps(all[i], now, token) by {
            if keeps(entries.last(), now, token) {
                if i < rest.len() {
                    assert(all[i] == rest[i]);
                } else {
                    assert(all[i] == entries.last());
                }
            } else {
                assert(all[i] == rest[i]);
            }
        }
    }
}

/// The store after inserting `path` at time `now` under `token`: the
/// surviving old entries followed by the new binding.
pub open spec fn spec_insert(
    entries: Seq<MappingModel>,
    token: Seq<char>,
    path: Seq<char>,
    now: u64,
) -> Seq<MappingModel> {
    spec_prune(entries, now, token) + seq![(token, path, (now + TOKEN_TTL_SECS) as u64)]
}

/// Looking a token up past entries that do not carry it lands in the rest
/// of the store.
proof fn lemma_lookup_append_miss(s1: Seq<MappingModel>, s2: Seq<MappingModel>, token: Seq<char>)
    requires
        forall|i: int| 0 <= i < s1.len() ==> #[trigger] s1[i].0 != token,
    ensures
        spec_lookup(s1 + s2, token) == spec_lookup(s2, token),
    decreases s1.len(),
{
    if s1.len() == 0 {
        assert(s1 + s2 =~= s2);
    } else {
        assert((s1 + s2).drop_first() =~= s1.drop_first() + s2);
        lemma_lookup_append_miss(s1.drop_first(), s2, token);
    }
}

/// Law: immediately after an insertion, resolving the returned token at
/// the insertion instant yields exactly the inserted path.
pub proof fn lemma_resolve_after_insert(
    entries: Seq<MappingModel>,
    token: Seq<char>,
    path: Seq<char>,
    now: u64,
)
    requires
        now + TOKEN_TTL_SECS <= u64::MAX,
    ensures
        spec_resolve(spec_insert(entries, token, path, now), token, now) == Some(path),
{
    lemma_prune_live(entries, now, token);
    lemma_lookup_append_miss(
        spec_prune(entries, now, token),
        seq![(token, path, (now + TOKEN_TTL_SECS) as u64)],
        token,
    );
}

/// Law: once the current time has reached the insertion time plus
/// `TOKEN_TTL_SECS`, the token inserted then no longer resolves.
pub proof fn lemma_resolve_expired(
    entries: Seq<MappingModel>,
    token: Seq<char>,
    path: Seq<char>,
    now: u64,
    later: u64,
)
    requires
        now + TOKEN_TTL_SECS <= u64::MAX,
        later >= now + TOKEN_TTL_SECS,
    ensures
        spec_resolve(spec_insert(entries, token, path, now), token, later) is None,
{
    lemma_prune_live(entries, now, token);
    lemma_lookup_append_miss(
        spec_prune(entries, now, token),
        seq![(token, path, (now + TOKEN_TTL_SECS) as u64)],
        token,
    );
}

/// Law: an insertion leaves no expired entry behind; the store holds only
/// entries live at the insertion instant, the new binding among them.
pub proof fn lemma_insert_all_live(
    entries: Seq<MappingModel>,
    token: Seq<char>,
    path: Seq<char>,
    now: u64,
)
    requires
        now + TOKEN_TTL_SECS <= u64::MAX,
    ensures
        forall|i: int|
            0 <= i < spec_insert(entries, token, path, now).len() ==> #[trigger] spec_insert(
                entries,
                token,
                path,
                now,
            )[i].2 > now,
{
    lemma_prune_live(entries, now, token);
}

/// The in-memory token map.
pub struct HashStore {
    pub mappings: Vec<Mapping>,
}

impl View for HashStore {
    type V = Seq<MappingModel>;

    open spec fn view(&self) -> Seq<MappingModel> {
        self.mappings@.map_values(|m: Mapping| m.model())
    }
}

impl HashStore {
    /// An empty store.
    pub fn new() -> (r: Self)
        ensures
            r@ == Seq::<MappingModel>::empty(),
    {
        let r = Self { mappings: Vec::new() };
        proof {
            assert(r@ =~= Seq::<MappingModel>::empty());
        }
        r
    }

    /// Prunes every entry that has expired or carries `token`, then binds
    /// `token` to `real_path` until `now_secs + TOKEN_TTL_SECS`.
    fn insert_pruned(&mut self, token: String, real_path: String, now_secs: u64)
        requires
            now_secs + TOKEN_TTL_SECS <= u64::MAX,
        ensures
            final(self)@ == spec_insert(old(self)@, token@, real_path@, now_secs),
    {
        let mut kept: Vec<Mapping> = Vec::new();
        let mut i: usize = 0;
        proof {
            assert(old(self)@.subrange(0, 0).len() == 0);
            assert(kept@.map_values(|m: Mapping| m.model()) =~= spec_prune(
                old(self)@.subrange(0, 0),
                now_secs,
                token@,
            ));
        }
        while i < self.mappings.len()
            invariant
                i <= self.mappings.len(),
                self == old(self),
                kept@.map_values(|m: Mapping| m.model()) == spec_prune(
                    self@.subrange(0, i as int),
                    now_secs,
                    token@,
                ),
            decreases self.mappings.len() - i,
        {
            let ghost prefix = self@.subrange(0, i as int);
            let m = &self.mappings[i];
            if m.expiry > now_secs && !streq(m.token.as_str(), token.as_str()) {
                kept.push(Mapping {
                    token: m.token.clone(),
                    path: m.path.clone(),
                    expiry: m.expiry,
                });
            }
            i = i + 1;
            proof {
                assert(self@.subrange(0, i as int).drop_last() =~= prefix);
                assert(self@.subrange(0, i as int).last() == self@[i - 1]);
                assert(kept@.map_values(|m: Mapping| m.model()) =~= spec_prune(
                    self@.subrange(0, i as int),
                    now_secs,
                    token@,
                ));
            }
        }
        proof {
            assert(self@.subrange(0, self@.len() as int) =~= self@);
        }
        let ghost tokv = token@;
        let ghost pathv = real_path@;
        let expiry = now_secs + TOKEN_TTL_SECS;
        kept.push(Mapping { token, path: real_path, expiry });
        proof {
            assert(kept@.map_values(|m: Mapping| m.model()) =~= spec_insert(
                self@,
                tokv,
                pathv,
                now_secs,
            ));
        }
        self.mappings = kept;
    }

    /// Inserts `real_path` at time `now_secs` (seconds) salted with
    /// `now_nanos` (nanoseconds), after pruning every expired entry, and
    /// returns the token. A token collision silently overwrites the older
    /// binding; every retained entry is unexpired at `now_secs`.
    pub fn add_mapping(&mut self, real_path: String, now_secs: u64, now_nanos: u128) -> (r:
        String)
        requires
            now_secs + TOKEN_TTL_SECS <= u64::MAX,
        ensures
            r@ == token_of(real_path@, now_nanos as nat),
            r@.len() == 8,
            final(self)@ == spec_insert(old(self)@, r@, real_path@, now_secs),
            forall|i: int|
                0 <= i < final(self)@.len() ==> #[trigger] final(self)@[i].2 > now_secs,
    {
        let token = generate_hash(real_path.as_str(), now_nanos);
        self.insert_pruned(token.clone(), real_path, now_secs);
        proof {
            lemma_prune_live(old(self)@, now_secs, token@);
        }
        token
    }

    /// Returns the path bound to `hash` if that binding is still valid at
    /// `now_secs`; absent for an unknown or expired token. Expired entries
    /// are left in place: reads never prune.
    pub fn get_real_path(&self, hash: &str, now_secs: u64) -> (r: Option<String>)
        ensures
            match r {
                Some(p) => spec_resolve(self@, hash@, now_secs) == Some(p@),
                None => spec_resolve(self@, hash@, now_secs) is None,
            },
    {
        let mut i: usize = 0;
        proof {
            assert(self@.skip(0) =~= self@);
        }
        while i < self.mappings.len()
            invariant
                i <= self.mappings.len(),
                spec_lookup(self@, hash@) == spec_lookup(self@.skip(i as int), hash@),
            decreases self.mappings.len() - i,
        {
            let m = &self.mappings[i];
            proof {
                assert(self@.skip(i as int).first() == self@[i as int]);
                assert(self@.skip(i as int).drop_first() =~= self@.skip(i + 1));
            }
            if streq(m.token.as_str(), hash) {
                if m.expiry > now_secs {
                    return Some(m.path.clone());
                } else {
                    return None;
                }
            }
            i = i + 1;
        }
        proof {
            assert(self@.skip(self@.len() as int) =~= Seq::<MappingModel>::empty());
        }
        None
    }
}

/// Character-by-character string equality.
pub fn streq(a: &str, b: &str) -> (r: bool)
    ensures
        r == (a@ == b@),
{
    let n = a.unicode_len();
    if n != b.unicode_len() {
        proof {
            assert(a@ != b@);
        }
        return false;
    }
    let mut i: usize = 0;
    while i < n
        invariant
            i <= n,
            n == a@.len(),
            n == b@.len(),
            forall|j: int| 0 <= j < i ==> a@[j] == b@[j],
        decreases n - i,
    {
        if a.get_char(i) != b.get_char(i) {
            return false;
        }
        i = i + 1;
    }
    proof {
        assert(a@ =~= b@);
    }
    true
}

} // verus!

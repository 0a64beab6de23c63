use vstd::prelude::*;

use crate::address::{canonical, is_address_encoding, lemma_canonical_symmetric, sort_pair, AddressKey};
use crate::guard::{EmergencyGuard, GuardModel};
use crate::host::{pair_salt, pair_salt_spec};
use crate::pause::{lemma_query_after_set, lemma_set_leaves_other_operations, PauseType};
use crate::registry::PairRegistry;

verus! {

/// Errors that the factory's entry points return.
#[derive(Clone, Copy, Debug, PartialEq, Eq, PartialOrd, Ord, Structural)]
pub enum Error {
    AlreadyInitialized,
    Unauthorized,
    Paused,
}

/// Why a pair cannot be created; the contract aborts with [`CreatePairError::message`].
#[derive(Clone, Copy, Debug, PartialEq, Eq, Structural)]
pub enum CreatePairError {
    /// Pair creation is paused by the emergency guard.
    Paused,
    /// A pool for this pair of tokens exists already.
    PairExists,
}

impl CreatePairError {
    /// The text with which the contract aborts.
    pub fn message(&self) -> (r: &'static str)
        ensures
            *self == CreatePairError::Paused ==> r@ == "Pair creation is paused"@,
            *self == CreatePairError::PairExists ==> r@ == "Pair already exists"@,
    {
        match self {
            CreatePairError::Paused => "Pair creation is paused",
            CreatePairError::PairExists => "Pair already exists",
        }
    }
}

/// Storage keys of the factory.
pub enum DataKey {
    /// The pool of a token pair, the tokens in stored order.
    Pair(AddressKey, AddressKey),
    /// The factory's admin.
    Admin,
}

impl DataKey {
    /// The key under which the pool of the tokens `a` and `b` is stored,
    /// whatever their order.
    pub fn pair(a: AddressKey, b: AddressKey) -> (r: DataKey)
        ensures
            r matches DataKey::Pair(t0, t1) && (t0@, t1@) == canonical(a@, b@),
    {
        let (t0, t1) = sort_pair(a, b);
        DataKey::Pair(t0, t1)
    }
}

/// What the factory holds: its admin, its guard and the registered pools.
pub struct FactoryModel {
    pub admin: Option<Seq<u8>>,
    pub guard: GuardModel,
    pub pairs: Map<(Seq<u8>, Seq<u8>), Seq<u8>>,
}

/// The pool registered for the tokens `a` and `b`, in either order.
pub open spec fn pair_lookup(pairs: Map<(Seq<u8>, Seq<u8>), Seq<u8>>, a: Seq<u8>, b: Seq<u8>) -> Option<Seq<u8>> {
    if pairs.contains_key(canonical(a, b)) {
        Some(pairs[canonical(a, b)])
    } else {
        None
    }
}

/// The outcome of setting the factory up with `admin`.
pub open spec fn initialize_outcome(m: FactoryModel, admin: Seq<u8>) -> Result<FactoryModel, Error> {
    if m.admin is Some {
        Err(Error::AlreadyInitialized)
    } else if m.guard.initialized {
        Err(Error::Unauthorized)
    } else {
        Ok(FactoryModel {
            admin: Some(admin),
            guard: GuardModel { initialized: true, admins: seq![admin], threshold: 1, paused: m.guard.paused },
            pairs: m.pairs,
        })
    }
}

/// Why the tokens `a` and `b` cannot get a pool, if they cannot.
pub open spec fn create_refusal(m: FactoryModel, a: Seq<u8>, b: Seq<u8>) -> Option<CreatePairError> {
    if PauseType::paused_in(m.guard.paused, PauseType::CREATE_PAIR) {
        Some(CreatePairError::Paused)
    } else if m.pairs.contains_key(canonical(a, b)) {
        Some(CreatePairError::PairExists)
    } else {
        None
    }
}

/// The outcome of registering `pool` for the tokens `a` and `b`.
pub open spec fn create_outcome(m: FactoryModel, a: Seq<u8>, b: Seq<u8>, pool: Seq<u8>) -> Result<FactoryModel, CreatePairError> {
    match create_refusal(m, a, b) {
        Some(e) => Err(e),
        None => Ok(FactoryModel { pairs: m.pairs.insert(canonical(a, b), pool), ..m }),
    }
}

/// The outcome of `admin` pausing or resuming the operations of `operation`.
pub open spec fn set_pause_outcome(m: FactoryModel, admin: Seq<u8>, operation: u32, paused: bool) -> Result<FactoryModel, Error> {
    if !m.guard.admins.contains(admin) {
        Err(Error::Unauthorized)
    } else {
        Ok(FactoryModel {
            guard: GuardModel { paused: PauseType::set_in(m.guard.paused, operation, paused), ..m.guard },
            ..m
        })
    }
}

/// What checking the tokens `a` and `b` before a deployment gives: the
/// refusal, or the tokens in stored order and the salt of their pool.
pub open spec fn plan_matches(
    m: FactoryModel,
    a: Seq<u8>,
    b: Seq<u8>,
    r: Result<(AddressKey, AddressKey, Vec<u8>), CreatePairError>,
) -> bool {
    match create_refusal(m, a, b) {
        Some(e) => r matches Err(e2) && e2 == e,
        None => r matches Ok(p) && (p.0@, p.1@) == canonical(a, b) && p.2@ == pair_salt_spec(p.0@, p.1@)
            && p.2@.len() == 32,
    }
}

/// The factory of liquidity pools: one pool per unordered pair of tokens,
/// pair creation guarded by the emergency guard.
pub struct LiquidityPoolFactory {
    admin: Option<AddressKey>,
    guard: EmergencyGuard,
    pairs: PairRegistry,
}

pub open spec fn key_opt_view(k: Option<AddressKey>) -> Option<Seq<u8>> {
    match k {
        Some(k) => Some(k@),
        None => None,
    }
}

impl View for LiquidityPoolFactory {
    type V = FactoryModel;

    closed spec fn view(&self) -> FactoryModel {
        FactoryModel { admin: key_opt_view(self.admin), guard: self.guard@, pairs: self.pairs@ }
    }
}

impl LiquidityPoolFactory {
    /// A factory that has not been set up.
    pub fn new() -> (r: LiquidityPoolFactory)
        ensures
            r@ == (FactoryModel {
                admin: None,
                guard: GuardModel { initialized: false, admins: Seq::empty(), threshold: 0, paused: 0 },
                pairs: Map::empty(),
            }),
    {
        LiquidityPoolFactory { admin: None, guard: EmergencyGuard::new(), pairs: PairRegistry::new() }
    }

    /// A factory in a given state, as it was stored.
    pub fn from_parts(admin: Option<AddressKey>, guard: EmergencyGuard, pairs: PairRegistry) -> (r: LiquidityPoolFactory)
        ensures
            r@ == (FactoryModel { admin: key_opt_view(admin), guard: guard@, pairs: pairs@ }),
    {
        LiquidityPoolFactory { admin, guard, pairs }
    }

    /// The admin, if the factory has been set up.
    pub fn admin(&self) -> (r: Option<AddressKey>)
        ensures
            key_opt_view(r) == self@.admin,
    {
        match &self.admin {
            Some(a) => Some(a.duplicate()),
            None => None,
        }
    }

    /// The emergency guard.
    pub fn guard(&self) -> (r: &EmergencyGuard)
        ensures
            r@ == self@.guard,
    {
        &self.guard
    }

    /// Sets the factory up with `admin`, who becomes the guard's only admin,
    /// with threshold 1.
    pub fn initialize(&mut self, admin: AddressKey) -> (r: Result<(), Error>)
        ensures
            match initialize_outcome(old(self)@, admin@) {
                Ok(m) => r == Ok::<(), Error>(()) && final(self)@ == m,
                Err(e) => r == Err::<(), Error>(e) && final(self)@ == old(self)@,
            },
    {
        if self.admin.is_some() {
            return Err(Error::AlreadyInitialized);
        }
        let mut admins: Vec<AddressKey> = Vec::new();
        admins.push(admin.duplicate());
        match self.guard.initialize(admins, 1) {
            Ok(()) => {},
            Err(_) => {
                return Err(Error::Unauthorized);
            },
        }
        self.admin = Some(admin);
        proof {
            let ghost a = admin@;
            assert(self@.guard.admins =~= seq![a]);
        }
        Ok(())
    }

    /// Checks, before a pool is deployed, whether the tokens `token_a` and
    /// `token_b` may get one, and gives them in stored order together with
    /// the salt under which their pool is deployed.
    pub fn plan_create_pair(&self, env: &soroban_sdk::Env, token_a: AddressKey, token_b: AddressKey) -> (r: Result<(AddressKey, AddressKey, Vec<u8>), CreatePairError>)
        requires
            is_address_encoding(token_a@),
            is_address_encoding(token_b@),
        ensures
            plan_matches(self@, token_a@, token_b@, r),
    {
        if self.guard.is_paused(PauseType::CREATE_PAIR) {
            return Err(CreatePairError::Paused);
        }
        let (t0, t1) = sort_pair(token_a, token_b);
        match self.pairs.get(&t0, &t1) {
            Some(_) => Err(CreatePairError::PairExists),
            None => {
                let salt = pair_salt(env, &t0, &t1);
                Ok((t0, t1, salt))
            },
        }
    }

    /// Registers the deployed `pool` for the tokens `token_a` and `token_b`
    /// and returns it; refused, changing nothing, when pair creation is
    /// paused or the pair has a pool already.
    pub fn create_pair(&mut self, token_a: AddressKey, token_b: AddressKey, pool: AddressKey) -> (r: Result<AddressKey, CreatePairError>)
        ensures
            match create_outcome(old(self)@, token_a@, token_b@, pool@) {
                Ok(m) => r matches Ok(p) && p@ == pool@ && final(self)@ == m,
                Err(e) => r matches Err(e2) && e2 == e && final(self)@ == old(self)@,
            },
    {
        if self.guard.is_paused(PauseType::CREATE_PAIR) {
            return Err(CreatePairError::Paused);
        }
        let registered = pool.duplicate();
        if !self.pairs.insert(token_a, token_b, registered) {
            return Err(CreatePairError::PairExists);
        }
        Ok(pool)
    }

    /// The pool of the tokens `token_a` and `token_b`, in either order.
    pub fn get_pair(&self, token_a: AddressKey, token_b: AddressKey) -> (r: Option<AddressKey>)
        ensures
            key_opt_view(r) == pair_lookup(self@.pairs, token_a@, token_b@),
    {
        let (t0, t1) = sort_pair(token_a, token_b);
        self.pairs.get(&t0, &t1)
    }

    /// An admin pauses or resumes the operations of the mask `operation`.
    pub fn set_operation_paused(&mut self, admin: AddressKey, operation: u32, paused: bool) -> (r: Result<(), Error>)
        ensures
            match set_pause_outcome(old(self)@, admin@, operation, paused) {
                Ok(m) => r == Ok::<(), Error>(()) && final(self)@ == m,
                Err(e) => r == Err::<(), Error>(e) && final(self)@ == old(self)@,
            },
    {
        match self.guard.set_pause(&admin, operation, paused) {
            Ok(()) => Ok(()),
            Err(_) => Err(Error::Unauthorized),
        }
    }

    /// Whether any operation of the mask `operation` is paused.
    pub fn is_paused(&self, operation: u32) -> (r: bool)
        ensures
            r == PauseType::paused_in(self@.guard.paused, operation),
    {
        self.guard.is_paused(operation)
    }

    /// The guard's admins.
    pub fn get_admins(&self) -> (r: Vec<AddressKey>)
        ensures
            crate::guard::keys_view(r@) == self@.guard.admins,
    {
        self.guard.get_admins()
    }
}

/// Looking a pool up gives the same answer whichever token is named first.
pub proof fn lemma_lookup_order_independent(pairs: Map<(Seq<u8>, Seq<u8>), Seq<u8>>, a: Seq<u8>, b: Seq<u8>)
    ensures
        pair_lookup(pairs, a, b) == pair_lookup(pairs, b, a),
{
    lemma_canonical_symmetric(a, b);
}

/// Once a pool is registered for two tokens, it is found under them in
/// either order.
pub proof fn lemma_created_pair_found(m: FactoryModel, a: Seq<u8>, b: Seq<u8>, pool: Seq<u8>)
    requires
        create_outcome(m, a, b, pool) is Ok,
    ensures
        pair_lookup(create_outcome(m, a, b, pool)->Ok_0.pairs, a, b) == Some(pool),
        pair_lookup(create_outcome(m, a, b, pool)->Ok_0.pairs, b, a) == Some(pool),
{
    lemma_canonical_symmetric(a, b);
}

/// A second pool for the same two tokens, in either order, is refused.
pub proof fn lemma_duplicate_pair_refused(m: FactoryModel, a: Seq<u8>, b: Seq<u8>, pool: Seq<u8>, other: Seq<u8>)
    requires
        create_outcome(m, a, b, pool) is Ok,
    ensures
        create_outcome(create_outcome(m, a, b, pool)->Ok_0, a, b, other) == Err::<FactoryModel, CreatePairError>(CreatePairError::PairExists),
        create_outcome(create_outcome(m, a, b, pool)->Ok_0, b, a, other) == Err::<FactoryModel, CreatePairError>(CreatePairError::PairExists),
{
    lemma_canonical_symmetric(a, b);
}

/// Once an admin pauses pair creation, every pair is refused.
pub proof fn lemma_pause_blocks_creation(m: FactoryModel, admin: Seq<u8>, a: Seq<u8>, b: Seq<u8>)
    requires
        set_pause_outcome(m, admin, PauseType::CREATE_PAIR, true) is Ok,
    ensures
        create_refusal(set_pause_outcome(m, admin, PauseType::CREATE_PAIR, true)->Ok_0, a, b)
            == Some(CreatePairError::Paused),
{
    lemma_query_after_set(m.guard.paused, PauseType::CREATE_PAIR, true);
}

/// Once an admin resumes pair creation, a pair without a pool may get one.
pub proof fn lemma_resume_allows_creation(m: FactoryModel, admin: Seq<u8>, a: Seq<u8>, b: Seq<u8>)
    requires
        set_pause_outcome(m, admin, PauseType::CREATE_PAIR, false) is Ok,
        !m.pairs.contains_key(canonical(a, b)),
    ensures
        create_refusal(set_pause_outcome(m, admin, PauseType::CREATE_PAIR, false)->Ok_0, a, b) == None::<CreatePairError>,
{
    lemma_query_after_set(m.guard.paused, PauseType::CREATE_PAIR, false);
}

/// Pausing or resuming other operations does not change whether a pair may
/// be created.
pub proof fn lemma_other_operations_independent(m: FactoryModel, admin: Seq<u8>, operation: u32, paused: bool, a: Seq<u8>, b: Seq<u8>)
    requires
        operation & PauseType::CREATE_PAIR == 0,
        set_pause_outcome(m, admin, operation, paused) is Ok,
    ensures
        create_refusal(set_pause_outcome(m, admin, operation, paused)->Ok_0, a, b) == create_refusal(m, a, b),
{
    lemma_set_leaves_other_operations(m.guard.paused, operation, PauseType::CREATE_PAIR, paused);
}

/// The factory is set up once: afterwards its admin is the guard's only admin
/// and a second set-up is refused.
pub proof fn lemma_initialize_once(m: FactoryModel, admin: Seq<u8>, again: Seq<u8>)
    requires
        initialize_outcome(m, admin) is Ok,
    ensures
        initialize_outcome(m, admin)->Ok_0.guard.admins == seq![admin],
        initialize_outcome(initialize_outcome(m, admin)->Ok_0, again)
            == Err::<FactoryModel, Error>(Error::AlreadyInitialized),
{
}

/// A successful set-up sets the guard up: it is marked as set up (so the
/// guard's own set-up refuses to run again) and its only admin is the
/// factory's admin; it succeeds only on a guard that was not set up.
pub proof fn lemma_initialize_sets_up_guard(m: FactoryModel, admin: Seq<u8>)
    requires
        initialize_outcome(m, admin) is Ok,
    ensures
        initialize_outcome(m, admin)->Ok_0.guard.initialized,
        initialize_outcome(m, admin)->Ok_0.guard.admins == seq![admin],
        initialize_outcome(m, admin)->Ok_0.admin == Some(admin),
        !m.guard.initialized,
{
}

/// Set-up pauses and resumes nothing: every operation is paused afterwards
/// exactly when it was before, so after setting up a new factory nothing is
/// paused. The registered pools are kept.
pub proof fn lemma_initialize_pauses_nothing(m: FactoryModel, admin: Seq<u8>, operation: u32)
    requires
        initialize_outcome(m, admin) is Ok,
    ensures
        initialize_outcome(m, admin)->Ok_0.guard.paused == m.guard.paused,
        PauseType::paused_in(initialize_outcome(m, admin)->Ok_0.guard.paused, operation)
            == PauseType::paused_in(m.guard.paused, operation),
        m.guard.paused == 0 ==> !PauseType::paused_in(initialize_outcome(m, admin)->Ok_0.guard.paused, operation),
        initialize_outcome(m, admin)->Ok_0.pairs == m.pairs,
{
    crate::pause::lemma_none_paused(operation);
}

/// After set-up, the admin and nobody else may pause or resume operations,
/// and what the admin sets is what is then reported.
pub proof fn lemma_only_admin_pauses(m: FactoryModel, admin: Seq<u8>, caller: Seq<u8>, operation: u32, paused: bool)
    requires
        initialize_outcome(m, admin) is Ok,
        operation != 0,
    ensures
        caller != admin ==> set_pause_outcome(initialize_outcome(m, admin)->Ok_0, caller, operation, paused)
            == Err::<FactoryModel, Error>(Error::Unauthorized),
        caller == admin ==> set_pause_outcome(initialize_outcome(m, admin)->Ok_0, caller, operation, paused) is Ok
            && PauseType::paused_in(
                set_pause_outcome(initialize_outcome(m, admin)->Ok_0, caller, operation, paused)->Ok_0.guard.paused,
                operation,
            ) == paused,
{
    let m2 = initialize_outcome(m, admin)->Ok_0;
    assert(m2.guard.admins[0] == admin);
    if caller != admin {
        assert(!m2.guard.admins.contains(caller));
    } else {
        assert(m2.guard.admins.contains(caller));
        lemma_query_after_set(m2.guard.paused, operation, paused);
    }
}

/// Whatever the state, the salt of a pair's pool does not depend on the order
/// in which its tokens are given, nor does whether the pair may be created.
pub proof fn lemma_salt_order_independent(
    m: FactoryModel,
    a: Seq<u8>,
    b: Seq<u8>,
    r1: Result<(AddressKey, AddressKey, Vec<u8>), CreatePairError>,
    r2: Result<(AddressKey, AddressKey, Vec<u8>), CreatePairError>,
)
    requires
        plan_matches(m, a, b, r1),
        plan_matches(m, b, a, r2),
    ensures
        create_refusal(m, a, b) == create_refusal(m, b, a),
        r1 is Ok <==> r2 is Ok,
        r1 is Ok ==> r1->Ok_0.0@ == r2->Ok_0.0@ && r1->Ok_0.1@ == r2->Ok_0.1@ && r1->Ok_0.2@ == r2->Ok_0.2@,
{
    lemma_canonical_symmetric(a, b);
}

/// A call of the factory's state-changing entry points, by the addresses and
/// values it is given.
pub enum FactoryCall {
    Initialize(Seq<u8>),
    CreatePair(Seq<u8>, Seq<u8>, Seq<u8>),
    SetOperationPaused(Seq<u8>, u32, bool),
}

/// The state after one call; a refused call changes nothing.
pub open spec fn apply_call(m: FactoryModel, c: FactoryCall) -> FactoryModel {
    match c {
        FactoryCall::Initialize(admin) => match initialize_outcome(m, admin) {
            Ok(m2) => m2,
            Err(_) => m,
        },
        FactoryCall::CreatePair(a, b, pool) => match create_outcome(m, a, b, pool) {
            Ok(m2) => m2,
            Err(_) => m,
        },
        FactoryCall::SetOperationPaused(admin, operation, paused) => match set_pause_outcome(m, admin, operation, paused) {
            Ok(m2) => m2,
            Err(_) => m,
        },
    }
}

/// The state after a sequence of calls, made in order from `m`.
pub open spec fn replay(m: FactoryModel, calls: Seq<FactoryCall>) -> FactoryModel
    decreases calls.len(),
{
    if calls.len() == 0 {
        m
    } else {
        apply_call(replay(m, calls.drop_last()), calls.last())
    }
}

/// Whether the call at index `i` registered `pool` for the tokens `a` and
/// `b`, given in either order.
pub open spec fn created_at(m: FactoryModel, calls: Seq<FactoryCall>, i: int, a: Seq<u8>, b: Seq<u8>, pool: Seq<u8>) -> bool {
    &&& 0 <= i < calls.len()
    &&& calls[i] matches FactoryCall::CreatePair(x, y, p)
    &&& canonical(x, y) == canonical(a, b)
    &&& p == pool
    &&& create_outcome(replay(m, calls.take(i)), x, y, p) is Ok
}

/// The state after the last call is that call applied to the state before it.
proof fn lemma_created_at_prefix(m: FactoryModel, calls: Seq<FactoryCall>, i: int, a: Seq<u8>, b: Seq<u8>, pool: Seq<u8>)
    requires
        calls.len() > 0,
        0 <= i < calls.len() - 1,
    ensures
        created_at(m, calls, i, a, b, pool) == created_at(m, calls.drop_last(), i, a, b, pool),
{
    assert(calls.take(i) =~= calls.drop_last().take(i));
    assert(calls[i] == calls.drop_last()[i]);
}

/// Starting with no pairs, a pair's pool is found exactly when a successful
/// creation registered that pool for those two tokens, in either order.
pub proof fn lemma_found_iff_created(m: FactoryModel, calls: Seq<FactoryCall>, a: Seq<u8>, b: Seq<u8>, pool: Seq<u8>)
    requires
        m.pairs == Map::<(Seq<u8>, Seq<u8>), Seq<u8>>::empty(),
    ensures
        pair_lookup(replay(m, calls).pairs, a, b) == Some(pool)
            <==> exists|i: int| #[trigger] created_at(m, calls, i, a, b, pool),
    decreases calls.len(),
{
    if calls.len() == 0 {
        return;
    }
    let prefix = calls.drop_last();
    let n = calls.len() - 1;
    let before = replay(m, prefix);
    let k = canonical(a, b);
    lemma_found_iff_created(m, prefix, a, b, pool);
    assert(calls.take(n) =~= prefix);
    assert forall|i: int| 0 <= i < n implies #[trigger] created_at(m, calls, i, a, b, pool) == created_at(m, prefix, i, a, b, pool) by {
        lemma_created_at_prefix(m, calls, i, a, b, pool);
    }
    match calls.last() {
        FactoryCall::CreatePair(x, y, p) => {
            if create_outcome(before, x, y, p) is Ok && canonical(x, y) == k {
                assert(!before.pairs.contains_key(k));
                if exists|i: int| #[trigger] created_at(m, prefix, i, a, b, pool) {
                    let i = choose|i: int| #[trigger] created_at(m, prefix, i, a, b, pool);
                    assert(created_at(m, prefix, i, a, b, pool));
                    assert(false);
                }
                if pool == p {
                    assert(created_at(m, calls, n, a, b, pool));
                } else {
                    assert forall|i: int| !#[trigger] created_at(m, calls, i, a, b, pool) by {
                        if 0 <= i < n {
                            assert(created_at(m, calls, i, a, b, pool) == created_at(m, prefix, i, a, b, pool));
                        }
                    }
                }
            } else {
                assert(!created_at(m, calls, n, a, b, pool));
                if exists|i: int| #[trigger] created_at(m, calls, i, a, b, pool) {
                    let i = choose|i: int| #[trigger] created_at(m, calls, i, a, b, pool);
                    assert(created_at(m, prefix, i, a, b, pool));
                }
                if exists|i: int| #[trigger] created_at(m, prefix, i, a, b, pool) {
                    let i = choose|i: int| #[trigger] created_at(m, prefix, i, a, b, pool);
                    assert(created_at(m, calls, i, a, b, pool));
                }
            }
        },
        _ => {
            assert(!created_at(m, calls, n, a, b, pool));
            assert(replay(m, calls).pairs == before.pairs);
            if exists|i: int| #[trigger] created_at(m, calls, i, a, b, pool) {
                let i = choose|i: int| #[trigger] created_at(m, calls, i, a, b, pool);
                assert(created_at(m, prefix, i, a, b, pool));
            }
            if exists|i: int| #[trigger] created_at(m, prefix, i, a, b, pool) {
                let i = choose|i: int| #[trigger] created_at(m, prefix, i, a, b, pool);
                assert(created_at(m, calls, i, a, b, pool));
            }
        },
    }
}

/// A registered pool is never removed or replaced: it is found under its
/// tokens after any further calls, refused or not.
pub proof fn lemma_stored_pairs_persist(m: FactoryModel, calls: Seq<FactoryCall>, a: Seq<u8>, b: Seq<u8>, pool: Seq<u8>)
    requires
        pair_lookup(m.pairs, a, b) == Some(pool),
    ensures
        pair_lookup(replay(m, calls).pairs, a, b) == Some(pool),
    decreases calls.len(),
{
    if calls.len() > 0 {
        lemma_stored_pairs_persist(m, calls.drop_last(), a, b, pool);
    }
}

} // verus!

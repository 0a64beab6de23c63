use vstd::prelude::*;

use crate::address::AddressKey;
use crate::pause::PauseType;

verus! {

/// Why the guard refused a request.
#[derive(Clone, Copy, Debug, PartialEq, Eq, Structural)]
pub enum GuardError {
    /// The guard was set up before.
    AlreadyInitialized,
    /// The caller is not one of the guard's admins.
    Unauthorized,
}

/// The addresses of a list of keys.
pub open spec fn keys_view(keys: Seq<AddressKey>) -> Seq<Seq<u8>> {
    keys.map_values(|k: AddressKey| k@)
}

/// What the guard holds.
pub struct GuardModel {
    pub initialized: bool,
    pub admins: Seq<Seq<u8>>,
    pub threshold: u32,
    pub paused: u32,
}

/// The emergency guard: a list of admins, any of whom may pause and resume
/// operations, and the bitmask of paused operations.
pub struct EmergencyGuard {
    initialized: bool,
    admins: Vec<AddressKey>,
    threshold: u32,
    pause: PauseType,
}

impl View for EmergencyGuard {
    type V = GuardModel;

    closed spec fn view(&self) -> GuardModel {
        GuardModel {
            initialized: self.initialized,
            admins: keys_view(self.admins@),
            threshold: self.threshold,
            paused: self.pause.0,
        }
    }
}

/// A copy of a list of keys.
pub fn copy_keys(keys: &Vec<AddressKey>) -> (r: Vec<AddressKey>)
    ensures
        keys_view(r@) == keys_view(keys@),
{
    let mut r: Vec<AddressKey> = Vec::new();
    let mut i: usize = 0;
    while i < keys.len()
        invariant
            i <= keys@.len(),
            r@.len() == i,
            forall|j: int| 0 <= j < i ==> r@[j]@ == keys@[j]@,
        decreases keys@.len() - i,
    {
        r.push(keys[i].duplicate());
        i = i + 1;
    }
    assert(keys_view(r@) =~= keys_view(keys@));
    r
}

/// Whether `who` is one of `keys`.
pub fn contains_key(keys: &Vec<AddressKey>, who: &AddressKey) -> (r: bool)
    ensures
        r == keys_view(keys@).contains(who@),
{
    let mut i: usize = 0;
    while i < keys.len()
        invariant
            i <= keys@.len(),
            forall|j: int| 0 <= j < i ==> keys@[j]@ != who@,
        decreases keys@.len() - i,
    {
        if keys[i].same_as(who) {
            assert(keys_view(keys@)[i as int] == who@);
            return true;
        }
        i = i + 1;
    }
    assert forall|j: int| 0 <= j < keys_view(keys@).len() implies keys_view(keys@)[j] != who@ by {
        assert(keys_view(keys@)[j] == keys@[j]@);
    }
    false
}

impl EmergencyGuard {
    /// A guard that has not been set up: no admins, nothing paused.
    pub fn new() -> (r: EmergencyGuard)
        ensures
            r@ == (GuardModel { initialized: false, admins: Seq::empty(), threshold: 0, paused: 0 }),
    {
        let r = EmergencyGuard {
            initialized: false,
            admins: Vec::new(),
            threshold: 0,
            pause: PauseType::new(0),
        };
        assert(r@.admins =~= Seq::<Seq<u8>>::empty());
        r
    }

    /// A guard in a given state, as it was stored.
    pub fn from_parts(initialized: bool, admins: Vec<AddressKey>, threshold: u32, paused: u32) -> (r: EmergencyGuard)
        ensures
            r@ == (GuardModel { initialized, admins: keys_view(admins@), threshold, paused }),
    {
        EmergencyGuard { initialized, admins, threshold, pause: PauseType::new(paused) }
    }

    /// Whether the guard has been set up.
    pub fn is_initialized(&self) -> (r: bool)
        ensures
            r == self@.initialized,
    {
        self.initialized
    }

    /// The approval threshold the guard was set up with.
    pub fn threshold(&self) -> (r: u32)
        ensures
            r == self@.threshold,
    {
        self.threshold
    }

    /// The bitmask of paused operations.
    pub fn paused_bits(&self) -> (r: u32)
        ensures
            r == self@.paused,
    {
        self.pause.0
    }

    /// Sets the guard up with its admins and approval threshold; refused when
    /// it was set up before, and then nothing changes.
    pub fn initialize(&mut self, admins: Vec<AddressKey>, threshold: u32) -> (r: Result<(), GuardError>)
        ensures
            old(self)@.initialized ==> r == Err::<(), GuardError>(GuardError::AlreadyInitialized)
                && final(self)@ == old(self)@,
            !old(self)@.initialized ==> r == Ok::<(), GuardError>(())
                && final(self)@ == (GuardModel {
                    initialized: true,
                    admins: keys_view(admins@),
                    threshold,
                    paused: old(self)@.paused,
                }),
    {
        if self.initialized {
            return Err(GuardError::AlreadyInitialized);
        }
        self.initialized = true;
        self.admins = admins;
        self.threshold = threshold;
        Ok(())
    }

    /// Whether `who` is one of the admins.
    pub fn is_admin(&self, who: &AddressKey) -> (r: bool)
        ensures
            r == self@.admins.contains(who@),
    {
        contains_key(&self.admins, who)
    }

    /// An admin pauses or resumes the operations of the mask `operation`;
    /// anyone else is refused, and then nothing changes.
    pub fn set_pause(&mut self, admin: &AddressKey, operation: u32, paused: bool) -> (r: Result<(), GuardError>)
        ensures
            !old(self)@.admins.contains(admin@) ==> r == Err::<(), GuardError>(GuardError::Unauthorized)
                && final(self)@ == old(self)@,
            old(self)@.admins.contains(admin@) ==> r == Ok::<(), GuardError>(())
                && final(self)@ == (GuardModel {
                    paused: PauseType::set_in(old(self)@.paused, operation, paused),
                    ..old(self)@
                }),
    {
        if !self.is_admin(admin) {
            return Err(GuardError::Unauthorized);
        }
        self.pause.set_paused(operation, paused);
        Ok(())
    }

    /// Whether any operation of the mask `operation` is paused.
    pub fn is_paused(&self, operation: u32) -> (r: bool)
        ensures
            r == PauseType::paused_in(self@.paused, operation),
    {
        self.pause.is_paused(operation)
    }

    /// The admins, in the order they were given.
    pub fn get_admins(&self) -> (r: Vec<AddressKey>)
        ensures
            keys_view(r@) == self@.admins,
    {
        copy_keys(&self.admins)
    }
}

} // verus!

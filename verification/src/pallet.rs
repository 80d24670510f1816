//! The name registry: validation, deposit accounting and record upsert,
//! over an explicit state object.
//!
//! The registry keeps a record per account identifier under one of two
//! schema versions.  The old schema (version 0) stores a flat name; the
//! current schema (version 1) stores a first part and an optional last
//! part.  A deposit is reserved from an account's balance exactly once,
//! when its first record is created, and is carried over unchanged by
//! every later update and by the schema migration.
//!
//! The old schema's validation enforces both a minimum and a maximum
//! length; the current schema's validation checks the maximum only, even
//! though the `TooShort` error kind remains declared.  This asymmetry is
//! kept as it stands rather than silently smoothed over: whether the
//! minimum-length check was dropped on purpose is an open question for
//! the system's owner.

use vstd::prelude::*;
use crate::ledger::{free_of, reserve_effect, AccountData, Ledger};
use crate::storage_map::StorageMap;
use crate::types::{
    name_len, opt_bytes, AccountId, Config, DispatchError, Error, Event, Nickname, NicknameModel,
    OldRecord, OldRecordModel, Registration, RegistrationModel,
};

verus! {

/// Mathematical model of the registry's persisted state.
pub ghost struct RegistryState {
    /// The old-schema record region, keyed by identifier.
    pub old_names: Map<AccountId, OldRecordModel>,
    /// The current-schema record region, keyed by identifier.
    pub names: Map<AccountId, RegistrationModel>,
    /// The aggregate record count; absent before the migration ran.
    pub count: Option<u32>,
    /// The persisted schema version marker.
    pub version: u32,
}

/// What one `set_name` operation does, as a function of the prior state:
/// the regions it may touch, the balance book, and the outcome handed to
/// the caller.
pub ghost struct SetNameOutcome {
    pub names: Map<AccountId, RegistrationModel>,
    pub count: Option<u32>,
    pub ledger: Map<AccountId, AccountData>,
    pub result: Result<Event, DispatchError>,
}

/// The `set_name` state transition under the current schema.
///
/// A name whose combined length exceeds the maximum is rejected outright.
/// Otherwise, an account that already holds a record has it overwritten
/// in place, reusing the stored deposit and reserving nothing anew.  A
/// first-time account has the reservation fee reserved from its balance —
/// a failure there aborts the operation, as does an aggregate count that
/// cannot be incremented — and the count, where present, grows by one.
/// Every failure leaves all state exactly as it was.
pub open spec fn set_name_spec(
    names: Map<AccountId, RegistrationModel>,
    count: Option<u32>,
    ledger: Map<AccountId, AccountData>,
    cfg: Config,
    who: AccountId,
    first: Seq<u8>,
    last: Option<Seq<u8>>,
) -> SetNameOutcome {
    if name_len(first, last) > cfg.max_length {
        SetNameOutcome { names, count, ledger, result: Err(DispatchError::Module(Error::TooLong)) }
    } else if names.contains_key(who) {
        SetNameOutcome {
            names: names.insert(
                who,
                (RegistrationModel {
                    nickname: NicknameModel { first, last },
                    deposit: names[who].deposit,
                }),
            ),
            count,
            ledger,
            result: Ok(Event::NameChanged(who)),
        }
    } else if free_of(ledger, who) < cfg.reservation_fee {
        SetNameOutcome { names, count, ledger, result: Err(DispatchError::InsufficientBalance) }
    } else if count == Some(u32::MAX) {
        SetNameOutcome {
            names,
            count,
            ledger,
            result: Err(DispatchError::Module(Error::StorageOverflow)),
        }
    } else {
        SetNameOutcome {
            names: names.insert(
                who,
                (RegistrationModel {
                    nickname: NicknameModel { first, last },
                    deposit: cfg.reservation_fee,
                }),
            ),
            count: match count {
                Some(c) => Some((c + 1) as u32),
                None => None,
            },
            ledger: reserve_effect(ledger, who, cfg.reservation_fee),
            result: Ok(Event::NameSet(who)),
        }
    }
}

/// The registry's persisted state: both record regions, the aggregate
/// count, the schema version marker, and the externally supplied
/// configuration.
pub struct Pallet {
    name_of: StorageMap<OldRecord>,
    realname_of: StorageMap<Registration>,
    count_for_names: Option<u32>,
    storage_version: u32,
    config: Config,
}

impl View for Pallet {
    type V = RegistryState;

    closed spec fn view(&self) -> RegistryState {
        RegistryState {
            old_names: self.name_of@,
            names: self.realname_of@,
            count: self.count_for_names,
            version: self.storage_version,
        }
    }
}

impl Pallet {
    /// Both record regions hold at most one record per identifier.
    pub closed spec fn wf(&self) -> bool {
        self.name_of.wf() && self.realname_of.wf()
    }

    /// The configuration the registry was built with.
    pub closed spec fn cfg(&self) -> Config {
        self.config
    }

    /// A fresh registry: empty regions, no count, schema version 0.
    pub fn new(config: Config) -> (r: Self)
        ensures
            r.wf(),
            r@.old_names == Map::<AccountId, OldRecordModel>::empty(),
            r@.names == Map::<AccountId, RegistrationModel>::empty(),
            r@.count == None::<u32>,
            r@.version == 0,
            r.cfg() == config,
    {
        Pallet {
            name_of: StorageMap::new(),
            realname_of: StorageMap::new(),
            count_for_names: None,
            storage_version: 0,
            config,
        }
    }

    /// The current-schema record of `who`, if any.
    pub fn realname(&self, who: AccountId) -> (r: Option<&Registration>)
        requires
            self.wf(),
        ensures
            match r {
                Some(reg) => self@.names.contains_key(who) && reg@ == self@.names[who],
                None => !self@.names.contains_key(who),
            },
    {
        self.realname_of.get(who)
    }

    /// The old-schema record of `who`, if any.
    pub fn old_name(&self, who: AccountId) -> (r: Option<&OldRecord>)
        requires
            self.wf(),
        ensures
            match r {
                Some(rec) => self@.old_names.contains_key(who) && rec@ == self@.old_names[who],
                None => !self@.old_names.contains_key(who),
            },
    {
        self.name_of.get(who)
    }

    /// The aggregate record count, absent before the migration ran.
    pub fn count_for_names(&self) -> (r: Option<u32>)
        ensures
            r == self@.count,
    {
        self.count_for_names
    }

    /// Write the aggregate count, as the host's storage primitive does.
    pub fn put_count_for_names(&mut self, count: u32)
        requires
            old(self).wf(),
        ensures
            final(self).wf(),
            final(self)@ == (RegistryState { count: Some(count), ..old(self)@ }),
            final(self).cfg() == old(self).cfg(),
    {
        self.count_for_names = Some(count);
    }

    /// The persisted schema version marker.
    pub fn storage_version(&self) -> (r: u32)
        ensures
            r == self@.version,
    {
        self.storage_version
    }

    /// Persist a new schema version marker.
    pub(crate) fn put_storage_version(&mut self, version: u32)
        requires
            old(self).wf(),
        ensures
            final(self).wf(),
            final(self)@ == (RegistryState { version, ..old(self)@ }),
            final(self).cfg() == old(self).cfg(),
    {
        self.storage_version = version;
    }

    /// A snapshot of the identifiers holding old-schema records.
    pub(crate) fn old_name_keys(&self) -> (r: Vec<AccountId>)
        requires
            self.wf(),
        ensures
            r@.no_duplicates(),
            forall|k: AccountId| r@.contains(k) <==> self@.old_names.contains_key(k),
            self@.old_names.dom().finite(),
            r@.len() == self@.old_names.dom().len(),
    {
        self.name_of.keys()
    }

    /// Destructively read the old-schema record of `who`.
    pub(crate) fn take_old_name(&mut self, who: AccountId) -> (r: Option<OldRecord>)
        requires
            old(self).wf(),
        ensures
            final(self).wf(),
            final(self)@ == (RegistryState {
                old_names: old(self)@.old_names.remove(who),
                ..old(self)@
            }),
            final(self).cfg() == old(self).cfg(),
            match r {
                Some(rec) => old(self)@.old_names.contains_key(who) && rec@ == old(
                    self,
                )@.old_names[who],
                None => !old(self)@.old_names.contains_key(who),
            },
    {
        self.name_of.take(who)
    }

    /// Store a current-schema record for `who`.
    pub(crate) fn insert_realname(&mut self, who: AccountId, registration: Registration)
        requires
            old(self).wf(),
        ensures
            final(self).wf(),
            final(self)@ == (RegistryState {
                names: old(self)@.names.insert(who, registration@),
                ..old(self)@
            }),
            final(self).cfg() == old(self).cfg(),
    {
        self.realname_of.insert(who, registration);
    }

    /// Set the name of the calling account under the current schema.
    ///
    /// `who` is the authenticated caller, supplied by the host.  The
    /// operation is atomic: on an error nothing changes, neither in the
    /// registry nor in the balance book.  The event that the host would
    /// emit is returned on success.
    ///
    /// The host guarantees that the migration has completed before any
    /// operation assuming the current schema is processed, so the
    /// persisted version is required to be at the target already.
    pub fn set_name(
        &mut self,
        ledger: &mut Ledger,
        who: AccountId,
        first: Vec<u8>,
        last: Option<Vec<u8>>,
    ) -> (r: Result<Event, DispatchError>)
        requires
            old(self).wf(),
            old(ledger).wf(),
            old(self)@.version == 1,
        ensures
            final(self).wf(),
            final(ledger).wf(),
            ({
                let o = set_name_spec(
                    old(self)@.names,
                    old(self)@.count,
                    old(ledger)@,
                    old(self).cfg(),
                    who,
                    first@,
                    opt_bytes(last),
                );
                &&& final(self)@.names == o.names
                &&& final(self)@.count == o.count
                &&& final(ledger)@ == o.ledger
                &&& r == o.result
            }),
            final(self)@.old_names == old(self)@.old_names,
            final(self)@.version == old(self)@.version,
            final(self).cfg() == old(self).cfg(),
    {
        let max = self.config.max_length as usize;
        let first_len = first.len();
        let last_len = match &last {
            Some(l) => l.len(),
            None => 0,
        };
        if first_len > max || last_len > max - first_len {
            return Err(DispatchError::Module(Error::TooLong));
        }
        let (deposit, is_new) = match self.realname_of.get(who) {
            Some(reg) => (reg.deposit, false),
            None => (self.config.reservation_fee, true),
        };
        if is_new {
            if !ledger.can_reserve(who, self.config.reservation_fee) {
                return Err(DispatchError::InsufficientBalance);
            }
            if let Some(count) = self.count_for_names {
                if count == u32::MAX {
                    return Err(DispatchError::Module(Error::StorageOverflow));
                }
            }
            // the collaborator confirmed above that the free balance
            // covers the fee, so the reservation cannot fail here
            let reserved = ledger.reserve(who, self.config.reservation_fee);
            proof {
                assert(reserved is Ok);
            }
        }
        self.realname_of.insert(who, Registration { nickname: Nickname { first, last }, deposit });
        let event = if is_new {
            if let Some(count) = self.count_for_names {
                self.count_for_names = Some(count + 1);
            }
            Event::NameSet(who)
        } else {
            Event::NameChanged(who)
        };
        Ok(event)
    }

    /// Set the name of the calling account under the old schema, which
    /// enforces the minimum length as well as the maximum.  Old-schema
    /// operations reach the registry only before the migration ran, so
    /// the persisted version is required to be below the target.
    pub fn set_name_v0(&mut self, ledger: &mut Ledger, who: AccountId, name: Vec<u8>) -> (r:
        Result<Event, DispatchError>)
        requires
            old(self).wf(),
            old(ledger).wf(),
            old(self)@.version == 0,
        ensures
            final(self).wf(),
            final(ledger).wf(),
            final(self)@.names == old(self)@.names,
            final(self)@.count == old(self)@.count,
            final(self)@.version == old(self)@.version,
            final(self).cfg() == old(self).cfg(),
            match r {
                Ok(ev) => {
                    &&& old(self).cfg().min_length <= name@.len() <= old(self).cfg().max_length
                    &&& final(self)@.old_names == old(self)@.old_names.insert(
                        who,
                        (OldRecordModel {
                            name: name@,
                            deposit: if old(self)@.old_names.contains_key(who) {
                                old(self)@.old_names[who].deposit
                            } else {
                                old(self).cfg().reservation_fee
                            },
                        }),
                    )
                    &&& if old(self)@.old_names.contains_key(who) {
                        ev == Event::NameChanged(who) && final(ledger)@ == old(ledger)@
                    } else {
                        ev == Event::NameSet(who) && free_of(old(ledger)@, who) >= old(
                            self,
                        ).cfg().reservation_fee && final(ledger)@ == reserve_effect(
                            old(ledger)@,
                            who,
                            old(self).cfg().reservation_fee,
                        )
                    }
                },
                Err(e) => {
                    &&& final(self)@.old_names == old(self)@.old_names
                    &&& final(ledger)@ == old(ledger)@
                    &&& (e == DispatchError::Module(Error::TooShort) || e == DispatchError::Module(
                        Error::TooLong,
                    ) || e == DispatchError::InsufficientBalance)
                    &&& (e == DispatchError::Module(Error::TooShort) <==> name@.len() < old(
                        self,
                    ).cfg().min_length)
                    &&& (e == DispatchError::Module(Error::TooLong) <==> name@.len() >= old(
                        self,
                    ).cfg().min_length && name@.len() > old(self).cfg().max_length)
                    &&& (e == DispatchError::InsufficientBalance <==> old(
                        self,
                    ).cfg().min_length <= name@.len() <= old(self).cfg().max_length && !old(
                        self,
                    )@.old_names.contains_key(who) && free_of(old(ledger)@, who) < old(
                        self,
                    ).cfg().reservation_fee)
                },
            },
    {
        if name.len() < self.config.min_length as usize {
            return Err(DispatchError::Module(Error::TooShort));
        }
        if name.len() > self.config.max_length as usize {
            return Err(DispatchError::Module(Error::TooLong));
        }
        let (deposit, is_new) = match self.name_of.get(who) {
            Some(rec) => (rec.deposit, false),
            None => (self.config.reservation_fee, true),
        };
        if is_new {
            match ledger.reserve(who, self.config.reservation_fee) {
                Ok(()) => {},
                Err(e) => {
                    return Err(e);
                },
            }
        }
        self.name_of.insert(who, OldRecord { name, deposit });
        let event = if is_new {
            Event::NameSet(who)
        } else {
            Event::NameChanged(who)
        };
        Ok(event)
    }
}

} // verus!

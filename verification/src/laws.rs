//! Laws of the registry, stated over the state transitions and proved.

use vstd::prelude::*;
use crate::ledger::{free_of, reserved_of, AccountData};
use crate::migrations::migrate_spec;
use crate::pallet::{set_name_spec, RegistryState};
use crate::types::{
    last_separator, lemma_last_separator_props, name_len, split_name, AccountId, Config,
    DispatchError, Error, Event, NicknameModel, OldRecordModel, RegistrationModel, SEPARATOR,
};

verus! {

/// A pair of parts whose combined length is within the maximum is
/// accepted, and a subsequent read returns exactly those parts with the
/// deposit held: the stored one where a record existed, the reservation
/// fee where one was created.  Inputs on which the reservation
/// collaborator must fail, or on which the aggregate count cannot be
/// incremented, are left out.
pub proof fn lemma_set_name_valid_succeeds(
    names: Map<AccountId, RegistrationModel>,
    count: Option<u32>,
    ledger: Map<AccountId, AccountData>,
    cfg: Config,
    who: AccountId,
    first: Seq<u8>,
    last: Option<Seq<u8>>,
)
    requires
        name_len(first, last) <= cfg.max_length,
        !names.contains_key(who) ==> free_of(ledger, who) >= cfg.reservation_fee && count != Some(
            u32::MAX,
        ),
    ensures
        ({
            let o = set_name_spec(names, count, ledger, cfg, who, first, last);
            &&& o.result is Ok
            &&& o.names.contains_key(who)
            &&& o.names[who] == (RegistrationModel {
                nickname: NicknameModel { first, last },
                deposit: if names.contains_key(who) {
                    names[who].deposit
                } else {
                    cfg.reservation_fee
                },
            })
        }),
{
}

/// A pair of parts whose combined length exceeds the maximum is rejected
/// with `TooLong`, and nothing changes: not the records, not the count,
/// not the balance book.
pub proof fn lemma_set_name_too_long_rejected(
    names: Map<AccountId, RegistrationModel>,
    count: Option<u32>,
    ledger: Map<AccountId, AccountData>,
    cfg: Config,
    who: AccountId,
    first: Seq<u8>,
    last: Option<Seq<u8>>,
)
    requires
        name_len(first, last) > cfg.max_length,
    ensures
        ({
            let o = set_name_spec(names, count, ledger, cfg, who, first, last);
            &&& o.result == Err::<Event, DispatchError>(DispatchError::Module(Error::TooLong))
            &&& o.names == names
            &&& o.count == count
            &&& o.ledger == ledger
        }),
{
}

/// Setting a name twice for the same identifier reserves the deposit only
/// once: after a successful first call, a second call — whatever its own
/// outcome — leaves the reserved balance exactly where the first call
/// left it.
pub proof fn lemma_deposit_reserved_once(
    names: Map<AccountId, RegistrationModel>,
    count: Option<u32>,
    ledger: Map<AccountId, AccountData>,
    cfg: Config,
    who: AccountId,
    first1: Seq<u8>,
    last1: Option<Seq<u8>>,
    first2: Seq<u8>,
    last2: Option<Seq<u8>>,
)
    requires
        set_name_spec(names, count, ledger, cfg, who, first1, last1).result is Ok,
    ensures
        ({
            let o1 = set_name_spec(names, count, ledger, cfg, who, first1, last1);
            let o2 = set_name_spec(o1.names, o1.count, o1.ledger, cfg, who, first2, last2);
            reserved_of(o2.ledger, who) == reserved_of(o1.ledger, who)
        }),
{
    let o1 = set_name_spec(names, count, ledger, cfg, who, first1, last1);
    assert(o1.names.contains_key(who));
}

/// The migration is idempotent at the version level: invoked at or beyond
/// the target version, it leaves every part of the state unchanged.
pub proof fn lemma_migration_idempotent(s: RegistryState)
    requires
        s.version >= 1,
    ensures
        migrate_spec(s) == s,
{
}

/// Migrating a store of `k` old-schema records establishes an aggregate
/// count of `k`, drains the old region, and every record that results
/// keeps its identifier and its original deposit.
pub proof fn lemma_migration_count_and_deposits(s: RegistryState)
    requires
        s.version == 0,
        s.old_names.dom().finite(),
    ensures
        migrate_spec(s).count == Some(s.old_names.dom().len() as u32),
        migrate_spec(s).old_names == Map::<AccountId, OldRecordModel>::empty(),
        forall|k: AccountId| #[trigger]
            s.old_names.contains_key(k) ==> migrate_spec(s).names.contains_key(k) && migrate_spec(
                s,
            ).names[k].deposit == s.old_names[k].deposit,
{
}

/// An insertion that would have to increment an aggregate count already
/// at its maximum fails with `StorageOverflow`, and takes no effect at
/// all.  A caller the reservation collaborator would refuse anyway is
/// left out, since that failure comes first.
pub proof fn lemma_count_overflow_rejected(
    names: Map<AccountId, RegistrationModel>,
    ledger: Map<AccountId, AccountData>,
    cfg: Config,
    who: AccountId,
    first: Seq<u8>,
    last: Option<Seq<u8>>,
)
    requires
        name_len(first, last) <= cfg.max_length,
        !names.contains_key(who),
        free_of(ledger, who) >= cfg.reservation_fee,
    ensures
        ({
            let o = set_name_spec(names, Some(u32::MAX), ledger, cfg, who, first, last);
            &&& o.result == Err::<Event, DispatchError>(
                DispatchError::Module(Error::StorageOverflow),
            )
            &&& o.names == names
            &&& o.count == Some(u32::MAX)
            &&& o.ledger == ledger
        }),
{
}

/// Once present, the aggregate count tracks the live record count: a
/// `set_name` transition that starts from a state whose count equals the
/// number of records ends in one again — updates leave both alone, a new
/// insertion grows both by one, and every failure leaves both as they
/// were.
pub proof fn lemma_count_tracks_records(
    names: Map<AccountId, RegistrationModel>,
    count: u32,
    ledger: Map<AccountId, AccountData>,
    cfg: Config,
    who: AccountId,
    first: Seq<u8>,
    last: Option<Seq<u8>>,
)
    requires
        names.dom().finite(),
        count == names.dom().len(),
    ensures
        ({
            let o = set_name_spec(names, Some(count), ledger, cfg, who, first, last);
            &&& o.names.dom().finite()
            &&& o.count == Some((o.names.dom().len()) as u32)
        }),
{
    let o = set_name_spec(names, Some(count), ledger, cfg, who, first, last);
    if names.contains_key(who) && name_len(first, last) <= cfg.max_length {
        assert(o.names.dom() =~= names.dom());
    }
}

/// Migrating a store whose current-schema region is still empty leaves
/// the count equal to the number of live records.
pub proof fn lemma_migration_establishes_count(s: RegistryState)
    requires
        s.version == 0,
        s.old_names.dom().finite(),
        s.names == Map::<AccountId, RegistrationModel>::empty(),
    ensures
        migrate_spec(s).names.dom().finite(),
        migrate_spec(s).count == Some((migrate_spec(s).names.dom().len()) as u32),
{
    assert(migrate_spec(s).names.dom() =~= s.old_names.dom());
}

/// The split is lossless in total byte content: where a separator exists,
/// the first part, one separator byte and the last part reassemble the
/// whole name; where none exists, the first part is the whole name and
/// there is no last part.
pub proof fn lemma_split_lossless(name: Seq<u8>)
    ensures
        ({
            let nick = split_name(name);
            match nick.last {
                Some(l) => nick.first + seq![SEPARATOR] + l == name && name_len(
                    nick.first,
                    nick.last,
                ) + 1 == name.len(),
                None => nick.first == name,
            }
        }),
{
    lemma_last_separator_props(name);
    match last_separator(name) {
        Some(i) => {
            assert(name.subrange(0, i) + seq![SEPARATOR] + name.subrange(
                i + 1,
                name.len() as int,
            ) =~= name);
        },
        None => {},
    }
}

} // verus!


//! The schema migration and its version gate.
//!
//! The migration transforms every old-schema record `{name, deposit}`
//! into a current-schema record `{first, last, deposit}` under the same
//! identifier, splitting the flat name at its last separator byte, and
//! establishes the aggregate count: the number of old-schema entries
//! enumerated.  The key list is snapshotted before anything is mutated,
//! each key is destructively read from the old region exactly once, and
//! the new version marker is persisted at the end.

use vstd::prelude::*;
use crate::pallet::{Pallet, RegistryState};
use crate::types::{split_record, split_nickname, AccountId, OldRecordModel, Registration};

verus! {

/// The migration as a state transition.  At a persisted version below the
/// target, the old-schema region is drained into the current-schema
/// region record by record, the count becomes the number of old-schema
/// entries, and the version marker advances; at the target version or
/// beyond, nothing changes.
pub open spec fn migrate_spec(s: RegistryState) -> RegistryState {
    if s.version >= 1 {
        s
    } else {
        RegistryState {
            old_names: Map::empty(),
            names: s.names.union_prefer_right(
                s.old_names.map_values(|r: OldRecordModel| split_record(r)),
            ),
            count: Some(s.old_names.dom().len() as u32),
            version: 1,
        }
    }
}

/// Appending an element to a sequence adds exactly it to the denoted set.
proof fn lemma_push_to_set(s: Seq<AccountId>, x: AccountId)
    ensures
        s.push(x).to_set() == s.to_set().insert(x),
{
    assert forall|a: AccountId| #[trigger] s.push(x).contains(a) implies s.contains(a) || a == x by {
        let j = choose|j: int| 0 <= j < s.push(x).len() && s.push(x)[j] == a;
        if j < s.len() {
            assert(s[j] == a);
        }
    }
    assert forall|a: AccountId| s.contains(a) implies s.push(x).contains(a) by {
        let j = choose|j: int| 0 <= j < s.len() && s[j] == a;
        assert(s.push(x)[j] == a);
    }
    assert(s.push(x)[s.len() as int] == x);
    assert(s.push(x).to_set() =~= s.to_set().insert(x));
}

/// The version gate: run the migration exactly when the persisted schema
/// version is below the target, and record the new version afterward.
/// Invoking it when already at the target version changes nothing.
///
/// The count is a 32-bit value, so the old-schema region must hold no
/// more records than it can represent.
pub fn migrate(pallet: &mut Pallet)
    requires
        old(pallet).wf(),
        old(pallet)@.old_names.dom().len() <= u32::MAX,
    ensures
        final(pallet).wf(),
        final(pallet)@ == migrate_spec(old(pallet)@),
        final(pallet).cfg() == old(pallet).cfg(),
{
    if pallet.storage_version() < 1 {
        migrate_to_v1(pallet);
    }
}

/// The one defined migration step: drain every old-schema record into the
/// current-schema region and establish the count.  The version gate is
/// the sole caller.
fn migrate_to_v1(pallet: &mut Pallet)
    requires
        old(pallet).wf(),
        old(pallet)@.version == 0,
        old(pallet)@.old_names.dom().len() <= u32::MAX,
    ensures
        final(pallet).wf(),
        final(pallet)@ == migrate_spec(old(pallet)@),
        final(pallet).cfg() == old(pallet).cfg(),
{
    let ghost orig = old(pallet)@;
    let keys = pallet.old_name_keys();
    let n = keys.len();
    pallet.put_count_for_names(n as u32);
    let mut i: usize = 0;
    while i < n
        invariant
            i <= n,
            n == keys@.len(),
            keys@.no_duplicates(),
            forall|k: AccountId| keys@.contains(k) <==> orig.old_names.contains_key(k),
            orig.old_names.dom().finite(),
            n == orig.old_names.dom().len(),
            pallet.wf(),
            pallet.cfg() == old(pallet).cfg(),
            pallet@.count == Some(n as u32),
            pallet@.version == orig.version,
            pallet@.old_names == orig.old_names.remove_keys(
                keys@.subrange(0, i as int).to_set(),
            ),
            pallet@.names == orig.names.union_prefer_right(
                orig.old_names.restrict(keys@.subrange(0, i as int).to_set()).map_values(
                    |r: OldRecordModel| split_record(r),
                ),
            ),
        decreases n - i,
    {
        let k = keys[i];
        proof {
            assert(keys@.contains(k));
            assert(!keys@.subrange(0, i as int).to_set().contains(k)) by {
                if keys@.subrange(0, i as int).contains(k) {
                    let j = choose|j: int|
                        0 <= j < i && keys@.subrange(0, i as int)[j] == k;
                    assert(keys@[j] == keys@[i as int]);
                }
            }
        }
        let taken = pallet.take_old_name(k);
        match taken {
            Some(record) => {
                let registration = Registration {
                    nickname: split_nickname(record.name),
                    deposit: record.deposit,
                };
                pallet.insert_realname(k, registration);
                proof {
                    let prefix = keys@.subrange(0, i as int);
                    let grown = keys@.subrange(0, i + 1int);
                    assert(grown =~= prefix.push(k));
                    lemma_push_to_set(prefix, k);
                    assert(record@ == orig.old_names[k]);
                    assert(registration@ == split_record(orig.old_names[k]));
                    assert(pallet@.old_names =~= orig.old_names.remove_keys(grown.to_set()));
                    assert(pallet@.names =~= orig.names.union_prefer_right(
                        orig.old_names.restrict(grown.to_set()).map_values(
                            |r: OldRecordModel| split_record(r),
                        ),
                    ));
                }
            },
            None => {
                proof {
                    assert(false);
                }
            },
        }
        i = i + 1;
    }
    proof {
        assert(keys@.subrange(0, n as int) =~= keys@);
        assert(keys@.to_set() =~= orig.old_names.dom());
        assert(pallet@.old_names =~= Map::<AccountId, OldRecordModel>::empty());
        assert(orig.old_names.restrict(orig.old_names.dom()) =~= orig.old_names);
        assert(pallet@.names == migrate_spec(orig).names);
    }
    pallet.put_storage_version(1);
}

} // verus!

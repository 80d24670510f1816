//! Data model of the registry: identifiers, configuration, records under
//! both schema versions, events, errors, and the first/last split rule.

use vstd::prelude::*;

verus! {

/// Opaque reference to an account, supplied by the host.
pub type AccountId = u64;

/// An amount of currency, as used for deposits.
pub type Balance = u64;

/// The byte at which a flat name is split into a first and a last part:
/// a single space.
pub const SEPARATOR: u8 = 32;

/// Configuration supplied externally; the registry does not own it.
#[derive(Clone, Copy, Debug, PartialEq, Eq, Structural)]
pub struct Config {
    /// Amount reserved from an account when its first record is created.
    pub reservation_fee: Balance,
    /// The minimum length a name may be (enforced by the old schema only).
    pub min_length: u32,
    /// The maximum combined length a name may be.
    pub max_length: u32,
}

/// Events emitted by a successful `set_name` operation.
#[derive(Clone, Copy, Debug, PartialEq, Eq, Structural)]
pub enum Event {
    /// A name was first set for the account.
    NameSet(AccountId),
    /// An existing name was changed.
    NameChanged(AccountId),
}

/// Errors of the registry itself.
#[derive(Clone, Copy, Debug, PartialEq, Eq, Structural)]
pub enum Error {
    /// A name is too short.
    TooShort,
    /// A name is too long.
    TooLong,
    /// The aggregate count cannot be incremented without wrapping.
    StorageOverflow,
}

/// Errors surfaced to the caller of an operation: either an error of the
/// registry, or an error of the reservation collaborator, propagated
/// verbatim.
#[derive(Clone, Copy, Debug, PartialEq, Eq, Structural)]
pub enum DispatchError {
    /// An error raised by the registry's own checks.
    Module(Error),
    /// The reservation collaborator could not hold the deposit.
    InsufficientBalance,
}

/// A nickname with a first and an optional last part: the current schema.
#[derive(Clone, Debug, PartialEq, Eq)]
pub struct Nickname {
    pub first: Vec<u8>,
    pub last: Option<Vec<u8>>,
}

/// Mathematical model of a [`Nickname`].
pub ghost struct NicknameModel {
    pub first: Seq<u8>,
    pub last: Option<Seq<u8>>,
}

impl View for Nickname {
    type V = NicknameModel;

    open spec fn view(&self) -> NicknameModel {
        NicknameModel {
            first: self.first@,
            last: match self.last {
                Some(l) => Some(l@),
                None => None,
            },
        }
    }
}

/// A stored record under the current schema: the nickname together with
/// the deposit held for it.
#[derive(Clone, Debug, PartialEq, Eq)]
pub struct Registration {
    pub nickname: Nickname,
    pub deposit: Balance,
}

/// Mathematical model of a [`Registration`].
pub ghost struct RegistrationModel {
    pub nickname: NicknameModel,
    pub deposit: Balance,
}

impl View for Registration {
    type V = RegistrationModel;

    open spec fn view(&self) -> RegistrationModel {
        RegistrationModel { nickname: self.nickname@, deposit: self.deposit }
    }
}

/// A stored record under the old schema: a flat name together with the
/// deposit held for it.
#[derive(Clone, Debug, PartialEq, Eq)]
pub struct OldRecord {
    pub name: Vec<u8>,
    pub deposit: Balance,
}

/// Mathematical model of an [`OldRecord`].
pub ghost struct OldRecordModel {
    pub name: Seq<u8>,
    pub deposit: Balance,
}

impl View for OldRecord {
    type V = OldRecordModel;

    open spec fn view(&self) -> OldRecordModel {
        OldRecordModel { name: self.name@, deposit: self.deposit }
    }
}

/// The model of an optional byte string argument.
pub open spec fn opt_bytes(o: Option<Vec<u8>>) -> Option<Seq<u8>> {
    match o {
        Some(l) => Some(l@),
        None => None,
    }
}

/// Combined length of a first part and an optional last part.
pub open spec fn name_len(first: Seq<u8>, last: Option<Seq<u8>>) -> nat {
    first.len() + match last {
        Some(l) => l.len(),
        None => 0nat,
    }
}

/// Index of the last occurrence of the separator byte in `name`, if any.
pub open spec fn last_separator(name: Seq<u8>) -> Option<int>
    decreases name.len(),
{
    if name.len() == 0 {
        None
    } else if name.last() == SEPARATOR {
        Some(name.len() - 1)
    } else {
        last_separator(name.drop_last())
    }
}

/// The split rule: partition a flat name at the last separator byte.  If
/// the separator occurs at index `i`, the first part is everything before
/// it and the last part everything after it; if it does not occur, the
/// whole name is the first part and there is no last part.
pub open spec fn split_name(name: Seq<u8>) -> NicknameModel {
    match last_separator(name) {
        Some(i) => NicknameModel {
            first: name.subrange(0, i),
            last: Some(name.subrange(i + 1, name.len() as int)),
        },
        None => NicknameModel { first: name, last: None },
    }
}

/// How the migration reshapes one record: the name is split, the deposit
/// is carried over unchanged.
pub open spec fn split_record(r: OldRecordModel) -> RegistrationModel {
    RegistrationModel { nickname: split_name(r.name), deposit: r.deposit }
}

/// Whatever `last_separator` returns points at a separator byte that no
/// later separator follows.
pub proof fn lemma_last_separator_props(name: Seq<u8>)
    ensures
        match last_separator(name) {
            Some(i) => 0 <= i < name.len() && name[i] == SEPARATOR && (forall|j: int|
                i < j < name.len() ==> name[j] != SEPARATOR),
            None => forall|j: int| 0 <= j < name.len() ==> name[j] != SEPARATOR,
        },
    decreases name.len(),
{
    if name.len() > 0 && name.last() != SEPARATOR {
        lemma_last_separator_props(name.drop_last());
        assert(forall|j: int|
            0 <= j < name.len() - 1 ==> name.drop_last()[j] == name[j]);
        assert(name[name.len() - 1] != SEPARATOR);
    }
}

/// If `name[i]` is a separator and no separator follows it, then `i` is
/// where `last_separator` points.
pub proof fn lemma_last_separator_at(name: Seq<u8>, i: int)
    requires
        0 <= i < name.len(),
        name[i] == SEPARATOR,
        forall|j: int| i < j < name.len() ==> name[j] != SEPARATOR,
    ensures
        last_separator(name) == Some(i),
    decreases name.len(),
{
    if i < name.len() - 1 {
        lemma_last_separator_at(name.drop_last(), i);
    }
}

/// If `name` holds no separator at all, `last_separator` finds none.
pub proof fn lemma_last_separator_none(name: Seq<u8>)
    requires
        forall|j: int| 0 <= j < name.len() ==> name[j] != SEPARATOR,
    ensures
        last_separator(name) == None::<int>,
    decreases name.len(),
{
    if name.len() > 0 {
        lemma_last_separator_none(name.drop_last());
    }
}

/// Copy the bytes of `v` between `start` (inclusive) and `end` (exclusive).
fn subvec(v: &Vec<u8>, start: usize, end: usize) -> (r: Vec<u8>)
    requires
        start <= end <= v@.len(),
    ensures
        r@ == v@.subrange(start as int, end as int),
{
    let mut r: Vec<u8> = Vec::new();
    let mut k: usize = start;
    proof {
        assert(r@ =~= v@.subrange(start as int, start as int));
    }
    while k < end
        invariant
            start <= k <= end <= v@.len(),
            r@ == v@.subrange(start as int, k as int),
        decreases end - k,
    {
        r.push(v[k]);
        proof {
            assert(v@.subrange(start as int, k + 1int) =~= v@.subrange(start as int, k as int)
                .push(v@[k as int]));
        }
        k = k + 1;
    }
    r
}

/// Split a flat name at its last separator byte, as the migration does.
pub fn split_nickname(name: Vec<u8>) -> (r: Nickname)
    ensures
        r@ == split_name(name@),
{
    let mut i: usize = name.len();
    while i > 0
        invariant
            i <= name@.len(),
            forall|j: int| i <= j < name@.len() ==> name@[j] != SEPARATOR,
        decreases i,
    {
        i = i - 1;
        if name[i] == SEPARATOR {
            proof {
                lemma_last_separator_at(name@, i as int);
            }
            let first = subvec(&name, 0, i);
            let last = subvec(&name, i + 1, name.len());
            return Nickname { first, last: Some(last) };
        }
    }
    proof {
        lemma_last_separator_none(name@);
    }
    Nickname { first: name, last: None }
}

} // verus!

//! Identifiers of the Copilot Money API, kept apart by kind, and the
//! enumerations its records use.
use vstd::prelude::*;
use vstd::std_specs::cmp::PartialEqSpecImpl;
use vstd::std_specs::convert::FromSpecImpl;

use core::marker::PhantomData;

use crate::keys::name_eq;

verus! {

/// An identifier handed out by the API: opaque text, tagged with the kind of
/// record it names so that identifiers of different kinds do not mix.
#[derive(Debug, Hash)]
pub struct OwnedId<T> {
    raw: String,
    _marker: PhantomData<T>,
}

impl<T> View for OwnedId<T> {
    type V = Seq<char>;

    closed spec fn view(&self) -> Seq<char> {
        self.raw@
    }
}

impl<T> OwnedId<T> {
    /// The identifier with text `raw`.
    pub fn new(raw: String) -> (r: Self)
        ensures
            r@ == raw@,
    {
        OwnedId { raw, _marker: PhantomData }
    }

    /// The text of the identifier.
    pub fn as_str(&self) -> (r: &str)
        ensures
            r@ == self@,
    {
        self.raw.as_str()
    }
}

impl<T> Clone for OwnedId<T> {
    fn clone(&self) -> (r: Self)
        ensures
            r@ == self@,
    {
        Self::new(self.raw.clone())
    }
}

impl<T> PartialEq for OwnedId<T> {
    fn eq(&self, other: &Self) -> (r: bool) {
        name_eq(self.raw.as_str(), other.raw.as_str())
    }
}

impl<T> PartialEqSpecImpl for OwnedId<T> {
    open spec fn obeys_eq_spec() -> bool {
        true
    }

    open spec fn eq_spec(&self, other: &Self) -> bool {
        self@ == other@
    }
}

impl<T> Eq for OwnedId<T> {
}

impl<T> core::str::FromStr for OwnedId<T> {
    type Err = core::convert::Infallible;

    fn from_str(s: &str) -> (r: Result<Self, Self::Err>)
        ensures
            r matches Ok(id) && id@ == s@,
    {
        Ok(Self::new(s.to_owned()))
    }
}

impl<T> From<String> for OwnedId<T> {
    fn from(value: String) -> (r: Self)
        ensures
            r@ == value@,
    {
        OwnedId { raw: value, _marker: PhantomData }
    }
}

impl<T> FromSpecImpl<String> for OwnedId<T> {
    open spec fn obeys_from_spec() -> bool {
        true
    }

    closed spec fn from_spec(v: String) -> Self {
        OwnedId { raw: v, _marker: PhantomData }
    }
}

impl<'a, T> From<&'a str> for OwnedId<T> {
    fn from(value: &'a str) -> (r: Self)
        ensures
            r@ == value@,
    {
        Self::new(value.to_owned())
    }
}

// The copy of the text that `from` makes is known by its view only, so this
// conversion is described by the `ensures` of `from` rather than by a value.
impl<'a, T> FromSpecImpl<&'a str> for OwnedId<T> {
    open spec fn obeys_from_spec() -> bool {
        false
    }

    closed spec fn from_spec(v: &'a str) -> Self {
        choose|id: Self| id@ == v@
    }
}

// The markers have no values: their one variant holds `Infallible`, which
// has none (Verus takes no enum without variants).

/// Marks identifiers of transactions.
#[derive(Debug, Hash)]
pub enum TransactionMarker {
    Never(core::convert::Infallible),
}

/// Marks identifiers of categories.
#[derive(Debug, Hash)]
pub enum CategoryMarker {
    Never(core::convert::Infallible),
}

/// Marks identifiers of tags.
#[derive(Debug, Hash)]
pub enum TagMarker {
    Never(core::convert::Infallible),
}

/// Marks identifiers of recurring items.
#[derive(Debug, Hash)]
pub enum RecurringMarker {
    Never(core::convert::Infallible),
}

/// Marks identifiers of accounts.
#[derive(Debug, Hash)]
pub enum AccountMarker {
    Never(core::convert::Infallible),
}

/// Marks identifiers of linked institutions (items).
#[derive(Debug, Hash)]
pub enum ItemMarker {
    Never(core::convert::Infallible),
}

pub type TransactionId = OwnedId<TransactionMarker>;

pub type CategoryId = OwnedId<CategoryMarker>;

pub type TagId = OwnedId<TagMarker>;

pub type RecurringId = OwnedId<RecurringMarker>;

pub type AccountId = OwnedId<AccountMarker>;

pub type ItemId = OwnedId<ItemMarker>;

/// The kind of a transaction.
#[derive(Debug, Clone, Copy, PartialEq, Eq, Structural)]
pub enum TransactionType {
    Regular,
    InternalTransfer,
    Other,
}

/// The API's name of a transaction kind.
pub open spec fn transaction_type_text(t: TransactionType) -> Seq<char> {
    match t {
        TransactionType::Regular => "REGULAR"@,
        TransactionType::InternalTransfer => "INTERNAL_TRANSFER"@,
        TransactionType::Other => "OTHER"@,
    }
}

impl TransactionType {
    /// The API's name of the kind: `REGULAR`, `INTERNAL_TRANSFER` or `OTHER`.
    pub fn to_string(&self) -> (r: String)
        ensures
            r@ == transaction_type_text(*self),
    {
        let s = match self {
            TransactionType::Regular => "REGULAR",
            TransactionType::InternalTransfer => "INTERNAL_TRANSFER",
            TransactionType::Other => "OTHER",
        };
        s.to_owned()
    }
}

/// How often a recurring item comes back.
#[derive(Debug, Clone, Copy, PartialEq, Eq, Structural)]
pub enum RecurringFrequency {
    Daily,
    Weekly,
    Biweekly,
    Monthly,
    Quarterly,
    Annually,
    Other,
}

/// The API's name of a frequency.
pub open spec fn frequency_text(f: RecurringFrequency) -> Seq<char> {
    match f {
        RecurringFrequency::Daily => "DAILY"@,
        RecurringFrequency::Weekly => "WEEKLY"@,
        RecurringFrequency::Biweekly => "BIWEEKLY"@,
        RecurringFrequency::Monthly => "MONTHLY"@,
        RecurringFrequency::Quarterly => "QUARTERLY"@,
        RecurringFrequency::Annually => "ANNUALLY"@,
        RecurringFrequency::Other => "OTHER"@,
    }
}

impl RecurringFrequency {
    /// The API's name of the frequency, such as `MONTHLY`.
    pub fn to_string(&self) -> (r: String)
        ensures
            r@ == frequency_text(*self),
    {
        let s = match self {
            RecurringFrequency::Daily => "DAILY",
            RecurringFrequency::Weekly => "WEEKLY",
            RecurringFrequency::Biweekly => "BIWEEKLY",
            RecurringFrequency::Monthly => "MONTHLY",
            RecurringFrequency::Quarterly => "QUARTERLY",
            RecurringFrequency::Annually => "ANNUALLY",
            RecurringFrequency::Other => "OTHER",
        };
        s.to_owned()
    }
}

} // verus!

//! Rules for creating, updating and deleting partners and their opening balances.

use vstd::prelude::*;

use crate::calendar::{parse_ymd, ymd_parsed};
use crate::text::{decimal_int, format_i64, lemma_trim_idempotent, str_eq, trim, trim_str};
use vstd::string::StringExecFns;

verus! {

/// Whether a partner buys from us, sells to us, or both.
#[derive(Clone, Copy, Debug, PartialEq, Eq, Structural)]
pub enum PartnerKind {
    Customer,
    Supplier,
    Both,
}

/// The kind a partner with these roles has.
pub open spec fn kind_of_roles(is_customer: bool, is_supplier: bool) -> PartnerKind {
    if is_customer && is_supplier {
        PartnerKind::Both
    } else if is_supplier {
        PartnerKind::Supplier
    } else {
        PartnerKind::Customer
    }
}

/// The kind a partner with these roles has.
pub fn partner_kind(is_customer: bool, is_supplier: bool) -> (k: PartnerKind)
    ensures
        k == kind_of_roles(is_customer, is_supplier),
{
    if is_customer && is_supplier {
        PartnerKind::Both
    } else if is_supplier {
        PartnerKind::Supplier
    } else {
        PartnerKind::Customer
    }
}

/// The name a kind is stored under.
pub open spec fn kind_name(k: PartnerKind) -> Seq<char> {
    match k {
        PartnerKind::Customer => "Customer"@,
        PartnerKind::Supplier => "Supplier"@,
        PartnerKind::Both => "Both"@,
    }
}

impl PartnerKind {
    /// The name the kind is stored under.
    pub fn as_str(&self) -> (s: &'static str)
        ensures
            s@ == kind_name(*self),
    {
        match self {
            PartnerKind::Customer => "Customer",
            PartnerKind::Supplier => "Supplier",
            PartnerKind::Both => "Both",
        }
    }
}

/// `Some` value of an optional flag, or `default`.
pub open spec fn flag_or(flag: Option<bool>, default: bool) -> bool {
    match flag {
        Some(b) => b,
        None => default,
    }
}

/// Whether a partner is a customer (so unless it says otherwise).
pub fn customer_flag(flag: Option<bool>) -> (b: bool)
    ensures
        b == flag_or(flag, true),
{
    match flag {
        Some(b) => b,
        None => true,
    }
}

/// Whether a partner is a supplier (not unless it says so).
pub fn supplier_flag(flag: Option<bool>) -> (b: bool)
    ensures
        b == flag_or(flag, false),
{
    match flag {
        Some(b) => b,
        None => false,
    }
}

/// The first value that is there: `first`, else `second`.
pub open spec fn first_given<T>(first: Option<T>, second: Option<T>) -> Option<T> {
    match first {
        Some(v) => Some(v),
        None => second,
    }
}

/// Picks the first value that is there (an explicit opening balance before
/// a debt balance, a new value before a stored one).
pub fn pick_first<T>(first: Option<T>, second: Option<T>) -> (r: Option<T>)
    ensures
        r == first_given(first, second),
{
    match first {
        Some(v) => Some(v),
        None => second,
    }
}

/// Whether an amount is above, at or below zero (an amount that is not a
/// number counts as below zero, as the balance rules treat it).
#[derive(Clone, Copy, Debug, PartialEq, Eq, Structural)]
pub enum Sign {
    Positive,
    Zero,
    Negative,
}

/// Whether an order sells to the partner or buys from it.
#[derive(Clone, Copy, Debug, PartialEq, Eq, Structural)]
pub enum OrderKind {
    Sale,
    Purchase,
}

/// The name an order kind is stored under.
pub open spec fn order_kind_name(k: OrderKind) -> Seq<char> {
    match k {
        OrderKind::Sale => "Sale"@,
        OrderKind::Purchase => "Purchase"@,
    }
}

/// The kind a stored order type names: `Sale`, or else a purchase.
pub open spec fn order_kind_named(o_type: Seq<char>) -> OrderKind {
    if o_type == "Sale"@ {
        OrderKind::Sale
    } else {
        OrderKind::Purchase
    }
}

impl OrderKind {
    /// The name the kind is stored under.
    pub fn as_str(&self) -> (s: &'static str)
        ensures
            s@ == order_kind_name(*self),
    {
        match self {
            OrderKind::Sale => "Sale",
            OrderKind::Purchase => "Purchase",
        }
    }
}

/// Reads a stored order type.
pub fn order_kind_of(o_type: &str) -> (k: OrderKind)
    ensures
        k == order_kind_named(o_type@),
{
    if str_eq(o_type, "Sale") {
        OrderKind::Sale
    } else {
        OrderKind::Purchase
    }
}

/// The order that records an opening balance of the given sign: none for
/// zero, a sale when the partner owes us, a purchase when we owe it.
pub open spec fn opening_order(sign: Sign) -> Option<OrderKind> {
    match sign {
        Sign::Zero => None,
        Sign::Positive => Some(OrderKind::Sale),
        Sign::Negative => Some(OrderKind::Purchase),
    }
}

/// What to do to the opening-balance order of a partner.
#[derive(Clone, Copy, Debug, PartialEq, Eq, Structural)]
pub enum OpeningAction {
    /// Leave it as it is.
    Keep,
    /// Delete the order with this id.
    Delete(i64),
    /// Give the order with this id this kind (and the new amount).
    Retype(i64, OrderKind),
    /// Insert a new opening-balance order of this kind.
    Insert(OrderKind),
}

/// The opening-balance order that creating a partner records.
pub fn opening_order_on_create(sign: Sign) -> (k: Option<OrderKind>)
    ensures
        k == opening_order(sign),
{
    match sign {
        Sign::Zero => None,
        Sign::Positive => Some(OrderKind::Sale),
        Sign::Negative => Some(OrderKind::Purchase),
    }
}

/// What updating a partner does to its opening-balance order, given the new
/// balance's sign (if one was sent) and the id of the existing order (if any).
pub open spec fn update_opening(requested: Option<Sign>, existing: Option<i64>) -> OpeningAction {
    match requested {
        None => OpeningAction::Keep,
        Some(sign) => match (existing, opening_order(sign)) {
            (Some(id), None) => OpeningAction::Delete(id),
            (Some(id), Some(k)) => OpeningAction::Retype(id, k),
            (None, None) => OpeningAction::Keep,
            (None, Some(k)) => OpeningAction::Insert(k),
        },
    }
}

/// What updating a partner does to its opening-balance order.
pub fn opening_action_on_update(requested: Option<Sign>, existing: Option<i64>) -> (a:
    OpeningAction)
    ensures
        a == update_opening(requested, existing),
{
    match requested {
        None => OpeningAction::Keep,
        Some(sign) => match (existing, opening_order_on_create(sign)) {
            (Some(id), None) => OpeningAction::Delete(id),
            (Some(id), Some(k)) => OpeningAction::Retype(id, k),
            (None, None) => OpeningAction::Keep,
            (None, Some(k)) => OpeningAction::Insert(k),
        },
    }
}

/// Why a partner request is refused.
#[derive(Clone, Copy, Debug, PartialEq, Eq, Structural)]
pub enum PartnerError {
    /// The name is empty or only white space.
    EmptyName,
    /// The partner has this many orders besides its opening balance.
    HasTransactions(i64),
    /// An opening balance of zero was sent where one is needed.
    AmountRequired,
    /// There is no such partner.
    NotFound,
}

/// The opening-balance fix for a partner: refused for a zero amount, else the
/// existing order retyped or a new one inserted.
pub open spec fn fix_opening(sign: Sign, existing: Option<i64>) -> Result<
    OpeningAction,
    PartnerError,
> {
    match opening_order(sign) {
        None => Err(PartnerError::AmountRequired),
        Some(k) => match existing {
            Some(id) => Ok(OpeningAction::Retype(id, k)),
            None => Ok(OpeningAction::Insert(k)),
        },
    }
}

/// The kind of opening-balance order a fix records, or a refusal for a
/// zero amount (checked before anything is looked up).
pub fn fix_opening_kind(sign: Sign) -> (r: Result<OrderKind, PartnerError>)
    ensures
        r == match opening_order(sign) {
            None => Err::<OrderKind, PartnerError>(PartnerError::AmountRequired),
            Some(k) => Ok::<OrderKind, PartnerError>(k),
        },
{
    match opening_order_on_create(sign) {
        None => Err(PartnerError::AmountRequired),
        Some(k) => Ok(k),
    }
}

/// Where an opening-balance order of this kind goes: over the existing one
/// (retyped), or into a new row.
pub fn place_opening_order(kind: OrderKind, existing: Option<i64>) -> (a: OpeningAction)
    ensures
        a == match existing {
            Some(id) => OpeningAction::Retype(id, kind),
            None => OpeningAction::Insert(kind),
        },
{
    match existing {
        Some(id) => OpeningAction::Retype(id, kind),
        None => OpeningAction::Insert(kind),
    }
}

/// What fixing a partner's opening balance does.
pub fn opening_action_on_fix(sign: Sign, existing: Option<i64>) -> (r: Result<
    OpeningAction,
    PartnerError,
>)
    ensures
        r == fix_opening(sign, existing),
{
    match fix_opening_kind(sign) {
        Err(e) => Err(e),
        Ok(k) => Ok(place_opening_order(k, existing)),
    }
}

/// A partner about to be created.
pub struct NewPartner {
    pub name: String,
    pub kind: PartnerKind,
    pub is_customer: bool,
    pub is_supplier: bool,
    pub opening_order: Option<OrderKind>,
}

/// Checks and completes a new partner: the name must have something besides
/// white space and is stored trimmed.
pub fn new_partner(
    name: &str,
    is_customer: Option<bool>,
    is_supplier: Option<bool>,
    opening: Sign,
) -> (r: Result<NewPartner, PartnerError>)
    ensures
        trim(name@).len() == 0 ==> r == Err::<NewPartner, PartnerError>(PartnerError::EmptyName),
        trim(name@).len() > 0 ==> (r matches Ok(p) && {
            &&& p.name@ == trim(name@)
            &&& p.is_customer == flag_or(is_customer, true)
            &&& p.is_supplier == flag_or(is_supplier, false)
            &&& p.kind == kind_of_roles(p.is_customer, p.is_supplier)
            &&& p.opening_order == opening_order(opening)
        }),
{
    let trimmed = trim_str(name);
    if trimmed.is_empty() {
        return Err(PartnerError::EmptyName);
    }
    let c = customer_flag(is_customer);
    let s = supplier_flag(is_supplier);
    Ok(
        NewPartner {
            name: trimmed.to_owned(),
            kind: partner_kind(c, s),
            is_customer: c,
            is_supplier: s,
            opening_order: opening_order_on_create(opening),
        },
    )
}

/// The stored details of a partner that an update can change.
pub struct PartnerDetails {
    pub name: String,
    pub is_customer: Option<bool>,
    pub is_supplier: Option<bool>,
    pub cccd: Option<String>,
    pub phone: Option<String>,
    pub address: Option<String>,
}

/// The fields an update sends; a missing field keeps the stored value.
pub struct PartnerPatch {
    pub name: Option<String>,
    pub is_customer: Option<bool>,
    pub is_supplier: Option<bool>,
    pub cccd: Option<String>,
    pub phone: Option<String>,
    pub address: Option<String>,
}

/// The details an update writes.
pub struct PartnerUpdate {
    pub name: String,
    pub kind: PartnerKind,
    pub is_customer: bool,
    pub is_supplier: bool,
    pub cccd: Option<String>,
    pub phone: Option<String>,
    pub address: Option<String>,
}

/// The view of an optional text.
pub open spec fn opt_view(s: Option<String>) -> Option<Seq<char>> {
    match s {
        Some(v) => Some(v@),
        None => None,
    }
}

/// Whether `u` is what updating `existing` with `patch` writes: each sent
/// field replaces the stored one, the name is trimmed, and the roles fall back
/// to a customer that is no supplier.
pub open spec fn is_merged_update(
    existing: PartnerDetails,
    patch: PartnerPatch,
    u: PartnerUpdate,
) -> bool {
    let name = match patch.name {
        Some(n) => n@,
        None => existing.name@,
    };
    &&& u.name@ == trim(name)
    &&& u.is_customer == flag_or(first_given(patch.is_customer, existing.is_customer), true)
    &&& u.is_supplier == flag_or(first_given(patch.is_supplier, existing.is_supplier), false)
    &&& u.kind == kind_of_roles(u.is_customer, u.is_supplier)
    &&& opt_view(u.cccd) == opt_view(first_given(patch.cccd, existing.cccd))
    &&& opt_view(u.phone) == opt_view(first_given(patch.phone, existing.phone))
    &&& opt_view(u.address) == opt_view(first_given(patch.address, existing.address))
}

/// The details that updating `existing` with `patch` writes.
pub fn merge_update(existing: PartnerDetails, patch: PartnerPatch) -> (u: PartnerUpdate)
    ensures
        is_merged_update(existing, patch, u),
{
    let name = match patch.name {
        Some(n) => n,
        None => existing.name,
    };
    let is_customer = customer_flag(pick_first(patch.is_customer, existing.is_customer));
    let is_supplier = supplier_flag(pick_first(patch.is_supplier, existing.is_supplier));
    PartnerUpdate {
        name: trim_str(name.as_str()).to_owned(),
        kind: partner_kind(is_customer, is_supplier),
        is_customer,
        is_supplier,
        cccd: pick_first(patch.cccd, existing.cccd),
        phone: pick_first(patch.phone, existing.phone),
        address: pick_first(patch.address, existing.address),
    }
}

/// Refuses to delete a partner that has orders besides its opening balance.
pub fn check_deletable(order_count: i64) -> (r: Result<(), PartnerError>)
    ensures
        order_count > 0 ==> r == Err::<(), PartnerError>(PartnerError::HasTransactions(order_count)),
        order_count <= 0 ==> r == Ok::<(), PartnerError>(()),
{
    if order_count > 0 {
        Err(PartnerError::HasTransactions(order_count))
    } else {
        Ok(())
    }
}

/// A deletion that removed no partner row means there was no such partner.
pub fn confirm_deleted(rows_affected: u64) -> (r: Result<(), PartnerError>)
    ensures
        rows_affected == 0 ==> r == Err::<(), PartnerError>(PartnerError::NotFound),
        rows_affected > 0 ==> r == Ok::<(), PartnerError>(()),
{
    if rows_affected == 0 {
        Err(PartnerError::NotFound)
    } else {
        Ok(())
    }
}

/// The message a refusal is answered with.
pub open spec fn error_message(e: PartnerError) -> Seq<char> {
    match e {
        PartnerError::EmptyName => "Tên đối tác không được để trống"@,
        PartnerError::HasTransactions(n) => "Không thể xóa đối tác vì đã có "@ + decimal_int(
            n as int,
        ) + " hóa đơn giao dịch"@,
        PartnerError::AmountRequired => "Amount is required"@,
        PartnerError::NotFound => "Đối tác không tồn tại"@,
    }
}

impl PartnerError {
    /// The message the refusal is answered with.
    pub fn message(&self) -> (m: String)
        ensures
            m@ == error_message(*self),
    {
        match self {
            PartnerError::EmptyName => "Tên đối tác không được để trống".to_owned(),
            PartnerError::HasTransactions(n) => {
                let mut m = "Không thể xóa đối tác vì đã có ".to_owned();
                m.append(format_i64(*n).as_str());
                m.append(" hóa đơn giao dịch");
                m
            },
            PartnerError::AmountRequired => "Amount is required".to_owned(),
            PartnerError::NotFound => "Đối tác không tồn tại".to_owned(),
        }
    }

    /// Whether the refusal means the partner does not exist (otherwise the
    /// request itself is at fault).
    pub fn is_not_found(&self) -> (b: bool)
        ensures
            b == (*self == PartnerError::NotFound),
    {
        match self {
            PartnerError::NotFound => true,
            _ => false,
        }
    }
}

/// The partner a lookup found, or `NotFound`.
pub fn require_found<T>(found: Option<T>) -> (r: Result<T, PartnerError>)
    ensures
        match found {
            Some(v) => r == Ok::<T, PartnerError>(v),
            None => r == Err::<T, PartnerError>(PartnerError::NotFound),
        },
{
    match found {
        Some(v) => Ok(v),
        None => Err(PartnerError::NotFound),
    }
}

/// The note of a quick debt entry: the one sent, or the default note.
pub fn quick_debt_note(note: Option<String>) -> (r: String)
    ensures
        r@ == match note {
            Some(n) => n@,
            None => "Ghi nợ nhanh (Sổ tay)"@,
        },
{
    match note {
        Some(n) => n,
        None => "Ghi nợ nhanh (Sổ tay)".to_owned(),
    }
}

/// When a quick debt entry is booked: at noon of the given day, or now.
#[derive(Clone, Copy, Debug, PartialEq, Eq, Structural)]
pub enum QuickDebtDate {
    /// Noon of this year, month and day.
    NoonOf(i32, u32, u32),
    /// The current local time.
    Now,
}

/// When a quick debt entry with this date text is booked: noon of the date
/// when the text is one in the form `YYYY-MM-DD`, else (also when no date is
/// sent) the current time.
pub open spec fn quick_debt_date_of(date: Option<Seq<char>>) -> QuickDebtDate {
    match date {
        Some(s) => match ymd_parsed(s) {
            Some((y, m, d)) => QuickDebtDate::NoonOf(y, m, d),
            None => QuickDebtDate::Now,
        },
        None => QuickDebtDate::Now,
    }
}

/// Decides when a quick debt entry is booked.
pub fn quick_debt_date(date: Option<&str>) -> (r: QuickDebtDate)
    ensures
        r == quick_debt_date_of(
            match date {
                Some(s) => Some(s@),
                None => None,
            },
        ),
        r matches QuickDebtDate::NoonOf(_, m, d) ==> 1 <= m <= 12 && 1 <= d <= 31,
{
    match date {
        Some(s) => match parse_ymd(s) {
            Some((y, m, d)) => QuickDebtDate::NoonOf(y, m, d),
            None => QuickDebtDate::Now,
        },
        None => QuickDebtDate::Now,
    }
}

/// A partner is of kind `Both` exactly when it is both a customer and a
/// supplier, and a supplier-only partner is of kind `Supplier`.
pub proof fn lemma_kind_of_roles(is_customer: bool, is_supplier: bool)
    ensures
        (kind_of_roles(is_customer, is_supplier) == PartnerKind::Both) == (is_customer
            && is_supplier),
        (kind_of_roles(is_customer, is_supplier) == PartnerKind::Supplier) == (!is_customer
            && is_supplier),
        (kind_of_roles(is_customer, is_supplier) == PartnerKind::Customer) == !is_supplier,
{
}

/// An update that sends no field writes back the stored details: the name
/// trimmed, the roles defaulted, the other fields as they were.
pub proof fn lemma_empty_patch_keeps(existing: PartnerDetails, u: PartnerUpdate)
    requires
        is_merged_update(
            existing,
            PartnerPatch {
                name: None,
                is_customer: None,
                is_supplier: None,
                cccd: None,
                phone: None,
                address: None,
            },
            u,
        ),
    ensures
        u.name@ == trim(existing.name@),
        u.is_customer == flag_or(existing.is_customer, true),
        u.is_supplier == flag_or(existing.is_supplier, false),
        opt_view(u.cccd) == opt_view(existing.cccd),
        opt_view(u.phone) == opt_view(existing.phone),
        opt_view(u.address) == opt_view(existing.address),
{
}

/// The stored details that an update writes.
pub open spec fn details_of(u: PartnerUpdate) -> PartnerDetails {
    PartnerDetails {
        name: u.name,
        is_customer: Some(u.is_customer),
        is_supplier: Some(u.is_supplier),
        cccd: u.cccd,
        phone: u.phone,
        address: u.address,
    }
}

/// Sending the same update twice writes the same details the second time.
pub proof fn lemma_update_idempotent(
    existing: PartnerDetails,
    patch: PartnerPatch,
    u: PartnerUpdate,
    again: PartnerUpdate,
)
    requires
        is_merged_update(existing, patch, u),
        is_merged_update(details_of(u), patch, again),
    ensures
        again.name@ == u.name@,
        again.is_customer == u.is_customer,
        again.is_supplier == u.is_supplier,
        again.kind == u.kind,
        opt_view(again.cccd) == opt_view(u.cccd),
        opt_view(again.phone) == opt_view(u.phone),
        opt_view(again.address) == opt_view(u.address),
{
    let name = match patch.name {
        Some(n) => n@,
        None => existing.name@,
    };
    lemma_trim_idempotent(name);
}

/// The three ways of setting an opening balance agree: creating a partner,
/// updating one without an opening-balance order, and fixing one, all record
/// a sale for a positive balance and a purchase for a negative one; for an
/// existing order, update and fix both retype it; a zero balance records
/// nothing on create, deletes the order on update, and is refused by fix.
pub proof fn lemma_opening_rules_agree(sign: Sign, existing: Option<i64>)
    ensures
        update_opening(Some(sign), None) == match opening_order(sign) {
            None => OpeningAction::Keep,
            Some(k) => OpeningAction::Insert(k),
        },
        sign != Sign::Zero ==> fix_opening(sign, existing) == Ok::<OpeningAction, PartnerError>(
            update_opening(Some(sign), existing),
        ),
        sign == Sign::Zero ==> fix_opening(sign, existing) == Err::<OpeningAction, PartnerError>(
            PartnerError::AmountRequired,
        ),
        sign == Sign::Zero ==> (existing matches Some(id) ==> update_opening(Some(sign), existing)
            == OpeningAction::Delete(id)),
        update_opening(None, existing) == OpeningAction::Keep,
{
}

} // verus!

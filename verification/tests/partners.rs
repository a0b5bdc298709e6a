use backend_rust::lookup::{complete_price_items, latest_by_key};
use backend_rust::partner::{
    check_deletable, confirm_deleted, merge_update, new_partner, opening_action_on_fix,
    opening_action_on_update, opening_order_on_create, order_kind_of, partner_kind, pick_first,
    quick_debt_date, quick_debt_note, require_found, OpeningAction, OrderKind, PartnerDetails, PartnerError,
    PartnerKind, PartnerPatch, QuickDebtDate, Sign,
};

#[test]
fn kinds_follow_roles() {
    assert_eq!(partner_kind(true, true), PartnerKind::Both);
    assert_eq!(partner_kind(false, true), PartnerKind::Supplier);
    assert_eq!(partner_kind(true, false), PartnerKind::Customer);
    assert_eq!(partner_kind(false, false), PartnerKind::Customer);
    assert_eq!(PartnerKind::Both.as_str(), "Both");
    assert_eq!(PartnerKind::Supplier.as_str(), "Supplier");
    assert_eq!(PartnerKind::Customer.as_str(), "Customer");
}

#[test]
fn new_partner_needs_a_name() {
    assert!(matches!(new_partner("   ", None, None, Sign::Zero), Err(PartnerError::EmptyName)));
    let p = match new_partner("  Công ty A ", None, None, Sign::Positive) {
        Ok(p) => p,
        Err(_) => panic!("name was given"),
    };
    assert_eq!(p.name, "Công ty A");
    assert!(p.is_customer);
    assert!(!p.is_supplier);
    assert_eq!(p.kind, PartnerKind::Customer);
    assert_eq!(p.opening_order, Some(OrderKind::Sale));
}

#[test]
fn new_supplier_with_negative_balance_records_a_purchase() {
    let p = match new_partner("B", Some(false), Some(true), Sign::Negative) {
        Ok(p) => p,
        Err(_) => panic!("name was given"),
    };
    assert_eq!(p.kind, PartnerKind::Supplier);
    assert_eq!(p.opening_order, Some(OrderKind::Purchase));
    assert_eq!(opening_order_on_create(Sign::Zero), None);
}

#[test]
fn opening_balance_prefers_the_explicit_value() {
    assert_eq!(pick_first(Some(1), Some(2)), Some(1));
    assert_eq!(pick_first(None, Some(2)), Some(2));
    assert_eq!(pick_first::<i32>(None, None), None);
}

fn details() -> PartnerDetails {
    PartnerDetails {
        name: "Old".to_string(),
        is_customer: None,
        is_supplier: Some(true),
        cccd: Some("123".to_string()),
        phone: None,
        address: Some("HN".to_string()),
    }
}

#[test]
fn update_overrides_sent_fields_only() {
    let patch = PartnerPatch {
        name: Some("  New ".to_string()),
        is_customer: Some(false),
        is_supplier: None,
        cccd: None,
        phone: Some("0909".to_string()),
        address: None,
    };
    let u = merge_update(details(), patch);
    assert_eq!(u.name, "New");
    assert!(!u.is_customer);
    assert!(u.is_supplier);
    assert_eq!(u.kind, PartnerKind::Supplier);
    assert_eq!(u.cccd, Some("123".to_string()));
    assert_eq!(u.phone, Some("0909".to_string()));
    assert_eq!(u.address, Some("HN".to_string()));
}

#[test]
fn empty_update_keeps_details() {
    let patch = PartnerPatch { name: None, is_customer: None, is_supplier: None, cccd: None, phone: None, address: None };
    let u = merge_update(details(), patch);
    assert_eq!(u.name, "Old");
    assert!(u.is_customer);
    assert!(u.is_supplier);
    assert_eq!(u.kind, PartnerKind::Both);
}

#[test]
fn update_opening_balance_actions() {
    assert_eq!(opening_action_on_update(None, Some(7)), OpeningAction::Keep);
    assert_eq!(opening_action_on_update(Some(Sign::Zero), Some(7)), OpeningAction::Delete(7));
    assert_eq!(opening_action_on_update(Some(Sign::Zero), None), OpeningAction::Keep);
    assert_eq!(opening_action_on_update(Some(Sign::Positive), Some(7)), OpeningAction::Retype(7, OrderKind::Sale));
    assert_eq!(opening_action_on_update(Some(Sign::Negative), None), OpeningAction::Insert(OrderKind::Purchase));
}

#[test]
fn fix_opening_balance_actions() {
    assert_eq!(opening_action_on_fix(Sign::Zero, Some(1)), Err(PartnerError::AmountRequired));
    assert_eq!(opening_action_on_fix(Sign::Negative, Some(1)), Ok(OpeningAction::Retype(1, OrderKind::Purchase)));
    assert_eq!(opening_action_on_fix(Sign::Positive, None), Ok(OpeningAction::Insert(OrderKind::Sale)));
}

#[test]
fn deletion_rules() {
    assert_eq!(check_deletable(0), Ok(()));
    assert_eq!(check_deletable(3), Err(PartnerError::HasTransactions(3)));
    assert_eq!(confirm_deleted(0), Err(PartnerError::NotFound));
    assert_eq!(confirm_deleted(1), Ok(()));
}

#[test]
fn error_messages() {
    assert_eq!(PartnerError::HasTransactions(3).message(), "Không thể xóa đối tác vì đã có 3 hóa đơn giao dịch");
    assert_eq!(PartnerError::EmptyName.message(), "Tên đối tác không được để trống");
    assert_eq!(PartnerError::NotFound.message(), "Đối tác không tồn tại");
    assert_eq!(PartnerError::AmountRequired.message(), "Amount is required");
    assert!(PartnerError::NotFound.is_not_found());
    assert!(!PartnerError::EmptyName.is_not_found());
}

#[test]
fn order_kinds_and_notes() {
    assert_eq!(order_kind_of("Sale"), OrderKind::Sale);
    assert_eq!(order_kind_of("Purchase"), OrderKind::Purchase);
    assert_eq!(order_kind_of("Return"), OrderKind::Purchase);
    assert_eq!(OrderKind::Sale.as_str(), "Sale");
    assert_eq!(quick_debt_note(None), "Ghi nợ nhanh (Sổ tay)");
    assert_eq!(quick_debt_note(Some("x".to_string())), "x");
    assert_eq!(require_found(Some(5)), Ok(5));
    assert_eq!(require_found::<i32>(None), Err(PartnerError::NotFound));
}

#[test]
fn later_rows_override_earlier_ones() {
    let m = latest_by_key(vec![(1, "a"), (2, "b"), (1, "c")]);
    assert_eq!(m.len(), 2);
    assert_eq!(m.get(&1), Some(&"c"));
    assert_eq!(m.get(&2), Some(&"b"));
}

#[test]
fn bulk_items_need_both_ids() {
    let items = vec![(Some(1), Some(2), 10), (None, Some(3), 20), (Some(4), None, 30), (Some(5), Some(6), 40)];
    assert_eq!(complete_price_items(items), vec![(1, 2, 10), (5, 6, 40)]);
}

#[test]
fn sending_an_update_twice_changes_nothing_more() {
    let patch = || PartnerPatch {
        name: Some(" Lan  ".to_string()),
        is_customer: None,
        is_supplier: Some(false),
        cccd: None,
        phone: Some("0912".to_string()),
        address: None,
    };
    let first = merge_update(details(), patch());
    let stored = PartnerDetails {
        name: first.name.clone(),
        is_customer: Some(first.is_customer),
        is_supplier: Some(first.is_supplier),
        cccd: first.cccd.clone(),
        phone: first.phone.clone(),
        address: first.address.clone(),
    };
    let second = merge_update(stored, patch());
    assert_eq!(second.name, first.name);
    assert_eq!(second.is_customer, first.is_customer);
    assert_eq!(second.is_supplier, first.is_supplier);
    assert_eq!(second.kind, first.kind);
    assert_eq!(second.cccd, first.cccd);
    assert_eq!(second.phone, first.phone);
    assert_eq!(second.address, first.address);
}

#[test]
fn quick_debt_is_booked_at_noon_of_a_given_day_or_now() {
    assert_eq!(quick_debt_date(Some("2024-03-05")), QuickDebtDate::NoonOf(2024, 3, 5));
    assert_eq!(quick_debt_date(Some("2024-02-30")), QuickDebtDate::Now);
    assert_eq!(quick_debt_date(Some("05/03/2024")), QuickDebtDate::Now);
    assert_eq!(quick_debt_date(Some("")), QuickDebtDate::Now);
    assert_eq!(quick_debt_date(None), QuickDebtDate::Now);
}

use backend_rust::listing::{
    is_descending, listing_order, sort_field_of, ListingQuery, PartnerListing, SortField,
};
use backend_rust::paging::{page_items, page_window, PageWindow};

fn row(id: i64, name: &str, cust: Option<bool>, supp: Option<bool>, phone: Option<&str>, rank: u64) -> PartnerListing {
    PartnerListing {
        id,
        name: name.to_string(),
        is_customer: cust,
        is_supplier: supp,
        phone: phone.map(|p| p.to_string()),
        debt_rank: rank,
    }
}

fn rows() -> Vec<PartnerListing> {
    vec![
        row(3, "Bình", None, None, Some("0903"), 2),
        row(1, "An", Some(true), Some(true), None, 0),
        row(2, "Châu", Some(false), Some(true), Some("0901"), 1),
        row(4, "An", None, Some(true), Some("0902"), 2),
    ]
}

fn query(search: Option<&str>, kind: Option<&str>, sort_by: Option<&str>, order: Option<&str>) -> ListingQuery {
    ListingQuery {
        search: search.map(|s| s.to_string()),
        partner_type: kind.map(|s| s.to_string()),
        sort_by: sort_by.map(|s| s.to_string()),
        sort_order: order.map(|s| s.to_string()),
        page: None,
        limit: None,
    }
}

#[test]
fn default_listing_sorts_by_name_stably() {
    assert_eq!(listing_order(&rows(), &query(None, None, None, None)), vec![1, 3, 0, 2]);
}

#[test]
fn descending_keeps_ties_in_input_order() {
    assert_eq!(listing_order(&rows(), &query(None, None, Some("name"), Some("DESC"))), vec![2, 0, 1, 3]);
}

#[test]
fn listing_sorts_by_id_phone_and_debt() {
    assert_eq!(listing_order(&rows(), &query(None, None, Some("id"), None)), vec![1, 2, 0, 3]);
    assert_eq!(listing_order(&rows(), &query(None, None, Some("phone"), Some("asc"))), vec![1, 2, 3, 0]);
    assert_eq!(listing_order(&rows(), &query(None, None, Some("debt_balance"), Some("desc"))), vec![0, 3, 2, 1]);
}

#[test]
fn type_filter_selects_roles() {
    assert_eq!(listing_order(&rows(), &query(None, Some("Customer"), None, None)), vec![1, 3, 0]);
    assert_eq!(listing_order(&rows(), &query(None, Some("Supplier"), None, None)), vec![1, 3, 2]);
    assert_eq!(listing_order(&rows(), &query(None, Some("Both"), None, None)), vec![1, 3]);
    assert_eq!(listing_order(&rows(), &query(None, Some("All"), None, None)), vec![1, 3, 0, 2]);
}

#[test]
fn search_matches_folded_names_and_phones() {
    assert_eq!(listing_order(&rows(), &query(Some("Bình"), None, None, None)), vec![0]);
    assert_eq!(listing_order(&rows(), &query(Some("binh"), None, None, None)), Vec::<usize>::new());
    assert_eq!(listing_order(&rows(), &query(Some("Binh"), None, None, None)), vec![0]);
    assert_eq!(listing_order(&rows(), &query(Some("Chau"), None, None, None)), vec![2]);
    assert_eq!(listing_order(&rows(), &query(Some("chau"), None, None, None)), Vec::<usize>::new());
    assert_eq!(listing_order(&rows(), &query(Some("090"), None, None, None)), vec![3, 0, 2]);
    assert_eq!(listing_order(&rows(), &query(Some(""), None, None, None)), vec![1, 3, 0, 2]);
}

#[test]
fn sort_options_are_read() {
    assert_eq!(sort_field_of(&None), SortField::Name);
    assert_eq!(sort_field_of(&Some("unknown".to_string())), SortField::Name);
    assert_eq!(sort_field_of(&Some("debt_balance".to_string())), SortField::DebtBalance);
    assert!(is_descending(&Some("Desc".to_string())));
    assert!(!is_descending(&None));
}

#[test]
fn page_request_needs_both_values() {
    let mut q = query(None, None, None, None);
    assert_eq!(q.page_request(), None);
    q.page = Some(2);
    assert_eq!(q.page_request(), None);
    q.limit = Some(10);
    assert_eq!(q.page_request(), Some((2, 10)));
}

#[test]
fn pages_cover_the_listing() {
    assert_eq!(page_window(25, 1, 10), PageWindow { start: 0, end: 10, pages: 3 });
    assert_eq!(page_window(25, 3, 10), PageWindow { start: 20, end: 25, pages: 3 });
    assert_eq!(page_window(25, 4, 10), PageWindow { start: 30, end: 25, pages: 3 });
    assert_eq!(page_window(25, 0, 10), PageWindow { start: 0, end: 10, pages: 3 });
    assert_eq!(page_window(0, 1, 10), PageWindow { start: 0, end: 0, pages: 0 });
    assert_eq!(page_window(20, 2, 10), PageWindow { start: 10, end: 20, pages: 2 });
}

#[test]
fn a_zero_limit_gives_no_items() {
    assert_eq!(page_window(5, 1, 0), PageWindow { start: 0, end: 0, pages: u32::MAX });
    assert_eq!(page_window(0, 1, 0), PageWindow { start: 0, end: 0, pages: 0 });
}

#[test]
fn page_items_slice_the_window() {
    let items: Vec<usize> = (0..25).collect();
    assert_eq!(page_items(&items, page_window(25, 3, 10)), vec![20, 21, 22, 23, 24]);
    assert_eq!(page_items(&items, page_window(25, 4, 10)), Vec::<usize>::new());
    assert_eq!(page_items(&items, page_window(25, 1, 0)), Vec::<usize>::new());
}

use backend_rust::ledger::{
    date_text, debt_timeline, ledger_lines, CycleTracker, DebtCycle, Effect, LedgerOrder, LedgerVoucher,
    Moment, OrderEvent, Source, VoucherEvent,
};

fn at(secs: i64) -> Option<Moment> {
    Some(Moment { secs, nanos: 0 })
}

fn order(date: Option<Moment>, o_type: &str, pm: Option<&str>) -> OrderEvent {
    OrderEvent { date, o_type: o_type.to_string(), payment_method: pm.map(|p| p.to_string()) }
}

fn voucher(date: Option<Moment>, v_type: &str) -> VoucherEvent {
    VoucherEvent { date, v_type: v_type.to_string(), source: Some("manual".to_string()) }
}

#[test]
fn timeline_keeps_dated_debt_items_in_time_order() {
    let orders = vec![
        order(at(30), "Sale", Some("Debt")),
        order(at(10), "Purchase", Some("Debt")),
        order(at(5), "Sale", Some("Cash")),
        order(None, "Sale", Some("Debt")),
        order(at(20), "Sale", None),
    ];
    let vouchers = vec![voucher(at(30), "Receipt"), voucher(None, "Payment"), voucher(at(1), "Payment")];
    let items = debt_timeline(&orders, &vouchers);
    let got: Vec<(Source, usize, i64, Effect)> = items.iter().map(|t| (t.source, t.index, t.moment.secs, t.effect)).collect();
    assert_eq!(
        got,
        vec![
            (Source::Voucher, 2, 1, Effect::Increase),
            (Source::Order, 1, 10, Effect::Decrease),
            (Source::Order, 0, 30, Effect::Increase),
            (Source::Voucher, 0, 30, Effect::Decrease),
        ]
    );
}

#[test]
fn timeline_breaks_ties_by_nanoseconds_then_source_then_row() {
    let orders = vec![
        order(Some(Moment { secs: 5, nanos: 9 }), "Sale", Some("Debt")),
        order(Some(Moment { secs: 5, nanos: 1 }), "Sale", Some("Debt")),
        order(Some(Moment { secs: 5, nanos: 1 }), "Return", Some("Debt")),
    ];
    let vouchers = vec![voucher(Some(Moment { secs: 5, nanos: 1 }), "Receipt")];
    let items = debt_timeline(&orders, &vouchers);
    let got: Vec<(Source, usize)> = items.iter().map(|t| (t.source, t.index)).collect();
    assert_eq!(got, vec![(Source::Order, 1), (Source::Order, 2), (Source::Voucher, 0), (Source::Order, 0)]);
    assert_eq!(items[1].effect, Effect::Decrease);
}

#[test]
fn cycles_open_and_close_with_the_balance() {
    let mut t = CycleTracker::new();
    // whether the balance is settled after each timeline step
    for now in [false, false, true, true, false, false] {
        assert!(t.can_advance(now));
        t.advance(now);
    }
    assert_eq!(
        t.newest_first(),
        vec![
            DebtCycle { number: 2, start: 4, end: None },
            DebtCycle { number: 1, start: 0, end: Some(2) },
        ]
    );
}

#[test]
fn a_balance_that_never_settles_leaves_one_open_cycle() {
    let mut t = CycleTracker::new();
    t.advance(true);
    assert_eq!(t.newest_first(), Vec::<DebtCycle>::new());
    t.advance(false);
    t.advance(false);
    assert_eq!(t.newest_first(), vec![DebtCycle { number: 1, start: 1, end: None }]);
}

#[test]
fn cycle_titles_and_status() {
    let open = DebtCycle { number: 3, start: 0, end: None };
    let closed = DebtCycle { number: 1, start: 0, end: Some(2) };
    assert_eq!(open.label("05/03/24"), "Chu kỳ 3 (Từ 05/03/24)");
    assert_eq!(open.status(), "Đang nợ");
    assert_eq!(closed.status(), "Đã tất toán");
}

#[test]
fn ledger_lines_describe_orders_and_vouchers() {
    let orders = vec![
        LedgerOrder { id: 7, display_id: None, o_type: "Sale".to_string(), payment_method: Some("Debt".to_string()) },
        LedgerOrder { id: 8, display_id: Some("#NODAU".to_string()), o_type: "Purchase".to_string(), payment_method: Some("Debt".to_string()) },
        LedgerOrder { id: 9, display_id: Some("HD9".to_string()), o_type: "Sale".to_string(), payment_method: None },
    ];
    let vouchers = vec![
        LedgerVoucher { id: 3, v_type: "Receipt".to_string(), note: None },
        LedgerVoucher { id: 4, v_type: "DebtIncrease".to_string(), note: Some("ghi no".to_string()) },
        LedgerVoucher { id: 5, v_type: "Adjust".to_string(), note: None },
    ];
    let lines = ledger_lines(&orders, &vouchers);
    assert_eq!(lines.len(), 6);
    assert_eq!(lines[0].ref_id, "ORD-7");
    assert_eq!(lines[0].desc, "Bán hàng - #ORD-7");
    assert_eq!(lines[0].effect, Effect::Increase);
    assert!(lines[0].moves_balance);
    assert_eq!(lines[1].desc, "Nhập hàng - ##NODAU");
    assert_eq!(lines[1].effect, Effect::Decrease);
    assert_eq!(lines[2].payment_method, "Cash");
    assert_eq!(lines[2].effect, Effect::Unchanged);
    assert!(!lines[2].moves_balance);
    assert_eq!(lines[3].ref_id, "VOU-3");
    assert_eq!(lines[3].desc, "Phiếu thu");
    assert_eq!(lines[3].effect, Effect::Decrease);
    assert_eq!(lines[3].source, Source::Voucher);
    assert_eq!(lines[4].desc, "ghi no");
    assert_eq!(lines[4].effect, Effect::Increase);
    assert_eq!(lines[5].desc, "Phiếu chi");
    assert_eq!(lines[5].effect, Effect::Unchanged);
    assert!(lines[5].moves_balance);
}

#[test]
fn ledger_and_timeline_agree_on_standard_kinds() {
    let orders = vec![order(at(1), "Sale", Some("Debt")), order(at(2), "Purchase", Some("Debt"))];
    let vouchers = vec![voucher(at(3), "Receipt"), voucher(at(4), "Payment"), voucher(at(5), "DebtIncrease")];
    let timeline = debt_timeline(&orders, &vouchers);
    let ledger_orders: Vec<LedgerOrder> = orders
        .iter()
        .enumerate()
        .map(|(i, o)| LedgerOrder {
            id: i as i64,
            display_id: None,
            o_type: o.o_type.clone(),
            payment_method: o.payment_method.clone(),
        })
        .collect();
    let ledger_vouchers: Vec<LedgerVoucher> = vouchers
        .iter()
        .enumerate()
        .map(|(i, v)| LedgerVoucher { id: i as i64, v_type: v.v_type.clone(), note: None })
        .collect();
    let lines = ledger_lines(&ledger_orders, &ledger_vouchers);
    assert_eq!(timeline.len(), lines.len());
    for (item, line) in timeline.iter().zip(lines.iter()) {
        assert_eq!(item.source, line.source);
        assert_eq!(item.effect, line.effect);
    }
}

#[test]
fn automatic_and_sourceless_vouchers_stay_off_the_timeline() {
    let orders = vec![order(at(1), "Sale", Some("Debt"))];
    let mut auto = voucher(at(2), "Receipt");
    auto.source = Some("auto".to_string());
    let mut sourceless = voucher(at(3), "Receipt");
    sourceless.source = None;
    let vouchers = vec![auto, voucher(at(4), "Payment"), sourceless];
    let timeline = debt_timeline(&orders, &vouchers);
    assert_eq!(timeline.len(), 2);
    assert_eq!((timeline[1].source, timeline[1].index), (Source::Voucher, 1));
}

#[test]
fn off_timeline_rows_leave_the_timeline_alone() {
    let orders = vec![order(at(5), "Sale", Some("Debt")), order(at(1), "Purchase", Some("Debt"))];
    let vouchers = vec![voucher(at(3), "Receipt")];
    let before = debt_timeline(&orders, &vouchers);
    let more_orders = vec![
        order(at(5), "Sale", Some("Debt")),
        order(at(2), "Sale", Some("Cash")),
        order(None, "Sale", Some("Debt")),
        order(at(1), "Purchase", Some("Debt")),
    ];
    let mut auto = voucher(at(2), "Payment");
    auto.source = Some("auto".to_string());
    let more_vouchers = vec![auto, voucher(None, "Payment"), voucher(at(3), "Receipt")];
    let after = debt_timeline(&more_orders, &more_vouchers);
    assert_eq!(before.len(), after.len());
    for (b, a) in before.iter().zip(after.iter()) {
        assert_eq!((b.source, b.moment, b.effect), (a.source, a.moment, a.effect));
    }
}

#[test]
fn dates_are_written_as_chrono_writes_them() {
    let m = Moment { secs: 1_704_164_645, nanos: 0 };
    assert_eq!(date_text(Some(m)), Some("2024-01-02 03:04:05".to_string()));
    assert_eq!(date_text(None), Some(String::new()));
    let c = DebtCycle { number: 2, start: 0, end: None };
    assert_eq!(c.title(m), Some("Chu kỳ 2 (Từ 02/01/24)".to_string()));
    assert_eq!(date_text(Some(Moment { secs: i64::MAX, nanos: 0 })), None);
}

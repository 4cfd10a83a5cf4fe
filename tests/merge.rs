use xapo2ks::kryptosekken::{merge_interest, row_to_record, unify, KsRow, TxType};
use xapo2ks::money::{Currency, Decimal, Money};
use xapo2ks::time::{parse_date_time, DateTime};

fn date_time(date: &str) -> DateTime {
    parse_date_time(&format!("{date} 10:11:12")).unwrap()
}

fn btc(amount: u8) -> Option<Money> {
    Some(Money::new(Decimal::from_u64(amount as u64), Currency::Btc))
}

fn row(date_time: DateTime, tx_type: TxType, amount: u8) -> KsRow {
    KsRow::new(date_time, tx_type, btc(amount), None, None, "".to_string())
}

fn test_row_1() -> KsRow {
    row(date_time("2024-01-12"), TxType::Interest, 1)
}

#[test]
fn interest_is_merged() {
    let row2 = row(date_time("2024-01-12"), TxType::Interest, 2);
    let row3 = row(date_time("2024-01-13"), TxType::Interest, 4);
    let row4 = row(date_time("2024-01-12"), TxType::Income, 1);
    let rows = vec![test_row_1(), row4.clone(), row2.clone(), row3.clone()];
    let merged = merge_interest(rows).unwrap();
    assert_eq!(merged.len(), 3);
    assert!(merged.contains(&row4), "Non-interest was dropped by merge");
    assert!(merged
        .iter()
        .find(|row| row.tx_type == TxType::Interest
            && row.time == date_time("2024-01-12")
            && row.incoming == Some(Money::new(Decimal::from_u64(3), Currency::Btc)))
        .is_some());
}

#[test]
fn single_interest_not_merged() {
    let rows = vec![test_row_1()];
    let merged = merge_interest(rows).unwrap();
    assert_eq!(
        merged[0],
        test_row_1(),
        "Single daily interest was changed by merge"
    );
}

#[test]
fn merged_interest_has_sum_and_note() {
    let rows = vec![
        row(date_time("2024-01-12"), TxType::Interest, 1),
        row(date_time("2024-01-12"), TxType::Interest, 2),
        row(date_time("2024-01-12"), TxType::Income, 5),
    ];
    let merged = merge_interest(rows).unwrap();
    assert_eq!(merged.len(), 2);
    assert_eq!(merged[0].note, "Summed daily interest");
    assert_eq!(merged[0].incoming.unwrap().amount.to_text(), "3");
    assert_eq!(merged[1], row(date_time("2024-01-12"), TxType::Income, 5));
}

#[test]
fn merge_sums_fractions_exactly() {
    let a = Decimal::try_new(1, 8).unwrap();
    let b = Decimal::try_new(25, 1).unwrap();
    let t = date_time("2024-02-01");
    let rows = vec![
        KsRow::new(t, TxType::Interest, Some(Money::new(a, Currency::Btc)), None, None, "USD x".to_string()),
        KsRow::new(t, TxType::Interest, Some(Money::new(b, Currency::Btc)), None, None, "BTC y".to_string()),
    ];
    let merged = merge_interest(rows).unwrap();
    assert_eq!(merged.len(), 1);
    assert_eq!(merged[0].incoming.unwrap().amount.to_text(), "2.50000001");
}

#[test]
fn merge_of_nothing_is_empty() {
    assert!(merge_interest(Vec::new()).unwrap().is_empty());
}

#[test]
fn unify_sorts_by_time() {
    let account = vec![
        row(parse_date_time("2024-01-13 09:00:00").unwrap(), TxType::TransferOut, 1),
        row(parse_date_time("2024-01-12 08:00:00").unwrap(), TxType::Income, 2),
    ];
    let savings = vec![row(parse_date_time("2024-01-12 23:59:59").unwrap(), TxType::Interest, 3)];
    let all = unify(account, savings).unwrap();
    let times: Vec<String> = all.iter().map(|r| r.time.to_text()).collect();
    assert_eq!(
        times,
        vec!["2024-01-12 08:00:00", "2024-01-12 23:59:59", "2024-01-13 09:00:00"]
    );
}

#[test]
fn record_has_ten_columns() {
    let t = parse_date_time("2024-03-04 05:06:07").unwrap();
    let r = KsRow::new(
        t,
        TxType::TransferOut,
        None,
        Some(Money::new(Decimal::try_new(-150, 2).unwrap().abs(), Currency::Btc)),
        None,
        "a|b||c".to_string(),
    );
    assert_eq!(
        row_to_record(&r),
        vec!["2024-03-04 05:06:07", "Overføring-Ut", "", "", "1.50", "BTC", "", "", "Xapo", "abc"]
    );
}

#[test]
fn labels_of_kinds() {
    assert_eq!(TxType::Consumption.label(), "Forbruk");
    assert_eq!(TxType::Income.label(), "Inntekt");
    assert_eq!(TxType::Interest.label(), "Inntekt");
    assert_eq!(TxType::TransferOut.label(), "Overføring-Ut");
}

#[test]
fn three_rows_on_one_day_sum_exactly() {
    let t = date_time("2024-03-01");
    let amounts = [(5, 1), (25, 2), (1, 8)];
    let mut rows: Vec<KsRow> = amounts
        .iter()
        .map(|&(m, s)| {
            KsRow::new(t, TxType::Interest, Some(Money::new(Decimal::try_new(m, s).unwrap(), Currency::Btc)), None, None, "x".to_string())
        })
        .collect();
    let lone = row(date_time("2024-03-02"), TxType::Interest, 7);
    rows.push(lone.clone());
    let merged = merge_interest(rows).unwrap();
    assert_eq!(merged.len(), 2);
    let summed = merged.iter().find(|r| r.time == t).unwrap();
    assert_eq!(summed.note, "Summed daily interest");
    assert_eq!(summed.incoming.unwrap().amount.to_text(), "0.75000001");
    assert!(merged.contains(&lone));
}

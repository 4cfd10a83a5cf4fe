use xapo2ks::convert::{xapo_row_to_ks, xapo_to_ks, ConvertError};
use xapo2ks::kryptosekken::{csv_header, row_to_record, unify, TxType};
use xapo2ks::money::{parse_decimal, Currency, MoneyError};
use xapo2ks::time::parse_date_time;
use xapo2ks::xapo::{record_to_xapo_row, ParseError, XapoRow};

fn xrow(description: &str, amount: &str, sub: &str) -> XapoRow {
    XapoRow {
        time: parse_date_time("2024-05-06 07:08:09").unwrap(),
        amount: parse_decimal(amount).unwrap(),
        description: description.to_string(),
        sub_description: sub.to_string(),
    }
}

#[test]
fn sent_btc_is_transfer_out() {
    let k = xapo_row_to_ks(&xrow("Sent BTC", "-0.5", "to bob")).unwrap().unwrap();
    assert_eq!(k.tx_type, TxType::TransferOut);
    assert!(k.incoming.is_none());
    let out = k.outgoing.unwrap();
    assert_eq!(out.currency, Currency::Btc);
    assert_eq!(out.amount.to_text(), "0.5");
    assert!(k.note.starts_with("CHECK!"));
    assert_eq!(k.note, "CHECK! sub_descr=to bob");
}

#[test]
fn lightning_is_transfer_out() {
    let k = xapo_row_to_ks(&xrow("Lightning network transaction", "-0.001", "x")).unwrap().unwrap();
    assert_eq!(k.tx_type, TxType::TransferOut);
    assert_eq!(k.outgoing.unwrap().amount.to_text(), "0.001");
}

#[test]
fn move_rows_are_dropped() {
    assert!(xapo_row_to_ks(&xrow("Move BTC savings to BTC wallet", "-1", "")).unwrap().is_none());
    assert!(xapo_row_to_ks(&xrow("Move anything", "3", "")).unwrap().is_none());
}

#[test]
fn exchange_btc_to_usd_is_consumption() {
    let k = xapo_row_to_ks(&xrow("Exchange BTC to USD", "-1.0", "sold")).unwrap().unwrap();
    assert_eq!(k.tx_type, TxType::Consumption);
    let out = k.outgoing.unwrap();
    assert_eq!(out.amount.to_text(), "1.0");
    assert_eq!(out.currency, Currency::Btc);
    assert_eq!(k.note, "sold");
}

#[test]
fn exchange_usd_to_btc_is_unsupported() {
    let e = xapo_row_to_ks(&xrow("Exchange USD to BTC", "1", "")).unwrap_err();
    assert_eq!(e, ConvertError::Unsupported("Trade from USD to BTC".to_string()));
}

#[test]
fn exchange_of_unknown_currency_fails() {
    let e = xapo_row_to_ks(&xrow("Exchange ETH to GBP", "1", "")).unwrap_err();
    assert_eq!(
        e,
        ConvertError::CurrencyParse(MoneyError::UnknownCurrency("ETH".to_string()))
    );
    let e = xapo_row_to_ks(&xrow("Exchange BTC to gbp", "1", "")).unwrap_err();
    assert_eq!(
        e,
        ConvertError::CurrencyParse(MoneyError::UnknownCurrency("GBP".to_string()))
    );
}

#[test]
fn short_exchange_names_missing_currency() {
    let e = xapo_row_to_ks(&xrow("Exchange BTC", "1", "")).unwrap_err();
    assert_eq!(
        e,
        ConvertError::CurrencyParse(MoneyError::UnknownCurrency("".to_string()))
    );
    let e = xapo_row_to_ks(&xrow("Exchange ", "1", "")).unwrap_err();
    assert_eq!(
        e,
        ConvertError::CurrencyParse(MoneyError::UnknownCurrency("".to_string()))
    );
    let e = xapo_row_to_ks(&xrow("Exchange eth", "1", "")).unwrap_err();
    assert_eq!(
        e,
        ConvertError::CurrencyParse(MoneyError::UnknownCurrency("ETH".to_string()))
    );
}

#[test]
fn interest_and_cashback_are_income() {
    let k = xapo_row_to_ks(&xrow("Daily USD interest", "0.00000012", "day")).unwrap().unwrap();
    assert_eq!(k.tx_type, TxType::Interest);
    assert_eq!(k.note, "USD day");
    assert_eq!(k.incoming.unwrap().amount.to_text(), "0.00000012");
    let k = xapo_row_to_ks(&xrow("Daily BTC interest", "1.2E-5", "d")).unwrap().unwrap();
    assert_eq!(k.note, "BTC d");
    assert_eq!(k.incoming.unwrap().amount.to_text(), "0.000012");
    let k = xapo_row_to_ks(&xrow("Card Cashback Redemption", "0.1", "shop")).unwrap().unwrap();
    assert_eq!(k.tx_type, TxType::Income);
    assert_eq!(k.note, "Cashback (shop)");
    assert!(k.outgoing.is_none());
}

#[test]
fn unknown_description_fails_batch() {
    let rows = vec![
        xrow("Sent BTC", "-1", ""),
        xrow("Some new transaction type", "1", ""),
        xrow("Sent BTC", "-1", ""),
    ];
    let e = xapo_to_ks(rows).unwrap_err();
    assert_eq!(e, ConvertError::UnknownTxType("Some new transaction type".to_string()));
}

#[test]
fn batch_keeps_order_and_drops_moves() {
    let rows = vec![
        xrow("Sent BTC", "-1", "a"),
        xrow("Move BTC savings to BTC wallet", "1", "b"),
        xrow("Card Cashback Redemption", "2", "c"),
    ];
    let out = xapo_to_ks(rows).unwrap();
    assert_eq!(out.len(), 2);
    assert_eq!(out[0].tx_type, TxType::TransferOut);
    assert_eq!(out[1].tx_type, TxType::Income);
}

fn record(fields: &[&str]) -> Vec<String> {
    fields.iter().map(|f| f.to_string()).collect()
}

#[test]
fn record_fields_are_read() {
    let x = record_to_xapo_row(&record(&["2024-01-12 10:11:12", "-0.5", "Sent BTC", "to bob", "bob"])).unwrap();
    assert_eq!(x.time.to_text(), "2024-01-12 10:11:12");
    assert_eq!(x.amount.to_text(), "-0.5");
    assert_eq!(x.description, "Sent BTC");
    assert_eq!(x.sub_description, "to bob");
}

#[test]
fn record_errors_name_the_cause() {
    let e = record_to_xapo_row(&record(&["2024-01-12", "1", "a", "b"])).unwrap_err();
    assert!(matches!(e, ParseError::TimeParse(_)));
    let e = record_to_xapo_row(&record(&["2024-01-12 10:11:12", "one", "a", "b"])).unwrap_err();
    assert!(matches!(e, ParseError::DecimalParse(_)));
}

#[test]
fn two_accounts_end_to_end() {
    let checking = vec![
        record(&["2024-01-12 12:00:00", "-0.5", "Sent BTC", "to bob", ""]),
        record(&["2024-01-13 08:00:00", "0.01", "Card Cashback Redemption", "coffee", ""]),
        record(&["2024-01-12 13:00:00", "1", "Move BTC savings to BTC wallet", "", ""]),
    ];
    let savings = vec![
        record(&["2024-01-12 00:00:01", "0.00000001", "Daily USD interest", "u", ""]),
        record(&["2024-01-12 00:00:02", "0.00000002", "Daily BTC interest", "b", ""]),
        record(&["2024-01-11 00:00:01", "0.00000003", "Daily BTC interest", "c|d", ""]),
    ];
    let read = |rows: Vec<Vec<String>>| {
        let xs: Vec<XapoRow> = rows.iter().map(|r| record_to_xapo_row(r).unwrap()).collect();
        xapo_to_ks(xs).unwrap()
    };
    let all = unify(read(checking), read(savings)).unwrap();
    let lines: Vec<Vec<String>> = all.iter().map(row_to_record).collect();
    assert_eq!(csv_header().len(), 10);
    assert_eq!(
        lines,
        vec![
            record(&["2024-01-11 00:00:01", "Inntekt", "0.00000003", "BTC", "", "", "", "", "Xapo", "BTC cd"]),
            record(&["2024-01-12 00:00:01", "Inntekt", "0.00000003", "BTC", "", "", "", "", "Xapo", "Summed daily interest"]),
            record(&["2024-01-12 12:00:00", "Overføring-Ut", "", "", "0.5", "BTC", "", "", "Xapo", "CHECK! sub_descr=to bob"]),
            record(&["2024-01-13 08:00:00", "Inntekt", "0.01", "BTC", "", "", "", "", "Xapo", "Cashback (coffee)"]),
        ]
    );
}

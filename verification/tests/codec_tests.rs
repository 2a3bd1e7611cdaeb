use toy_txn_engine::{amount_from_string, Ledger, ProcessEvent, Record, Txn};

#[test]
fn test_u128_to_decimal_string() {
    let value = 12345;
    let to_string = Txn::u128_to_decimal_str(value);
    assert_eq!(to_string, Ok(String::from("1.2345")));

    let value = 100_2345;
    let to_string = Txn::u128_to_decimal_str(value);
    assert_eq!(to_string, Ok(String::from("100.2345")));

    let value = 2345;
    let to_string = Txn::u128_to_decimal_str(value);
    assert_eq!(to_string, Ok(String::from("0.2345")));

    let value = 5;
    let to_string = Txn::u128_to_decimal_str(value);
    assert_eq!(to_string, Ok(String::from("0.0005")));

    let value = 0;
    let to_string = Txn::u128_to_decimal_str(value);
    assert_eq!(to_string, Ok(String::from("0.0000")));
}

#[test]
fn test_custom_deserialise_record_amount() {
    // the amount codec correctly denominates a decimal string.
    assert_eq!(amount_from_string("1.5"), Ok(Some(15000)));

    // an amount with exactly four decimals.
    assert_eq!(amount_from_string("0.1234"), Ok(Some(1234)));

    // an amount beyond 4 decimals, in which we choose to truncate
    // after 4 decimals.
    assert_eq!(amount_from_string("0.123499999"), Ok(Some(1234)));

    // an amount having no units before the d.p. - which is sometimes
    // considered valid.
    assert_eq!(amount_from_string(".0005"), Ok(Some(5)));

    // an integer and not a decimal, to test that numbers in general
    // are accepted.
    assert_eq!(amount_from_string("100"), Ok(Some(100_0000)));

    // a zero.
    assert_eq!(amount_from_string("0.0"), Ok(Some(0)));

    // no amount supplied.
    assert_eq!(amount_from_string(""), Ok(None));
}

// Truncation beyond four fractional digits: the same amount as the
// truncated string.
#[test]
fn test_parse_truncates_beyond_four_digits() {
    assert_eq!(
        amount_from_string("0.123499999"),
        amount_from_string("0.1234")
    );
}

// A missing integer part is read as zero.
#[test]
fn test_parse_empty_integer_part() {
    assert_eq!(amount_from_string(".0005"), amount_from_string("0.0005"));
}

// A plain integer is read as if it had four zero fractional digits.
#[test]
fn test_parse_plain_integer() {
    assert_eq!(amount_from_string("100"), amount_from_string("100.0000"));
}

// Round trip: rendering a parsed amount gives the normalized string, with
// the fractional part padded or truncated to exactly four digits.
#[test]
fn test_format_parse_round_trip() {
    for s in ["1.5", "100", ".0005", "0.123499999", "0.0", "12.3456"] {
        let parsed = amount_from_string(s).unwrap().unwrap();
        let rendered = Txn::u128_to_decimal_str(parsed).unwrap();
        let reparsed = amount_from_string(&rendered).unwrap().unwrap();
        assert_eq!(reparsed, parsed);
    }
    assert_eq!(
        Txn::u128_to_decimal_str(amount_from_string("1.5").unwrap().unwrap()),
        Ok(String::from("1.5000"))
    );
    assert_eq!(
        Txn::u128_to_decimal_str(amount_from_string("100").unwrap().unwrap()),
        Ok(String::from("100.0000"))
    );
    assert_eq!(
        Txn::u128_to_decimal_str(amount_from_string(".0005").unwrap().unwrap()),
        Ok(String::from("0.0005"))
    );
}

// Malformed and overflowing amounts are distinguished.
#[test]
fn test_parse_errors() {
    assert_eq!(amount_from_string("abc"), Err(ProcessEvent::MalformedAmount));
    assert_eq!(amount_from_string("1.2.3"), Err(ProcessEvent::MalformedAmount));
    assert_eq!(amount_from_string("-1"), Err(ProcessEvent::MalformedAmount));
    assert_eq!(amount_from_string("1,5"), Err(ProcessEvent::MalformedAmount));
    // an integer part too large to scale by 10,000
    assert_eq!(
        amount_from_string("34028236692093846346337460743176822"),
        Err(ProcessEvent::AmountOverflow)
    );
    // a digit string too large to represent at all
    assert_eq!(
        amount_from_string("340282366920938463463374607431768211456"),
        Err(ProcessEvent::MalformedAmount)
    );
}

// End to end: a disputed deposit charged back leaves the earlier deposit
// available, nothing held, and the account locked.
#[test]
fn test_end_to_end_chargeback_snapshot() {
    let mut ledger = Ledger::new();
    let rows: [(&str, u16, u32, &str); 4] = [
        ("deposit", 1, 1, "1000.0"),
        ("deposit", 1, 2, "700.0"),
        ("dispute", 1, 2, ""),
        ("chargeback", 1, 2, ""),
    ];
    for (kind, client, tx, amount) in rows {
        let amount = amount_from_string(amount).unwrap();
        let record = Record { txn_type: kind.to_owned(), client, tx, amount };
        ledger.process_transaction(record).unwrap();
    }
    let account = ledger.accounts.get(&1).unwrap();
    assert_eq!(
        Txn::u128_to_decimal_str(account.available),
        Ok(String::from("1000.0000"))
    );
    assert_eq!(Txn::u128_to_decimal_str(account.held), Ok(String::from("0.0000")));
    assert_eq!(
        Txn::u128_to_decimal_str(account.total()),
        Ok(String::from("1000.0000"))
    );
    assert!(account.frozen);
}

use bcheck::Amount;
use bcheck::DateTime;
use bcheck::Record;
use bcheck::Transaction;
use bcheck::TransactionType;
use bcheck::decode_json;
use bcheck::decode_tsv;
use bcheck::encode_json;
use bcheck::encode_tsv;
use bcheck::is_proper_date_format;

fn sample_records() -> Vec<Record> {
    vec![
        Record::from(
            "FF04C3DC-F0FE-472E-8737-0F4034C049F0",
            Transaction::from(
                Some("2021-7-8"),
                Some(1260),
                Some("Opening Balance"),
                "Sam Hill Credit Union",
                "Open Account",
                Amount::from_cents(50000),
                TransactionType::Deposit,
                true,
            )
            .unwrap(),
        ),
        Record::from(
            "1422CBC6-7B0B-4584-B7AB-35167CC5647B",
            Transaction::from(
                Some("2021-7-8"),
                None,
                None,
                "Fake Street Electronics",
                "Head set",
                Amount::from_cents(20000),
                TransactionType::Withdrawal,
                false,
            )
            .unwrap(),
        ),
    ]
}

fn transactions_structurally_equal(a: &Transaction, b: &Transaction) -> bool {
    a == b
}

#[test]
fn date_parse_and_format_round_trip() {
    let padded = DateTime::parse("2021-07-08").unwrap();
    let bare = DateTime::parse("2021-7-8").unwrap();
    assert_eq!(padded, bare);
    assert_eq!(padded.format(), "2021-07-08");
    assert!(is_proper_date_format("2021-7-8"));
    assert!(is_proper_date_format("2021-07-08"));
    assert_eq!(DateTime::parse("0001-1-1").unwrap().format(), "0001-01-01");
}

#[test]
fn date_parse_rejects_malformed_text() {
    assert!(DateTime::parse("2021, 7, 8").is_err());
    assert!(DateTime::parse("").is_err());
    assert!(DateTime::parse("21-7-8").is_err());
    assert!(DateTime::parse("2021-13-1").is_err());
    assert!(DateTime::parse("2021-2-30").is_err());
    assert_eq!(
        DateTime::parse("boo").unwrap_err(),
        "String must be in the format of YYYY-MM-DD."
    );
}

#[test]
fn json_round_trip_reproduces_records() {
    let records = sample_records();
    let text = encode_json(&records);
    let decoded = decode_json(&text).unwrap();
    assert_eq!(decoded.len(), records.len());
    for k in 0..records.len() {
        assert_eq!(decoded[k].id, records[k].id);
        assert!(transactions_structurally_equal(
            &decoded[k].transaction,
            &records[k].transaction
        ));
    }
    // a second round trip reproduces the text itself
    assert_eq!(encode_json(&decoded), text);
}

#[test]
fn empty_record_list_encodes_and_decodes() {
    let records: Vec<Record> = Vec::new();
    let text = encode_json(&records);
    assert_eq!(text, "[]");
    assert_eq!(decode_json(&text).unwrap().len(), 0);
}

#[test]
fn tsv_round_trip_is_stable() {
    let records = sample_records();
    let text = encode_tsv(&records);
    let decoded = decode_tsv(&text);
    assert_eq!(decoded.len(), records.len());
    assert_eq!(encode_tsv(&decoded), text);
    for k in 0..records.len() {
        assert_eq!(decoded[k].id, records[k].id);
        assert!(transactions_structurally_equal(
            &decoded[k].transaction,
            &records[k].transaction
        ));
    }
}

#[test]
fn parse_type_case_insensitively() {
    assert_eq!(
        TransactionType::parse("deposit").unwrap(),
        TransactionType::Deposit
    );
    assert_eq!(
        TransactionType::parse("Deposit").unwrap(),
        TransactionType::Deposit
    );
    assert_eq!(
        TransactionType::parse("WITHDRAWAL").unwrap(),
        TransactionType::Withdrawal
    );
    assert!(TransactionType::parse("boo").is_err());
}

#[test]
fn parse_type_error_carries_lowercased_text() {
    let error = TransactionType::parse("BOO").unwrap_err();
    assert_eq!(error.message(), "boo is not a valid type");
}

#[test]
fn three_record_balance_chain() {
    let first = Record::from(
        "A",
        Transaction::from(
            Some("2021-7-8"),
            None,
            None,
            "Sam Hill Credit Union",
            "Open Account",
            Amount::from_cents(50000),
            TransactionType::Deposit,
            false,
        )
        .unwrap(),
    );
    assert_eq!(first.balance(), 50000);
    let second = Record::from_with_previous(
        "B",
        Transaction::from(
            Some("2021-7-9"),
            None,
            None,
            "Fake Street Electronics",
            "Head set",
            Amount::from_cents(20000),
            TransactionType::Withdrawal,
            false,
        )
        .unwrap(),
        Some(Box::new(first)),
    );
    assert_eq!(second.balance(), 30000);
    let third = Record::from_with_previous(
        "C",
        Transaction::from(
            Some("2021-7-10"),
            None,
            None,
            "Velociraptor Entertainment",
            "",
            Amount::from_cents(5000000),
            TransactionType::Deposit,
            false,
        )
        .unwrap(),
        Some(Box::new(second)),
    );
    assert_eq!(third.balance(), 5030000);
}

#[test]
fn records_equal_by_identifier_alone() {
    let a = Record::from(
        "SAME-ID",
        Transaction::from(
            Some("2021-7-8"),
            Some(1),
            None,
            "one vendor",
            "",
            Amount::from_cents(100),
            TransactionType::Deposit,
            false,
        )
        .unwrap(),
    );
    let b = Record::from(
        "SAME-ID",
        Transaction::from(
            Some("1999-1-2"),
            None,
            Some("other"),
            "another vendor",
            "memo",
            Amount::from_cents(999),
            TransactionType::Withdrawal,
            true,
        )
        .unwrap(),
    );
    assert_eq!(a, b);
    let c = Record::from("OTHER-ID", b.transaction.clone());
    assert_ne!(b, c);
}

#[test]
fn literal_json_scenario() {
    let json = "[{\"id\":\"FF04C3DC-F0FE-472E-8737-0F4034C049F0\",\"transaction\":{\"amount\":500,\"vendor\":\"Sam Hill Credit Union\",\"memo\":\"Open Account\",\"check_number\":1260,\"type\":\"deposit\",\"date\":\"2021-07-08\"}}]";
    let decoded = decode_json(json).unwrap();
    assert_eq!(decoded.len(), 1);
    let t = &decoded[0].transaction;
    assert_eq!(t.check_number, Some(1260));
    assert_eq!(t.category, None);
    assert_eq!(t.amount, Amount::from_cents(50000));
    assert_eq!(t.transaction_type, TransactionType::Deposit);
    assert!(!t.is_reconciled);
    assert_eq!(t.date, DateTime::parse("2021-07-08").unwrap());
    let expected = "[\n  {\n    \"id\": \"FF04C3DC-F0FE-472E-8737-0F4034C049F0\",\n    \"transaction\": {\n      \"date\": \"2021-07-08\",\n      \"check_number\": 1260,\n      \"vendor\": \"Sam Hill Credit Union\",\n      \"memo\": \"Open Account\",\n      \"amount\": 500.0,\n      \"type\": \"deposit\"\n    }\n  }\n]";
    assert_eq!(encode_json(&decoded), expected);
}

#[test]
fn decode_rejects_malformed_json() {
    assert!(decode_json("").is_err());
    assert!(decode_json("not json").is_err());
    assert!(decode_json("[{}]").is_err());
    assert!(decode_json("[{\"id\": \"X\"}]").is_err());
    assert!(decode_json("[{\"id\": 5, \"transaction\": {}}]").is_err());
    let error = decode_json("{").unwrap_err();
    assert!(!error.message.is_empty());
}

#[test]
fn decode_fills_missing_identifier_and_defaults() {
    let json = "[{\"transaction\": {\"vendor\": \"V\", \"type\": \"withdrawal\", \"date\": \"2021-7-8\", \"extra\": [1, {\"x\": null}, \"s\"]}}]";
    let decoded = decode_json(json).unwrap();
    assert_eq!(decoded.len(), 1);
    assert_eq!(decoded[0].id.len(), 36);
    let t = &decoded[0].transaction;
    assert_eq!(t.check_number, None);
    assert_eq!(t.category, None);
    assert_eq!(t.memo, "");
    assert_eq!(t.amount, Amount::from_cents(0));
    assert!(!t.is_reconciled);
}

#[test]
fn decode_reads_escapes_and_fractions() {
    let json = "[{\"id\": \"R1\", \"transaction\": {\"vendor\": \"a\\\"b\\\\c\\u0041\\n\", \"type\": \"deposit\", \"date\": \"2021-7-8\", \"amount\": 12.34, \"is_reconciled\": true}}]";
    let decoded = decode_json(json).unwrap();
    let t = &decoded[0].transaction;
    assert_eq!(t.vendor, "a\"b\\cA\n");
    assert_eq!(t.amount, Amount::from_cents(1234));
    assert!(t.is_reconciled);
    // the escapes ride back out intact
    let text = encode_json(&decoded);
    let again = decode_json(&text).unwrap();
    assert_eq!(again[0].transaction.vendor, "a\"b\\cA\n");
}

#[test]
fn generated_identifiers_are_fresh_and_hyphenated() {
    let a = Record::new();
    let b = Record::new();
    assert_eq!(a.id.len(), 36);
    assert_eq!(b.id.len(), 36);
    assert_ne!(a.id, b.id);
    let c = Record::from("", Transaction::new());
    assert_eq!(c.id.len(), 36);
}

#[test]
fn current_moment_is_a_real_date() {
    let now = DateTime::now();
    assert!(1 <= now.month && now.month <= 12);
    assert!(1 <= now.day && now.day <= 31);
    assert!(now.hour < 24 && now.minute < 60 && now.second < 60);
    let formatted = now.format();
    assert!(is_proper_date_format(&formatted));
}

#[test]
fn amounts_format_with_two_decimal_places() {
    assert_eq!(Amount::from_cents(50000).to_decimal_string(), "500.00");
    assert_eq!(Amount::from_cents(5).to_decimal_string(), "0.05");
    assert_eq!(Amount::from_cents(1234).to_decimal_string(), "12.34");
    assert_eq!(Amount::from_cents(0).to_decimal_string(), "0.00");
}

#[test]
fn tsv_decode_swallows_malformed_columns() {
    // an unparsable date, check number and amount fall back to defaults
    let record = Record::from_string("ID1\tnot-a-date\tboo\tmaybe\tcatx\tV\tM\tx.y.z\t");
    assert_eq!(record.id, "ID1");
    assert_eq!(record.transaction.check_number, None);
    assert!(!record.transaction.is_reconciled);
    assert_eq!(record.transaction.vendor, "V");
    assert_eq!(record.transaction.memo, "M");
    assert_eq!(record.transaction.transaction_type, TransactionType::Deposit);
    assert_eq!(record.transaction.amount, Amount::from_cents(0));
    // a short row still decodes
    let short = Record::from_string("");
    assert_eq!(short.id.len(), 36);
    assert_eq!(short.transaction.vendor, "");
}

#[test]
fn tsv_decode_splits_lines_and_drops_trailing_terminator() {
    let records = sample_records();
    let text = encode_tsv(&records);
    assert!(text.ends_with("\r\n"));
    let decoded = decode_tsv(&text);
    assert_eq!(decoded.len(), 2);
    assert_eq!(decode_tsv("").len(), 0);
}

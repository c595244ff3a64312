use bit::cmd_parser::{parse_cmd, ParserMode};
use bit::date::{leap_year, month_length, Date};
use bit::ledger::{unzip_dates_at, Ledger, LedgerIndexItem, Transaction};
use bit::note::Note;

fn accounts() -> Vec<String> {
    vec!["1".to_string(), "2".to_string()]
}

#[test]
fn parse_cmd_reads_keys_lower_cased_and_sorted() {
    let cmd = r#"ID r2022-01-0000/asd CREDIT 1 DEBIT 2 AMOUNT 100 CDATE 2022-01-01"#;
    let r = parse_cmd(cmd).unwrap();
    let r: Vec<(String, String)> = r.iter().map(|(k, v)| (k.clone(), v.as_str().unwrap().to_string())).collect();
    assert_eq!(
        r,
        vec![
            ("amount".to_string(), "100".to_string()),
            ("cdate".to_string(), "2022-01-01".to_string()),
            ("credit".to_string(), "1".to_string()),
            ("debit".to_string(), "2".to_string()),
            ("id".to_string(), "r2022-01-0000/asd".to_string()),
        ]
    );
}

#[test]
fn parse_cmd_keeps_quoted_value() {
    let r = parse_cmd(r#"NAME "Hello bello" ID 1"#).unwrap();
    let r: Vec<(String, String)> = r.iter().map(|(k, v)| (k.clone(), v.as_str().unwrap().to_string())).collect();
    assert_eq!(
        r,
        vec![
            ("id".to_string(), "1".to_string()),
            ("name".to_string(), "Hello bello".to_string()),
        ]
    );
}

#[test]
fn parser_mode_flips() {
    let mut m = ParserMode::Key;
    m.flip();
    assert!(matches!(m, ParserMode::Value));
    m.flip();
    assert!(matches!(m, ParserMode::Key));
}

#[test]
fn calendar_basics() {
    assert!(leap_year(2024));
    assert!(!leap_year(1900));
    assert_eq!(month_length(2023, 2), 28);
    assert_eq!(month_length(2024, 2), 29);
    let d = Date { year: 2023, month: 3, day: 1 };
    assert_eq!(d.ordinal0(), 59);
    assert_eq!(d.last_day_of_month(), Date { year: 2023, month: 3, day: 31 });
}

#[test]
fn booking_moves_turnover_and_later_balances() {
    let mut ledger = Ledger::default();
    ledger.init_for_year(&accounts(), 2023);
    assert_eq!(ledger.ledger_index.len(), 364);
    let t = Transaction {
        completion_date: Date { year: 2023, month: 1, day: 2 },
        amount: 100,
        debit: "1".to_string(),
        credit: "2".to_string(),
    };
    ledger.add_transaction(t, &accounts()).unwrap();
    let day1 = ledger.get_ledger_by_date(1).unwrap();
    assert_eq!(day1[0].0, "1");
    assert_eq!(day1[0].1, LedgerIndexItem { bo: 0, td: 100, tc: 0, bc: 100 });
    assert_eq!(day1[1].1, LedgerIndexItem { bo: 0, td: 0, tc: 100, bc: -100 });
    let day5 = ledger.get_ledger_by_date(5).unwrap();
    assert_eq!(day5[0].1.bc, 100);
    assert_eq!(day5[1].1.bc, -100);
    let day0 = ledger.get_ledger_by_date(0).unwrap();
    assert_eq!(day0[0].1, LedgerIndexItem { bo: 0, td: 0, tc: 0, bc: 0 });
    assert_eq!(ledger.get_ledger_by_date(400).unwrap_err(), "Out of range date");
}

#[test]
fn booking_unknown_account_is_refused() {
    let mut ledger = Ledger::default();
    ledger.init_for_year(&accounts(), 2023);
    let t = Transaction {
        completion_date: Date { year: 2023, month: 1, day: 2 },
        amount: 100,
        debit: "9".to_string(),
        credit: "2".to_string(),
    };
    assert_eq!(ledger.add_transaction(t, &accounts()).unwrap_err(), "Unknown account ID 9 for debit");
}

#[test]
fn note_without_completion_date_is_refused() {
    let mut ledger = Ledger::default();
    ledger.init_for_year(&accounts(), 2023);
    let mut note = Note::empty("n.txt".to_string());
    note.transactions.push(bit::note::Transaction {
        id: 1,
        debit: "1".to_string(),
        credit: "2".to_string(),
        amount: 5,
    });
    assert_eq!(ledger.add_note(&note, &accounts()).unwrap_err(), "No completion date for note!");
    note.completion_date = Some(Date { year: 2023, month: 2, day: 1 });
    assert!(ledger.add_note(&note, &accounts()).is_ok());
    assert_eq!(ledger.get_ledger_by_date(31).unwrap()[0].1.td, 5);
}

#[test]
fn print_full_groups_digits() {
    let item = LedgerIndexItem { bo: 0, td: 1234567, tc: 0, bc: 1234567 };
    let s = item.print_full();
    assert!(s.starts_with("1 234 567"));
    assert!(s.contains(" | "));
}

#[test]
fn index_items_add_up() {
    let a = LedgerIndexItem { bo: 10, td: 1, tc: 2, bc: 9 };
    let b = LedgerIndexItem { bo: 0, td: 5, tc: 3, bc: 2 };
    assert_eq!(a.add(b), LedgerIndexItem { bo: 10, td: 6, tc: 5, bc: 11 });
}

#[test]
fn period_of_a_month() {
    let now = Date { year: 2023, month: 6, day: 15 };
    assert_eq!(
        unzip_dates_at(None, now, now, now).unwrap(),
        (Date { year: 2023, month: 1, day: 1 }, now)
    );
    assert_eq!(
        unzip_dates_at(Some("2".to_string()), now, now, now).unwrap(),
        (Date { year: 2023, month: 2, day: 1 }, Date { year: 2023, month: 2, day: 28 })
    );
    assert_eq!(
        unzip_dates_at(Some("13".to_string()), now, now, now).unwrap_err(),
        "Month date should be a valid 1-12 integer"
    );
    assert_eq!(unzip_dates_at(Some("x".to_string()), now, now, now).unwrap_err(), "Wrong month number. 1-12");
}

#[test]
fn parse_cmd_checked_flags_quoted_space_before_value() {
    assert!(bit::cmd_parser::parse_cmd_checked(r#"KEY " x""#).is_none());
    let again = parse_cmd("ID 1 ID 2").unwrap();
    assert_eq!(again.len(), 1);
    assert_eq!(again.get("id").unwrap().as_str(), Some("2"));
    assert_eq!(
        bit::cmd_parser::parse_cmd_checked("key value").unwrap().unwrap_err(),
        "Key 'k' error. KEY mut be uppercase"
    );
}

#[test]
fn period_across_new_year_readings() {
    let a = Date { year: 2023, month: 12, day: 31 };
    let b = Date { year: 2024, month: 1, day: 1 };
    assert_eq!(unzip_dates_at(None, a, b, b).unwrap(), (Date { year: 2023, month: 1, day: 1 }, b));
    assert_eq!(
        unzip_dates_at(Some("12".to_string()), a, a, b).unwrap(),
        (Date { year: 2023, month: 12, day: 1 }, Date { year: 2024, month: 12, day: 31 })
    );
    assert_eq!(
        unzip_dates_at(Some("2".to_string()), a, b, b).unwrap(),
        (Date { year: 2023, month: 2, day: 1 }, Date { year: 2024, month: 2, day: 29 })
    );
}

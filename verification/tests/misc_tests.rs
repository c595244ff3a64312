use bit::corelib::{join, Context, CtxError, FsError, IndexError};
use bit::file::{diff_files, File};
use bit::frame::{next_token_bytes, parse, tokenize_block, Error, Token};
use bit::inspector::{Inspector, LedgerRecord};
use bit::note::{Command, Note, NoteToken, TokenKind};
use bit::parse::{from_str, Expression as ParsedExpression, Parse};
use bit::parser::{
    parse as parse_source, AccountExp, CommentExp, Expression, ModeExp, TransactionExp,
};
use bit::settings::Settings;
use bit::tools::{create_account, parse_line};
use bit::transaction::{Account as LedgerAccount, Reference};
use bit::date::Date;
use bit::text::float_text;

#[test]
fn command_line_split_at_first_space() {
    assert_eq!(parse_line("touch a b"), ("touch".to_string(), "a b".to_string()));
    assert_eq!(parse_line("hello"), ("hello".to_string(), String::new()));
    let a = create_account("1", "Assets");
    assert_eq!(a.id, "1");
    assert_eq!(a.name, "Assets");
}

#[test]
fn context_paths() {
    let c = Context::new_cwd("/home/p".to_string());
    assert_eq!(c.root_path(), "/home/p");
    assert_eq!(c.bitdir_path(), "/home/p/.bit");
    assert!(matches!(Context::with_check("/x".to_string(), false), Err(CtxError::NotProjectDir)));
    assert_eq!(join("/a/", "b"), "/a/b");
    assert_eq!(join("", "b"), "b");
    assert_eq!(CtxError::NotProjectDir.to_string(), "Not Project Dir");
    assert_eq!(IndexError::Fs(FsError::OpenError("no file".to_string())).to_string(), "no file");
    assert_eq!(IndexError::NotRepo.to_string(), "Path is not a repository.");
}

#[test]
fn settings_dependencies() {
    assert_eq!(Settings::check_dependencies(false, true).unwrap_err(), "Accounts file does not exist!");
    assert_eq!(Settings::check_dependencies(true, false).unwrap_err(), "NOTEs path not exist or not a folder!");
    assert!(Settings::check_dependencies(true, true).is_ok());
}

#[test]
fn ledger_accounts_are_normalised() {
    let mut a = LedgerAccount::new("  ABC ".to_string(), " Bank  ".to_string());
    assert_eq!(a.id(), "abc");
    assert_eq!(a.name(), "Bank");
    a.rename(" Cash ".to_string());
    assert_eq!(a.name(), "Cash");
    let r = Reference::new(" R1".to_string(), "Inv ".to_string(), None, Date { year: 2022, month: 1, day: 1 }, None);
    assert_eq!(r.id(), "r1");
    assert_eq!(r.name(), "Inv");
}

#[test]
fn blocks_and_tokens() {
    let (s, e) = next_token_bytes(b"  KEY value ", 0).unwrap();
    assert_eq!((s, e), (2, 5));
    assert!(matches!(next_token_bytes(b"", 0), Err(Error::Done)));
    let toks = tokenize_block(b"ID 38 NAME Bank\n");
    assert_eq!(toks.len(), 4);
    assert!(matches!(&toks[0], Token::Key(k) if k == "ID"));
    assert!(matches!(&toks[1], Token::Value(v) if v == "38"));
    let blocks = parse("ACCOUNT\n    ID 38\n    NAME Bank\n\nX\n").unwrap();
    assert_eq!(blocks.len(), 2);
    assert_eq!(Error::Done.to_string(), "end of stream");
}

#[test]
fn account_expressions() {
    let exprs = from_str("ACCOUNT\n    ID 38\n    NAME Kriszti bank\nNOTE\n    ID 1 \nX\n").unwrap();
    assert_eq!(exprs.len(), 2);
    match &exprs[0] {
        ParsedExpression::Account(a) => {
            assert_eq!(a.id, Some("38".to_string()));
            assert_eq!(a.name, Some("Kriszti bank".to_string()));
        },
        _ => panic!("expected an account"),
    }
    assert!(matches!(&exprs[1], ParsedExpression::Note(_)));
    assert_eq!(from_str("ACCOUNT\n    AGE 3\nX\n").unwrap_err(), "Unknown parameter");
}

fn tok(kind: TokenKind, column: usize) -> NoteToken {
    NoteToken { kind, row: 3, column }
}

fn text(s: &str, column: usize) -> NoteToken {
    tok(TokenKind::Text(s.to_string()), column)
}

#[test]
fn note_lines_set_fields() {
    let lines = vec![
        vec![tok(TokenKind::Command(Command::Id), 0), text("n1", 3)],
        vec![tok(TokenKind::Command(Command::Net), 0), text("1_000", 4)],
        vec![tok(TokenKind::Command(Command::CompletionDate), 0), text("2023-01-05", 4)],
        vec![tok(TokenKind::Command(Command::Transaction), 0), text("1", 2), text("2", 4), text("500", 6)],
        vec![tok(TokenKind::Command(Command::PaymentKind), 0), text("card", 4)],
        vec![text("free text", 0)],
        vec![],
    ];
    let note = Note::from_raw_note("a.note".to_string(), lines, false).unwrap();
    assert_eq!(note.id, Some("n1".to_string()));
    assert_eq!(note.net, 1000);
    assert_eq!(note.completion_date, Some(Date { year: 2023, month: 1, day: 5 }));
    assert_eq!(note.transactions.len(), 1);
    assert_eq!(note.transactions[0].id, 1);
    assert_eq!(note.transactions[0].amount, 500);
}

#[test]
fn note_errors_point_at_the_command() {
    let lines = vec![vec![tok(TokenKind::Command(Command::Net), 7), text("x", 4)]];
    assert_eq!(
        Note::from_raw_note("a.note".to_string(), lines, false).unwrap_err(),
        "Error row 3 column 7\nNET must be integer number"
    );
    let lines = vec![vec![tok(TokenKind::Command(Command::Alias), 0), text("x", 4)]];
    assert_eq!(Note::from_raw_note("a.note".to_string(), lines, false).unwrap_err(), "MISSING ID at a.note");
    let lines = vec![vec![tok(TokenKind::Command(Command::Account), 0), text("1", 4), text("Bank", 6)]];
    assert_eq!(
        Note::from_raw_note("a.note".to_string(), lines, false).unwrap_err(),
        "Error row 3 column 0\nAccount cannot be defined in a note file"
    );
    let lines = vec![vec![tok(TokenKind::Command(Command::Account), 0), text("1", 4), text("Main", 6), text("bank", 8)]];
    let note = Note::from_raw_note("accounts".to_string(), lines, true).unwrap();
    assert_eq!(note.accounts[0].name, "Main bank");
}

#[test]
fn inspector_checks_mode() {
    let exprs = vec![
        Expression::DocComment(CommentExp("hi".to_string())),
        Expression::Mode(ModeExp::Account),
        Expression::Account(AccountExp { id: "1".to_string(), name: "Bank".to_string() }),
    ];
    let recs = Inspector::new(exprs).process_to_ledger().unwrap();
    assert_eq!(recs.len(), 1);
    assert!(matches!(&recs[0], LedgerRecord::Account { id, .. } if id == "1"));
    let exprs = vec![Expression::Account(AccountExp { id: "1".to_string(), name: "Bank".to_string() })];
    assert_eq!(
        Inspector::new(exprs).process_to_ledger().unwrap_err(),
        "Cannot define account when your mode is not account"
    );
    let exprs = vec![Expression::Mode(ModeExp::Account), Expression::Mode(ModeExp::Balance)];
    assert_eq!(Inspector::new(exprs).process_to_ledger().unwrap_err(), "Mode already set");
    let exprs = vec![Expression::Transaction(TransactionExp {
        debit: "1".to_string(),
        credit: "2".to_string(),
        event_id: Some(1),
        cdate: None,
        amount: 3,
    })];
    assert_eq!(Inspector::new(exprs).process_to_ledger().unwrap_err(), "No cdate set before");
}

#[test]
fn source_comments_parse() {
    let exprs = parse_source("# hello\n# world\n").unwrap();
    assert_eq!(exprs.len(), 1);
    assert!(matches!(&exprs[0], Expression::DocComment(CommentExp(c)) if c == "hello\nworld"));
}

#[test]
fn file_listings_diff() {
    let past = vec![
        File { path: "a".to_string(), name: None, modified: 1 },
        File { path: "b".to_string(), name: None, modified: 1 },
        File { path: "c".to_string(), name: None, modified: 1 },
    ];
    let now = vec![
        File { path: "a".to_string(), name: None, modified: 2 },
        File { path: "b".to_string(), name: None, modified: 1 },
        File { path: "d".to_string(), name: None, modified: 1 },
    ];
    let d = diff_files(&past, &now);
    assert_eq!(d.modified.len(), 1);
    assert_eq!(d.modified[0].path, "a");
    assert_eq!(d.unmodified[0].path, "b");
    assert_eq!(d.new[0].path, "d");
    assert_eq!(d.removed[0].path, "c");
    assert!(!d.is_clean());
}

#[test]
fn reading_dates_and_finishing() {
    let mut p = Parse::new(vec![Token::Value("2021-04-04".to_string()), Token::Value("x".to_string())]);
    assert_eq!(p.next_date().unwrap(), Date { year: 2021, month: 4, day: 4 });
    assert!(p.finish().is_err());
    assert!(p.finish().is_ok());
}

#[test]
fn note_and_transaction_expressions() {
    let exprs = from_str(
        "NOTE\n    ID n 1\n    NET 100.5\n    VAT 27\n    CDATE 2023-01-05\n    DESCRIPTION rent\nTRANSACTION\n    CREDIT 1\n    DEBIT 2\n    AMOUNT 1e3\nX\n",
    )
    .unwrap();
    assert_eq!(exprs.len(), 2);
    match &exprs[0] {
        ParsedExpression::Note(n) => {
            assert_eq!(n.id, Some("n 1".to_string()));
            assert_eq!(n.net, Some("100.5".to_string()));
            assert_eq!(n.vat, Some("27".to_string()));
            assert_eq!(n.cdate, Some(Date { year: 2023, month: 1, day: 5 }));
            assert_eq!(n.description, Some("rent".to_string()));
            assert_eq!(n.gross, None);
        },
        _ => panic!("expected a note"),
    }
    match &exprs[1] {
        ParsedExpression::Transaction(t) => {
            assert_eq!(t.credit, Some("1".to_string()));
            assert_eq!(t.debit, Some("2".to_string()));
            assert_eq!(t.amount, Some("1e3".to_string()));
        },
        _ => panic!("expected a transaction"),
    }
}

#[test]
fn note_and_transaction_errors() {
    assert_eq!(from_str("NOTE\n    COLOR red\nX\n").unwrap_err(), "Unknown parameter");
    assert_eq!(from_str("TRANSACTION\n    FEE 3\nX\n").unwrap_err(), "Unknown parameter");
    assert_eq!(from_str("NOTE\n    NET abc\nX\n").unwrap_err(), "Not a number");
    assert_eq!(from_str("TRANSACTION\n    AMOUNT 1.2.3\nX\n").unwrap_err(), "Not a number");
    assert_eq!(from_str("NOTE\n    IDATE 2023-13-01\nX\n").unwrap_err(), "Not a date");
}

#[test]
fn float_texts() {

    for ok in ["1", "-1.5", "+.5", "3.", "1e10", "2E-3", "inf", "-Infinity", "NaN"] {
        assert!(float_text(ok), "{ok}");
        assert!(ok.parse::<f64>().is_ok(), "{ok}");
    }
    for bad in ["", ".", "e5", "1e", "1.2.3", "abc", "1_000", " 1", "+", "1e+"] {
        assert!(!float_text(bad), "{bad}");
        assert!(bad.parse::<f64>().is_err(), "{bad}");
    }
}

#[test]
fn records_after_the_first_picked_one() {
    use_records();
}

fn use_records() {
    let asked = std::cell::RefCell::new(Vec::new());
    let r = bit::corelib::records_after_filter(vec![1, 2, 3, 4], |x: &i32| {
        asked.borrow_mut().push(*x);
        *x == 2
    });
    assert_eq!(r, vec![3, 4]);
    assert_eq!(asked.into_inner(), vec![1, 2]);
    let none = bit::corelib::records_after_filter(vec![1, 2], |_x: &i32| false);
    assert!(none.is_empty());
}

#[test]
fn note_filter_by_id_and_partner() {
    let notes = vec![
        (Some("2024-ab-1".to_string()), Some("Acme Ltd".to_string())),
        (Some("2024-cd-2".to_string()), None),
        (Some("2023-ab-3".to_string()), Some("Acme".to_string())),
    ];
    assert_eq!(bit::corelib::note_filter(&notes, None, None), vec!["2024-ab-1", "2024-cd-2", "2023-ab-3"]);
    assert_eq!(bit::corelib::note_filter(&notes, Some("ab".to_string()), None), vec!["2024-ab-1", "2023-ab-3"]);
    assert_eq!(
        bit::corelib::note_filter(&notes, Some("2024".to_string()), Some("Acme".to_string())),
        vec!["2024-ab-1"]
    );
    assert!(bit::corelib::note_filter(&notes, Some("zz".to_string()), None).is_empty());
    assert!(bit::corelib::str_contains("hello", ""));
    assert!(bit::corelib::str_contains("hello", "llo"));
    assert!(!bit::corelib::str_contains("he", "hello"));
}

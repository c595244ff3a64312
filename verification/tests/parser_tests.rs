use bit::date::Date;
use bit::parser::{
    pre_process, AccountExp, EventExp, ExpressionCandidate, ModeExp, PreProcessToken, ReferenceExp,
    TransactionExp,
};

#[test]
fn test_preprocess() {
    let source = r#"
    
      # Hello bello
      # ===========
      # lorem ipsum dolorem;
      # set ami

      lorem ipsum dolorem    // line comment B

      #     ab

            line A // line comment A "Hello"

          #ab

      line B // line comment C



      #ab

    "#;

    let result = pre_process(&source);
    let expected = vec![
        PreProcessToken::Comment("Hello bello\n===========\nlorem ipsum dolorem;\nset ami".to_string()),
        PreProcessToken::TextBlock("lorem ipsum dolorem".to_string()),
        PreProcessToken::Comment("ab".to_string()),
        PreProcessToken::TextBlock("line A".to_string()),
        PreProcessToken::Comment("ab".to_string()),
        PreProcessToken::TextBlock("line B".to_string()),
        PreProcessToken::Comment("ab".to_string()),
    ];
    assert_eq!(result, expected);
}

#[test]
fn test_expression_candidate() {
    let expr = r#"TRANSACTION name Lorem debit 161 credit 3841 amount 4500"#;
    let res = ExpressionCandidate::from_str(&expr);
    println!("{:?}", &res);
    assert_eq!(res.is_ok(), true);

    let expr_quoted =
        r#"TRANSACTION name "Lorem ipsum dolorem set ami" debit 161 credit 3841 amount 4500"#;
    let res = ExpressionCandidate::from_str(&expr_quoted);
    println!("{:?}", &res);
    assert_eq!(res.is_ok(), true);
}

#[test]
fn test_param_parse() {
    let _token_stream = "NAME lorem AGE 32 IMPORTANT";
}

#[test]
fn test_exp_mode() {
    let params = vec![("SET".to_string(), "account".to_string())];
    assert_eq!(ModeExp::parse_params(&params).is_ok(), true);
}

#[test]
fn test_exp_account() {
    let params = vec![
        ("ID".to_string(), "161".to_string()),
        ("NAME".to_string(), "lorem ipsum".to_string()),
    ];
    assert_eq!(AccountExp::parse_params(&params).is_ok(), true);
}

#[test]
fn test_exp_transaction() {
    let params = vec![
        ("debit".to_string(), "161".to_string()),
        ("credit".to_string(), "38".to_string()),
        ("amount".to_string(), "40000".to_string()),
        ("amount".to_string(), "40_000".to_string()),
    ];
    let res = TransactionExp::parse_params(&params);
    assert_eq!(res.is_ok(), true);
}

#[test]
fn test_exp_reference() {
    let params = vec![
        ("id".to_string(), "lorem ipsum dolorem".to_string()),
        ("cdate".to_string(), "2021-04-04".to_string()),
    ];
    let res = ReferenceExp::parse_params(&params);
    assert_eq!(res.is_ok(), true);
}

#[test]
fn test_exp_event() {
    let params = vec![
        ("reference_id".to_string(), "lorem ipsum dolorem".to_string()),
        ("cdate".to_string(), "2021-04-04".to_string()),
    ];
    let res = EventExp::parse_params(&params);
    assert_eq!(res.is_ok(), true);
}

#[test]
fn expression_candidate_keeps_quoted_words_together() {
    let res = ExpressionCandidate::from_str(r#"TRANSACTION name "Lorem ipsum" debit 161"#).unwrap();
    assert_eq!(res.command, "TRANSACTION");
    assert_eq!(
        res.parameters,
        vec![
            ("name".to_string(), "\"Lorem ipsum\"".to_string()),
            ("debit".to_string(), "161".to_string())
        ]
    );
}

#[test]
fn mode_unknown_is_refused() {
    let params = vec![("SET".to_string(), "nothing".to_string())];
    assert_eq!(ModeExp::parse_params(&params).unwrap_err(), "Unknown mode");
}

#[test]
fn transaction_amount_ignores_underscores() {
    let params = vec![
        ("debit".to_string(), "161".to_string()),
        ("credit".to_string(), "38".to_string()),
        ("amount".to_string(), "40_000".to_string()),
    ];
    let t = TransactionExp::parse_params(&params).unwrap();
    assert_eq!(t.amount, 40000);
    assert_eq!(t.debit, "161");
    assert_eq!(t.credit, "38");
}

#[test]
fn reference_reads_its_completion_date() {
    let params = vec![
        ("id".to_string(), "r1".to_string()),
        ("cdate".to_string(), "2021-04-04".to_string()),
    ];
    let r = ReferenceExp::parse_params(&params).unwrap();
    assert_eq!(r.cdate, Date { year: 2021, month: 4, day: 4 });
}

use engine::error::EngineError;
use engine::process_transactions;

fn run(input: &str) -> Result<String, EngineError> {
    process_transactions(input.as_bytes())
}

fn run_ok(input: &str) -> String {
    run(input).unwrap()
}

fn csv_err(input: &str) -> String {
    match run(input) {
        Err(EngineError::CsvError(m)) => m,
        other => panic!("expected a CsvError, got {:?}", other),
    }
}

fn record_err(input: &str) -> String {
    match run(input) {
        Err(EngineError::RecordError(m)) => m,
        other => panic!("expected a RecordError, got {:?}", other),
    }
}

#[test]
fn incorrect_csv_format() {
    let input_str = "type, client, tx, amount\nwithdrawal, 2, ads, 3.0, asdf, asdf";
    assert_eq!(
        csv_err(input_str),
        "CSV error: record 1 (line: 2, byte: 25): found record with 6 fields, but the \
         previous record has 4 fields"
    );
}

#[test]
fn incorrect_csv_format_2() {
    let input_str = "type, client, tx, amount\nwithdrawal, 1, 3.0,";
    assert_eq!(
        csv_err(input_str),
        "CSV deserialize error: record 1 (line: 2, byte: 25): field 2: invalid digit found in \
         string"
    );
}

#[test]
fn incorrect_csv_format_3() {
    let input_str = "type, client, tx, amount\ndeposit, 1,1,";
    assert_eq!(
        record_err(input_str),
        "The amount field is missing for deposit transaction in csv"
    );
}

#[test]
fn incorrect_csv_format_4() {
    let input_str = "type, client, tx, amount\ndispute, 1,1,1";
    assert_eq!(record_err(input_str), "The amount should be empty for dispute in csv");
}

#[test]
fn incorrect_csv_format_5() {
    let input_str = "type, client, tx, amount\nunknown123, 1,1,1";
    assert_eq!(record_err(input_str), "Unknown transaction type: \"unknown123\"");
}

#[test]
fn test_case_1() {
    let input_str = "type, client, tx, amount\n\
                     deposit, 1, 1, 1.1111\n\
                     deposit, 2, 2, 2.0\n\
                     deposit, 1, 3, 2.0\n\
                     withdrawal, 1, 4, 1.5\n\
                     dispute, 1,1,\n\
                     withdrawal, 2, 5, 3.0";
    let expected_str = "client,available,held,total,locked\n\
                        1,0.5,1.1111,1.6111,false\n\
                        2,2,0,2,false";
    assert_eq!(run_ok(input_str).as_str(), expected_str);
}

#[test]
fn test_case_2() {
    let input_str = "type, client, tx, amount\n\
                     deposit, 1, 1, 1.0\n\
                     deposit, 2, 2, 2.0\n\
                     deposit, 1, 3, 2.0\n\
                     withdrawal, 1, 4, 1.5\n\
                     dispute, 1,1,\n\
                     resolve, 1,1,\n\
                     withdrawal, 2, 5, 3.0";
    let expected_str = "client,available,held,total,locked\n\
                        1,1.5,0,1.5,false\n\
                        2,2,0,2,false";
    assert_eq!(run_ok(input_str).as_str(), expected_str);
}

#[test]
fn test_case_3() {
    let input_str = "type, client, tx, amount\n\
                     deposit, 1, 1, 1.0\n\
                     deposit, 2, 2, 2.0\n\
                     deposit, 1, 3, 2.0\n\
                     withdrawal, 1, 4, 1.5\n\
                     dispute, 1,1,\n\
                     chargeback, 1,1,\n\
                     withdrawal, 2, 5, 3.0";
    let expected_str = "client,available,held,total,locked\n\
                        1,0.5,0,0.5,true\n\
                        2,2,0,2,false";
    assert_eq!(run_ok(input_str).as_str(), expected_str);
}

#[test]
fn test_case_4() {
    let input_str = "type, client, tx, amount\n\
                     deposit, 1, 1, 1.0\n\
                     deposit, 2, 2, 2.0\n\
                     deposit, 1, 3, 2.0\n\
                     withdrawal, 1, 4, 1.5\n\
                     withdrawal, 1, 8, 1.5\n\
                     dispute, 1,1,\n\
                     chargeback, 1,1,\n\
                     withdrawal, 2, 5, 3.0";
    let expected_str = "client,available,held,total,locked\n\
                        1,0,0,0,false\n\
                        2,2,0,2,false";
    assert_eq!(run_ok(input_str).as_str(), expected_str);
}

#[test]
fn test_case_5() {
    let input_str = "type, client, tx, amount\nwithdrawal, 2, 5, 3.0";
    let expected_str = "client,available,held,total,locked\n2,0,0,0,false";
    assert_eq!(run_ok(input_str).as_str(), expected_str);
}

#[test]
fn test_case_6() {
    let input_str = "type, client, tx, amount\ndispute, 2, 52,";
    let expected_str = "client,available,held,total,locked\n2,0,0,0,false";
    assert_eq!(run_ok(input_str).as_str(), expected_str);
}

#[test]
fn test_case_7() {
    let input_str = "type, client, tx, amount\n\
                     deposit, 1, 1, 1.0\n\
                     deposit, 2, 2, 2.0\n\
                     deposit, 1, 3, 2.0\n\
                     withdrawal, 1, 4, 1.5\n\
                     dispute, 1,1,\n\
                     chargeback, 1,1,\n\
                     withdrawal, 2, 5, 3.0\n\
                     deposit, 1, 1, 1.0";
    let expected_str = "client,available,held,total,locked\n\
                        1,0.5,0,0.5,true\n\
                        2,2,0,2,false";
    assert_eq!(run_ok(input_str).as_str(), expected_str);
}

#[test]
fn test_case_8() {
    // there is no debit on the account after the withdrawal, so the
    // dispute and the chargeback are ignored
    let input_str = "type, client, tx, amount\n\
                     deposit, 1, 1, 1.0\n\
                     withdrawal, 1, 2, 1.0\n\
                     dispute, 1,1,\n\
                     chargeback, 1,1,";
    let expected_str = "client,available,held,total,locked\n1,0,0,0,false";
    assert_eq!(run_ok(input_str).as_str(), expected_str);
}

#[test]
fn test_case_9() {
    let input_str = "type, client, tx, amount\n\
                     deposit, 1, 1, 1.0\n\
                     deposit, 1, 2, 3.0\n\
                     dispute, 1, 2,\n\
                     withdrawal, 1,3, 2.1111";
    let expected_str = "client,available,held,total,locked\n1,1,3,4,false";
    assert_eq!(run_ok(input_str).as_str(), expected_str);
}

#[test]
fn test_case_10() {
    let input_str = "type, client, tx, amount\n\
                     deposit, 1, 1, 1.0\n\
                     deposit, 1, 2, 3.0\n\
                     dispute, 1, 2,\n\
                     withdrawal, 1,3, 2.1111\n\
                     resolve, 1,2,";
    let expected_str = "client,available,held,total,locked\n1,4,0,4,false";
    assert_eq!(run_ok(input_str).as_str(), expected_str);
}

#[test]
fn test_case_11() {
    let input_str = "type, client, tx, amount\n\
                     deposit, 1, 1, 1.0\n\
                     deposit, 1, 2, 3.0\n\
                     dispute, 1, 2,\n\
                     withdrawal, 1,3, 2.1111\n\
                     resolve, 1,2,\n\
                     withdrawal, 1,3, 2.1111\n\
                     dispute, 1, 2,\n\
                     chargeback, 1,2,";
    let expected_str = "client,available,held,total,locked\n1,1.8889,0,1.8889,false";
    assert_eq!(run_ok(input_str).as_str(), expected_str);
}

#[test]
fn test_case_12() {
    let input_str = "type, client, tx, amount\n\
                     deposit, 3, 1, 5.1234\n\
                     withdrawal, 3, 2, 4.1\n\
                     deposit, 6, 3, 5.1234\n\
                     dispute, 6, 3,\n\
                     resolve, 6, 3,";
    let expected_str = "client,available,held,total,locked\n\
                        3,1.0234,0,1.0234,false\n\
                        6,5.1234,0,5.1234,false";
    assert_eq!(run_ok(input_str).as_str(), expected_str);
}

#[test]
fn test_case_13() {
    let input_str = "type, client, tx, amount\n\
                     deposit, 3, 1, 5.1\n\
                     withdrawal, 3, 2, 4.1234\n\
                     withdrawal, 3, 5, 0.9766\n\
                     deposit, 6, 3, 5.1234\n\
                     dispute, 6, 3,\n\
                     resolve, 6, 3,\n\
                     dispute, 6, 3,\n\
                     chargeback, 6, 3,";
    let expected_str = "client,available,held,total,locked\n\
                        3,0,0,0,false\n\
                        6,0,0,0,true";
    assert_eq!(run_ok(input_str).as_str(), expected_str);
}

#[test]
fn empty_input_yields_only_header() {
    assert_eq!(run_ok("").as_str(), "client,available,held,total,locked");
}

#[test]
fn header_alone_yields_only_header() {
    assert_eq!(run_ok("type, client, tx, amount").as_str(), "client,available,held,total,locked");
}

#[test]
fn header_is_case_insensitive() {
    let input_str = "TYPE, Client, TX, Amount\ndeposit, 1, 1, 2.5";
    let expected_str = "client,available,held,total,locked\n1,2.5,0,2.5,false";
    assert_eq!(run_ok(input_str).as_str(), expected_str);
}

#[test]
fn wrong_header_is_fatal() {
    let input_str = "kind, who, id, value\ndeposit, 1, 1, 2.5";
    assert_eq!(csv_err(input_str), "CSV error: invalid header: expected type, client, tx, amount");
}

#[test]
fn comment_lines_are_skipped() {
    let input_str = "# a comment before the header\n\
                     type, client, tx, amount\n\
                     # another comment\n\
                     deposit, 1, 1, 2.5";
    let expected_str = "client,available,held,total,locked\n1,2.5,0,2.5,false";
    assert_eq!(run_ok(input_str).as_str(), expected_str);
}

#[test]
fn blank_lines_are_skipped() {
    let input_str = "type, client, tx, amount\n\ndeposit, 1, 1, 2.5\n";
    let expected_str = "client,available,held,total,locked\n1,2.5,0,2.5,false";
    assert_eq!(run_ok(input_str).as_str(), expected_str);
}

#[test]
fn malformed_client_id_is_fatal() {
    let input_str = "type, client, tx, amount\ndeposit, abc, 1, 2.5";
    assert_eq!(
        csv_err(input_str),
        "CSV deserialize error: record 1 (line: 2, byte: 25): field 1: invalid digit found in \
         string"
    );
}

#[test]
fn non_numeric_amount_is_fatal_and_yields_no_rows() {
    let input_str = "type, client, tx, amount\ndeposit, 1, 1, abc";
    assert_eq!(
        csv_err(input_str),
        "CSV deserialize error: record 1 (line: 2, byte: 25): field 3: invalid float literal"
    );
}

#[test]
fn five_decimal_amount_is_fatal() {
    let input_str = "type, client, tx, amount\ndeposit, 1, 1, 1.12345";
    assert_eq!(
        csv_err(input_str),
        "CSV deserialize error: record 1 (line: 2, byte: 25): field 3: invalid float literal"
    );
}

#[test]
fn trailing_amount_zeros_are_not_printed() {
    let input_str = "type, client, tx, amount\ndeposit, 1, 1, 1.5000";
    let expected_str = "client,available,held,total,locked\n1,1.5,0,1.5,false";
    assert_eq!(run_ok(input_str).as_str(), expected_str);
}

#[test]
fn rows_are_sorted_by_account_id() {
    let input_str = "type, client, tx, amount\n\
                     deposit, 9, 1, 1.0\n\
                     deposit, 4, 2, 2.0\n\
                     deposit, 7, 3, 3.0";
    let expected_str = "client,available,held,total,locked\n\
                        4,2,0,2,false\n\
                        7,3,0,3,false\n\
                        9,1,0,1,false";
    assert_eq!(run_ok(input_str).as_str(), expected_str);
}

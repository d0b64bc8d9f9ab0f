use vstd::prelude::*;
use vstd::string::StringExecFns;
use crate::text::{ascii_chars, bytes_to_string, dec_chars, u64_to_string};

verus! {

/// An error that aborts the whole run: either the input could not be read
/// as a four-column record stream, or a record carried the wrong shape for
/// its transaction type.
#[derive(Debug)]
pub enum EngineError {
    CsvError(String),
    RecordError(String),
}

pub open spec fn msg_missing_amount(word: Seq<char>) -> Seq<char> {
    "The amount field is missing for "@ + word + " transaction in csv"@
}

pub open spec fn msg_amount_not_empty(word: Seq<char>) -> Seq<char> {
    "The amount should be empty for "@ + word + " in csv"@
}

pub open spec fn msg_unknown_type(ty: Seq<u8>) -> Seq<char> {
    "Unknown transaction type: \""@ + ascii_chars(ty) + "\""@
}

pub open spec fn msg_record_place(rec: nat, line: nat, byte: nat) -> Seq<char> {
    "record "@ + dec_chars(rec) + " (line: "@ + dec_chars(line) + ", byte: "@ + dec_chars(byte)
        + ")"@
}

pub open spec fn msg_field_count(rec: nat, line: nat, byte: nat, n: nat) -> Seq<char> {
    "CSV error: "@ + msg_record_place(rec, line, byte) + ": found record with "@ + dec_chars(n)
        + " fields, but the previous record has 4 fields"@
}

pub open spec fn msg_invalid_digit(rec: nat, line: nat, byte: nat, field: nat) -> Seq<char> {
    "CSV deserialize error: "@ + msg_record_place(rec, line, byte) + ": field "@ + dec_chars(field)
        + ": invalid digit found in string"@
}

pub open spec fn msg_invalid_float(rec: nat, line: nat, byte: nat) -> Seq<char> {
    "CSV deserialize error: "@ + msg_record_place(rec, line, byte)
        + ": field 3: invalid float literal"@
}

pub open spec fn msg_bad_header() -> Seq<char> {
    "CSV error: invalid header: expected type, client, tx, amount"@
}

pub fn build_missing_amount(word: &str) -> (m: String)
    ensures
        m@ == msg_missing_amount(word@),
{
    let mut s = String::from_str("The amount field is missing for ");
    s.append(word);
    s.append(" transaction in csv");
    s
}

pub fn build_amount_not_empty(word: &str) -> (m: String)
    ensures
        m@ == msg_amount_not_empty(word@),
{
    let mut s = String::from_str("The amount should be empty for ");
    s.append(word);
    s.append(" in csv");
    s
}

pub fn build_unknown_type(ty: &[u8]) -> (m: String)
    ensures
        crate::text::ascii_seq(ty@) ==> m@ == msg_unknown_type(ty@),
{
    let mut s = String::from_str("Unknown transaction type: \"");
    let body = bytes_to_string(ty);
    s.append(body.as_str());
    s.append("\"");
    s
}

fn build_record_place(rec: u64, line: u64, byte: u64) -> (m: String)
    ensures
        m@ == msg_record_place(rec as nat, line as nat, byte as nat),
{
    let mut s = String::from_str("record ");
    let r = u64_to_string(rec);
    s.append(r.as_str());
    s.append(" (line: ");
    let l = u64_to_string(line);
    s.append(l.as_str());
    s.append(", byte: ");
    let b = u64_to_string(byte);
    s.append(b.as_str());
    s.append(")");
    s
}

pub fn build_field_count(rec: u64, line: u64, byte: u64, n: u64) -> (m: String)
    ensures
        m@ == msg_field_count(rec as nat, line as nat, byte as nat, n as nat),
{
    let mut s = String::from_str("CSV error: ");
    let place = build_record_place(rec, line, byte);
    s.append(place.as_str());
    s.append(": found record with ");
    let c = u64_to_string(n);
    s.append(c.as_str());
    s.append(" fields, but the previous record has 4 fields");
    s
}

pub fn build_invalid_digit(rec: u64, line: u64, byte: u64, field: u64) -> (m: String)
    ensures
        m@ == msg_invalid_digit(rec as nat, line as nat, byte as nat, field as nat),
{
    let mut s = String::from_str("CSV deserialize error: ");
    let place = build_record_place(rec, line, byte);
    s.append(place.as_str());
    s.append(": field ");
    let f = u64_to_string(field);
    s.append(f.as_str());
    s.append(": invalid digit found in string");
    s
}

pub fn build_invalid_float(rec: u64, line: u64, byte: u64) -> (m: String)
    ensures
        m@ == msg_invalid_float(rec as nat, line as nat, byte as nat),
{
    let mut s = String::from_str("CSV deserialize error: ");
    let place = build_record_place(rec, line, byte);
    s.append(place.as_str());
    s.append(": field 3: invalid float literal");
    s
}

pub fn build_bad_header() -> (m: String)
    ensures
        m@ == msg_bad_header(),
{
    String::from_str("CSV error: invalid header: expected type, client, tx, amount")
}

} // verus!

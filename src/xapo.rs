//! Records of the wallet provider's export: `timestamp,amount,description,sub_description`,
//! with a trailing counterparty column that is not read.

use crate::money::{parse_decimal, parsed_amount, Decimal};
use crate::time::{fields_of, has_timestamp_shape, parse_date_time, DateTime, TimeParseError};
use vstd::prelude::*;

verus! {

/// One transaction of the export, as written there.
#[derive(Debug)]
pub struct XapoRow {
    pub time: DateTime,
    pub amount: Decimal,
    pub description: String,
    pub sub_description: String,
}

/// Why a record could not be read.
#[derive(Debug)]
pub enum ParseError {
    /// The file is not well-formed CSV, or a record has too few columns.
    Csv(String),
    TimeParse(TimeParseError),
    DecimalParse(rust_decimal::Error),
}

/// The first column holds a real timestamp.
pub open spec fn time_readable(f: Seq<char>) -> bool {
    has_timestamp_shape(f) && fields_of(f).valid()
}

/// Turns the columns of one record into a row; the fields are read in column order and the
/// first that cannot be read decides the error.
pub fn record_to_xapo_row(record: &Vec<String>) -> (r: Result<XapoRow, ParseError>)
    requires
        record@.len() >= 4,
    ensures
        r is Ok <==> time_readable(record@[0]@) && parsed_amount(record@[1]@) is Some,
        !time_readable(record@[0]@) ==> r is Err && r->Err_0 is TimeParse,
        time_readable(record@[0]@) && parsed_amount(record@[1]@) is None ==> r is Err
            && r->Err_0 is DecimalParse,
        r is Ok ==> {
            let x = r->Ok_0;
            &&& x.time == fields_of(record@[0]@)
            &&& (x.amount.m(), x.amount.s()) == parsed_amount(record@[1]@)->0
            &&& x.description@ == record@[2]@
            &&& x.sub_description@ == record@[3]@
        },
{
    let time = match parse_date_time(record[0].as_str()) {
        Ok(t) => t,
        Err(e) => return Err(ParseError::TimeParse(e)),
    };
    let amount = match parse_decimal(record[1].as_str()) {
        Ok(a) => a,
        Err(e) => return Err(ParseError::DecimalParse(e)),
    };
    Ok(XapoRow {
        time,
        amount,
        description: record[2].clone(),
        sub_description: record[3].clone(),
    })
}

} // verus!

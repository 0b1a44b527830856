use vstd::prelude::*;
use crate::amount::{Amount, amount_of, parse_amount};
use crate::ranking::CostEntry;

verus! {

/// Why a report could not be produced.
#[derive(Clone, Copy, Debug, PartialEq, Eq, Structural)]
pub enum CostError {
    /// The exchange-rate response lacks a readable rate.
    RateUnavailable,
    /// The per-service breakdown holds no time bucket, or the bucket has no groups.
    NoData,
    /// The forecast total is missing or unreadable.
    ForecastUnavailable,
    /// The month-to-date total is missing or unreadable.
    MonthToDateUnavailable,
    /// A calendar date needed for a request window cannot be computed.
    DateComputationFailure,
    /// A total is too large to be held as an amount.
    AmountOutOfRange,
}

/// The amount written in an optional text, if there is a text and it is a decimal.
pub open spec fn optional_amount(t: Option<String>) -> Option<Amount> {
    match t {
        Some(s) => amount_of(s@),
        None => None,
    }
}

fn read_optional(t: Option<String>) -> (r: Option<Amount>)
    ensures
        r == optional_amount(t),
{
    match t {
        Some(s) => parse_amount(s.as_str()),
        None => None,
    }
}

/// A cost entry from one billing group: its first dimension key and the text of its
/// unblended cost, which is kept only when it reads as a decimal.
pub fn cost_entry(label: Option<String>, cost: Option<String>) -> (r: CostEntry)
    ensures
        r.label == label,
        r.amount == optional_amount(cost),
{
    CostEntry { label, amount: read_optional(cost) }
}

/// The exchange rate from the rate field of the rate service's response.
pub fn read_rate(field: Option<String>) -> (r: Result<Amount, CostError>)
    ensures
        match optional_amount(field) {
            Some(a) => r == Ok::<Amount, CostError>(a),
            None => r == Err::<Amount, CostError>(CostError::RateUnavailable),
        },
{
    match read_optional(field) {
        Some(a) => Ok(a),
        None => Err(CostError::RateUnavailable),
    }
}

/// The forecast total from the forecast response's total amount.
pub fn read_forecast(total: Option<String>) -> (r: Result<Amount, CostError>)
    ensures
        match optional_amount(total) {
            Some(a) => r == Ok::<Amount, CostError>(a),
            None => r == Err::<Amount, CostError>(CostError::ForecastUnavailable),
        },
{
    match read_optional(total) {
        Some(a) => Ok(a),
        None => Err(CostError::ForecastUnavailable),
    }
}

/// The month-to-date cost from the unblended total of the first time bucket.
pub fn read_month_to_date(total: Option<String>) -> (r: Result<Amount, CostError>)
    ensures
        match optional_amount(total) {
            Some(a) => r == Ok::<Amount, CostError>(a),
            None => r == Err::<Amount, CostError>(CostError::MonthToDateUnavailable),
        },
{
    match read_optional(total) {
        Some(a) => Ok(a),
        None => Err(CostError::MonthToDateUnavailable),
    }
}

/// The per-service entries of the first time bucket; each bucket holds its groups,
/// if the response gave any. Fails with `NoData` when there is no bucket or the
/// first one has no groups (an absent or empty group list).
pub fn service_entries(buckets: Vec<Option<Vec<CostEntry>>>) -> (r: Result<Vec<CostEntry>, CostError>)
    ensures
        buckets@.len() == 0 ==> r == Err::<Vec<CostEntry>, CostError>(CostError::NoData),
        buckets@.len() > 0 ==> match buckets@[0] {
            Some(g) => (g@.len() == 0 ==> r == Err::<Vec<CostEntry>, CostError>(CostError::NoData))
                && (g@.len() > 0 ==> (r matches Ok(v) && v@ == g@)),
            None => r == Err::<Vec<CostEntry>, CostError>(CostError::NoData),
        },
{
    let mut buckets = buckets;
    if buckets.len() == 0 {
        return Err(CostError::NoData);
    }
    match buckets.remove(0) {
        Some(groups) => if groups.len() == 0 {
            Err(CostError::NoData)
        } else {
            Ok(groups)
        },
        None => Err(CostError::NoData),
    }
}

} // verus!

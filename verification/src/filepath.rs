//! Names of the files that cache one day of records each.

use vstd::prelude::*;
use vstd::string::StringExecFns;
use crate::calendar::{civil_date_of, date_of, date_of_timestamp, CivilDate};
use crate::text::{
    decimal, lemma_decimal_len, lemma_two_digits_len, pow10, push_signed_decimal, push_two_digits,
    signed_decimal, two_digits,
};
use crate::time::Timestamp;

verus! {

/// The directory, below the base directory, that holds the cache files.
pub const CACHE_DIRECTORY: &'static str = "jsons";

/// The name of the cache file of the day `date`: `docs_`, the year, the month
/// and the day of month with two digits each, and `.json`.
pub open spec fn file_name(date: CivilDate) -> Seq<char> {
    "docs_"@ + signed_decimal(date.year as int) + two_digits(date.month as nat) + two_digits(
        date.day as nat,
    ) + ".json"@
}

/// The path of the cache file of the day `date` below the directory `base`.
pub open spec fn file_path(base: Seq<char>, date: CivilDate) -> Seq<char> {
    base + "/"@ + CACHE_DIRECTORY@ + "/"@ + file_name(date)
}

/// Builds the name of the cache file of the day `date`.
pub fn json_file_name(date: &CivilDate) -> (name: String)
    ensures
        name@ == file_name(*date),
{
    let mut name = String::from_str("docs_");
    push_signed_decimal(&mut name, date.year as i64);
    push_two_digits(&mut name, date.month as u64);
    push_two_digits(&mut name, date.day as u64);
    name.append(".json");
    name
}

/// Builds the path of the cache file of the day `date` below `base`.
pub fn json_file_path(base: &str, date: &CivilDate) -> (path: String)
    ensures
        path@ == file_path(base@, *date),
{
    let mut path = String::from_str(base);
    path.append("/");
    path.append(CACHE_DIRECTORY);
    path.append("/");
    let name = json_file_name(date);
    path.append(name.as_str());
    path
}

/// The name of the cache file of the day that holds `dt`; `None` where the
/// calendar has no date for `dt`.
pub fn get_json_file_name_by_datetime(dt: &Timestamp) -> (r: Option<String>)
    ensures
        r is Some <==> civil_date_of(dt.secs as int) is Some,
        r matches Some(name) ==> name@ == file_name(
            date_of(civil_date_of(dt.secs as int)).unwrap(),
        ) && 15 <= name@.len() <= 25,
{
    match date_of_timestamp(dt) {
        Some(date) => {
            proof {
                lemma_file_name_length(date);
            }
            Some(json_file_name(&date))
        },
        None => None,
    }
}

/// The name of a cache file is as long as its year is written and fourteen
/// characters more: month and day of month take two digits each. It has
/// eighteen characters for a year of four digits and never more than
/// twenty-five.
pub proof fn lemma_file_name_length(date: CivilDate)
    requires
        date.in_calendar(),
    ensures
        file_name(date).len() == 14 + signed_decimal(date.year as int).len(),
        15 <= file_name(date).len() <= 25,
        1000 <= date.year <= 9999 ==> file_name(date).len() == 18,
{
    reveal_strlit("docs_");
    reveal_strlit(".json");
    lemma_two_digits_len(date.month as nat);
    lemma_two_digits_len(date.day as nat);
    let magnitude: nat = if date.year < 0 {
        (-(date.year as int)) as nat
    } else {
        date.year as nat
    };
    reveal_with_fuel(pow10, 11);
    lemma_decimal_len(magnitude, 10);
    if 1000 <= date.year <= 9999 {
        reveal_with_fuel(decimal, 4);
    }
}

/// The path, below the directory `base`, of the cache file of the day that
/// holds `dt`; `None` where the calendar has no date for `dt`.
pub fn get_json_file_path_by_datetime(base: &str, dt: &Timestamp) -> (r: Option<String>)
    ensures
        r is Some <==> civil_date_of(dt.secs as int) is Some,
        r matches Some(path) ==> path@ == file_path(
            base@,
            date_of(civil_date_of(dt.secs as int)).unwrap(),
        ),
{
    match date_of_timestamp(dt) {
        Some(date) => Some(json_file_path(base, &date)),
        None => None,
    }
}

} // verus!

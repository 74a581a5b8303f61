//! Raw records as a store hands them out, and their reading as samples.

use vstd::prelude::*;
use crate::calendar::{isoformat_to_dt, parsed_civil, reading_of, ISO_DATE_FORMAT};
use crate::sample::Sample;
use crate::time::Timestamp;

verus! {

/// A record before its time is read: the text of its local timestamp and the
/// bit pattern of its irradiance.
#[derive(Debug)]
pub struct RawRecord {
    pub jptime: String,
    pub irradiance_bits: u64,
}

/// A stored day that cannot be read: the record at `index` holds no
/// timestamp in the expected layout.
#[derive(Clone, Copy, Debug, PartialEq, Eq, Structural)]
pub struct CorruptCache {
    pub index: usize,
}

/// The time that the text of `record` names, if it names one.
pub open spec fn time_of(record: RawRecord) -> Option<Timestamp> {
    reading_of(parsed_civil(record.jptime@, ISO_DATE_FORMAT@))
}

/// Whether every record of `raw` names a time.
pub open spec fn all_readable(raw: Seq<RawRecord>) -> bool {
    forall|i: int| 0 <= i < raw.len() ==> (#[trigger] time_of(raw[i])) is Some
}

/// The sample that `record` stands for, where it names a time.
pub open spec fn sample_of(record: RawRecord) -> Sample {
    Sample { timestamp: time_of(record).unwrap(), irradiance_bits: record.irradiance_bits }
}

/// Makes the sample taken at `dt` with the irradiance pattern `q`.
pub fn create_doc(dt: Timestamp, q: u64) -> (s: Sample)
    ensures
        s == (Sample { timestamp: dt, irradiance_bits: q }),
{
    Sample::new(dt, q)
}

/// Reads the time of a raw record.
pub fn doc_to_dt(v: &RawRecord) -> (r: Option<Timestamp>)
    ensures
        r == time_of(*v),
{
    isoformat_to_dt(v.jptime.as_str())
}

/// Reads the records of a stored day as samples, in their order.
///
/// It fails with the index of the first record whose timestamp cannot be
/// read, and only where there is one.
pub fn parse_records(raw: &Vec<RawRecord>) -> (r: Result<Vec<Sample>, CorruptCache>)
    ensures
        r is Ok <==> all_readable(raw@),
        r matches Ok(samples) ==> samples@ == raw@.map_values(|rec: RawRecord| sample_of(rec)),
        r matches Err(e) ==> 0 <= e.index < raw.len() && time_of(raw[e.index as int]) is None
            && all_readable(raw@.take(e.index as int)),
{
    let mut samples: Vec<Sample> = Vec::new();
    let mut i: usize = 0;
    while i < raw.len()
        invariant
            i <= raw.len(),
            all_readable(raw@.take(i as int)),
            samples@ == raw@.take(i as int).map_values(|rec: RawRecord| sample_of(rec)),
        decreases raw.len() - i,
    {
        match doc_to_dt(&raw[i]) {
            Some(t) => {
                samples.push(create_doc(t, raw[i].irradiance_bits));
            },
            None => {
                return Err(CorruptCache { index: i });
            },
        }
        i = i + 1;
    }
    proof {
        assert(raw@.take(raw.len() as int) =~= raw@);
    }
    Ok(samples)
}

} // verus!

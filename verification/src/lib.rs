//! Historical exchange-rate ingestion: a typed model of the remote API's
//! candle responses, a verified decoder for the JSON payload, and the
//! decision logic of a bounded fetch that races one HTTP GET against a
//! timeout.  All I/O lives outside this crate; the functions here work on
//! plain values and carry contracts.
pub mod codec;
pub mod errors;
pub mod fetch;
pub mod json;
pub mod laws;
pub mod model;
pub mod scan;

use vstd::prelude::*;

use crate::codec::items_view;
use crate::model::HistoItem;
use crate::model::HistoItemV;
use crate::model::HistoResponse;
use crate::scan::spec_digits_of;
use crate::scan::u64_to_digits;

verus! {

/// The document persisted per fetch: a caller-chosen dataset name as the
/// key, and the samples with their time bounds.
pub struct DataSet {
    pub name: String,
    pub data: Vec<HistoItem>,
    pub time_to: u64,
    pub time_from: u64,
}

impl DataSet {
    /// Wraps a fetched response under a dataset name, keeping the samples
    /// and time bounds unchanged.
    pub fn from_response(name: String, r: HistoResponse) -> (d: DataSet)
        ensures
            d.name@ == name@,
            d.data@ == r.data@,
            d.time_to == r.time_to,
            d.time_from == r.time_from,
    {
        DataSet { name, data: r.data, time_to: r.time_to, time_from: r.time_from }
    }
}

/// One dump line per sample: the time in decimal, then the low and high
/// number tokens, space-separated and newline-terminated.
pub open spec fn spec_dump_line(it: HistoItemV) -> Seq<u8> {
    spec_digits_of(it.time as nat) + seq![32u8] + it.low + seq![32u8] + it.high + seq![10u8]
}

/// The whole raw dump: the lines of the samples, in order.
pub open spec fn spec_dump(items: Seq<HistoItemV>) -> Seq<u8>
    decreases items.len(),
{
    if items.len() == 0 {
        Seq::empty()
    } else {
        spec_dump(items.drop_last()) + spec_dump_line(items.last())
    }
}

/// Renders the line-oriented text dump of `(time, low, high)` triples that
/// the ingestion driver writes to disk.
pub fn render_dump(data: &Vec<HistoItem>) -> (out: Vec<u8>)
    ensures
        out@ == spec_dump(items_view(data@)),
{
    let n = data.len();
    let mut out: Vec<u8> = Vec::new();
    let mut k: usize = 0;
    while k < n
        invariant
            k <= n,
            n == data@.len(),
            out@ == spec_dump(items_view(data@.subrange(0, k as int))),
        decreases n - k,
    {
        let ghost prefix = items_view(data@.subrange(0, k as int));
        let it = &data[k];
        let mut t = u64_to_digits(it.time);
        out.append(&mut t);
        out.push(32);
        let mut lo = vstd::slice::slice_to_vec(it.low.as_slice());
        out.append(&mut lo);
        out.push(32);
        let mut hi = vstd::slice::slice_to_vec(it.high.as_slice());
        out.append(&mut hi);
        out.push(10);
        k = k + 1;
        proof {
            let cur = items_view(data@.subrange(0, k as int));
            assert(cur.drop_last() =~= prefix);
            assert(cur.last() == data@[k - 1]@);
            assert(out@ =~= spec_dump(prefix) + spec_dump_line(cur.last()));
        }
    }
    proof {
        assert(data@.subrange(0, n as int) =~= data@);
    }
    out
}

} // verus!

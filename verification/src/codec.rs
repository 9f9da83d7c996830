//! Decoding of the remote API's JSON payload into the typed response model.
//!
//! The grammar the decoder accepts is written down as specification
//! functions (`spec_decode` and its parts); the executable decoder returns
//! exactly what they denote.  Decoding is all-or-nothing: a payload that
//! does not match the documented shape yields `DecodeError` and no partial
//! response.  Members the model does not retain are skipped; each retained
//! member must appear exactly once; string bodies are kept escape-free.
use vstd::prelude::*;
use vstd::slice::slice_subrange;
use vstd::slice::slice_to_vec;

use crate::errors::DecodeError;
use crate::json::next_at;
use crate::json::num_end_x;
use crate::json::skip_value_x;
use crate::json::spec_num_end;
use crate::json::spec_skip_value;
use crate::model::HistoItem;
use crate::model::HistoItemV;
use crate::model::HistoResponse;
use crate::model::HistoResponseV;
use crate::scan::parse_u64_x;
use crate::scan::range_eq;
use crate::scan::skip_ws;
use crate::scan::skip_ws_x;
use crate::scan::spec_parse_u64;
use crate::scan::str_end;
use crate::scan::str_end_x;

verus! {

/// Key bytes of `"time"`.
pub open spec fn key_time() -> Seq<u8> {
    seq![116u8, 105u8, 109u8, 101u8]
}

/// Key bytes of `"high"`.
pub open spec fn key_high() -> Seq<u8> {
    seq![104u8, 105u8, 103u8, 104u8]
}

/// Key bytes of `"low"`.
pub open spec fn key_low() -> Seq<u8> {
    seq![108u8, 111u8, 119u8]
}

/// Key bytes of `"open"`.
pub open spec fn key_open_() -> Seq<u8> {
    seq![111u8, 112u8, 101u8, 110u8]
}

/// Key bytes of `"volumefrom"`.
pub open spec fn key_volumefrom() -> Seq<u8> {
    seq![118u8, 111u8, 108u8, 117u8, 109u8, 101u8, 102u8, 114u8, 111u8, 109u8]
}

/// Key bytes of `"volumeto"`.
pub open spec fn key_volumeto() -> Seq<u8> {
    seq![118u8, 111u8, 108u8, 117u8, 109u8, 101u8, 116u8, 111u8]
}

/// Key bytes of `"close"`.
pub open spec fn key_close() -> Seq<u8> {
    seq![99u8, 108u8, 111u8, 115u8, 101u8]
}

/// Key bytes of `"Response"`.
pub open spec fn key_response() -> Seq<u8> {
    seq![82u8, 101u8, 115u8, 112u8, 111u8, 110u8, 115u8, 101u8]
}

/// Key bytes of `"Type"`.
pub open spec fn key_rtype() -> Seq<u8> {
    seq![84u8, 121u8, 112u8, 101u8]
}

/// Key bytes of `"Aggregated"`.
pub open spec fn key_aggregated() -> Seq<u8> {
    seq![65u8, 103u8, 103u8, 114u8, 101u8, 103u8, 97u8, 116u8, 101u8, 100u8]
}

/// Key bytes of `"Data"`.
pub open spec fn key_data() -> Seq<u8> {
    seq![68u8, 97u8, 116u8, 97u8]
}

/// Key bytes of `"TimeTo"`.
pub open spec fn key_time_to() -> Seq<u8> {
    seq![84u8, 105u8, 109u8, 101u8, 84u8, 111u8]
}

/// Key bytes of `"TimeFrom"`.
pub open spec fn key_time_from() -> Seq<u8> {
    seq![84u8, 105u8, 109u8, 101u8, 70u8, 114u8, 111u8, 109u8]
}

/// Fields of one sample gathered so far while its members are read.
pub struct ItemAcc {
    pub time: Option<u64>,
    pub high: Option<Seq<u8>>,
    pub low: Option<Seq<u8>>,
    pub open: Option<Seq<u8>>,
    pub volumefrom: Option<Seq<u8>>,
    pub volumeto: Option<Seq<u8>>,
    pub close: Option<Seq<u8>>,
}

pub open spec fn empty_item_acc() -> ItemAcc {
    ItemAcc {
        time: None,
        high: None,
        low: None,
        open: None,
        volumefrom: None,
        volumeto: None,
        close: None,
    }
}

/// Effect of one sample member named `key` whose value stands at `v`:
/// a retained member is parsed and recorded (a second occurrence is
/// rejected), any other member's value is skipped unrecorded.
pub open spec fn spec_item_member_value(s: Seq<u8>, v: int, key: Seq<u8>, acc: ItemAcc) -> Option<
    (ItemAcc, int),
> {
    if key == key_time() {
        if acc.time is Some {
            None
        } else {
            match spec_parse_u64(s, v) {
                None => None,
                Some(p) => Some((ItemAcc { time: Some(p.0), ..acc }, p.1)),
            }
        }
    } else if key == key_high() {
        if acc.high is Some {
            None
        } else {
            match spec_num_end(s, v) {
                None => None,
                Some(e) => Some((ItemAcc { high: Some(s.subrange(v, e)), ..acc }, e)),
            }
        }
    } else if key == key_low() {
        if acc.low is Some {
            None
        } else {
            match spec_num_end(s, v) {
                None => None,
                Some(e) => Some((ItemAcc { low: Some(s.subrange(v, e)), ..acc }, e)),
            }
        }
    } else if key == key_open_() {
        if acc.open is Some {
            None
        } else {
            match spec_num_end(s, v) {
                None => None,
                Some(e) => Some((ItemAcc { open: Some(s.subrange(v, e)), ..acc }, e)),
            }
        }
    } else if key == key_volumefrom() {
        if acc.volumefrom is Some {
            None
        } else {
            match spec_num_end(s, v) {
                None => None,
                Some(e) => Some((ItemAcc { volumefrom: Some(s.subrange(v, e)), ..acc }, e)),
            }
        }
    } else if key == key_volumeto() {
        if acc.volumeto is Some {
            None
        } else {
            match spec_num_end(s, v) {
                None => None,
                Some(e) => Some((ItemAcc { volumeto: Some(s.subrange(v, e)), ..acc }, e)),
            }
        }
    } else if key == key_close() {
        if acc.close is Some {
            None
        } else {
            match spec_num_end(s, v) {
                None => None,
                Some(e) => Some((ItemAcc { close: Some(s.subrange(v, e)), ..acc }, e)),
            }
        }
    } else {
        match spec_skip_value(s, v) {
            None => None,
            Some(k) => Some((acc, k)),
        }
    }
}

/// From the start of a member key or the closing brace, reads the rest of a
/// sample object's members into `acc`.
pub open spec fn spec_parse_item_members(s: Seq<u8>, i: int, acc: ItemAcc) -> Option<
    (ItemAcc, int),
>
    decreases s.len() - i,
{
    if !(0 <= i && i < s.len()) {
        None
    } else if s[i] == 125 {
        Some((acc, i + 1))
    } else if s[i] != 34 {
        None
    } else {
        match str_end(s, i + 1) {
            None => None,
            Some(e) => {
                let key = s.subrange(i + 1, e);
                let c = skip_ws(s, e + 1);
                if !(c < s.len() && s[c] == 58) {
                    None
                } else {
                    let v = skip_ws(s, c + 1);
                    match spec_item_member_value(s, v, key, acc) {
                        None => None,
                        Some(p) => {
                            let m = skip_ws(s, p.1);
                            if m < s.len() && s[m] == 44 {
                                let n2 = skip_ws(s, m + 1);
                                if n2 < s.len() && s[n2] == 34 {
                                    spec_parse_item_members(s, next_at(s, i, n2), p.0)
                                } else {
                                    None
                                }
                            } else if m < s.len() && s[m] == 125 {
                                Some((p.0, m + 1))
                            } else {
                                None
                            }
                        },
                    }
                }
            },
        }
    }
}

/// A sample is complete when each of its seven members appeared.
pub open spec fn complete_item(acc: ItemAcc) -> Option<HistoItemV> {
    match (acc.time, acc.high, acc.low, acc.open, acc.volumefrom, acc.volumeto, acc.close) {
        (Some(t), Some(h), Some(l), Some(o), Some(vf), Some(vt), Some(c)) => Some(
            HistoItemV {
                time: t,
                high: h,
                low: l,
                open: o,
                volumefrom: vf,
                volumeto: vt,
                close: c,
            },
        ),
        _ => None,
    }
}

/// One sample object standing at `i`.
pub open spec fn spec_parse_item(s: Seq<u8>, i: int) -> Option<(HistoItemV, int)> {
    if 0 <= i && i < s.len() && s[i] == 123 {
        match spec_parse_item_members(s, next_at(s, i, skip_ws(s, i + 1)), empty_item_acc()) {
            None => None,
            Some(p) => match complete_item(p.0) {
                None => None,
                Some(it) => Some((it, p.1)),
            },
        }
    } else {
        None
    }
}

/// From the start of a sample object or the closing bracket, reads the rest
/// of the `Data` array after `acc`.
pub open spec fn spec_parse_items(s: Seq<u8>, i: int, acc: Seq<HistoItemV>) -> Option<
    (Seq<HistoItemV>, int),
>
    decreases s.len() - i,
{
    if !(0 <= i && i < s.len()) {
        None
    } else if s[i] == 93 {
        Some((acc, i + 1))
    } else {
        match spec_parse_item(s, i) {
            None => None,
            Some(p) => {
                let m = skip_ws(s, p.1);
                if m < s.len() && s[m] == 44 {
                    let n2 = skip_ws(s, m + 1);
                    if n2 < s.len() && s[n2] == 123 {
                        spec_parse_items(s, next_at(s, i, n2), acc.push(p.0))
                    } else {
                        None
                    }
                } else if m < s.len() && s[m] == 93 {
                    Some((acc.push(p.0), m + 1))
                } else {
                    None
                }
            },
        }
    }
}

/// Fields of the response gathered so far while its members are read.
pub struct RespAcc {
    pub response: Option<Seq<u8>>,
    pub response_type: Option<u64>,
    pub aggregated: Option<bool>,
    pub data: Option<Seq<HistoItemV>>,
    pub time_to: Option<u64>,
    pub time_from: Option<u64>,
}

pub open spec fn empty_resp_acc() -> RespAcc {
    RespAcc {
        response: None,
        response_type: None,
        aggregated: None,
        data: None,
        time_to: None,
        time_from: None,
    }
}

/// Effect of one response member named `key` whose value stands at `v`.
pub open spec fn spec_resp_member_value(s: Seq<u8>, v: int, key: Seq<u8>, acc: RespAcc) -> Option<
    (RespAcc, int),
> {
    if key == key_response() {
        if acc.response is Some {
            None
        } else if 0 <= v && v < s.len() && s[v] == 34 {
            match str_end(s, v + 1) {
                None => None,
                Some(e) => Some((RespAcc { response: Some(s.subrange(v + 1, e)), ..acc }, e + 1)),
            }
        } else {
            None
        }
    } else if key == key_rtype() {
        if acc.response_type is Some {
            None
        } else {
            match spec_parse_u64(s, v) {
                None => None,
                Some(p) => Some((RespAcc { response_type: Some(p.0), ..acc }, p.1)),
            }
        }
    } else if key == key_aggregated() {
        if acc.aggregated is Some {
            None
        } else if 0 <= v && v < s.len() && s[v] == 116 {
            if v + 4 <= s.len() && s[v + 1] == 114 && s[v + 2] == 117 && s[v + 3] == 101 {
                Some((RespAcc { aggregated: Some(true), ..acc }, v + 4))
            } else {
                None
            }
        } else if 0 <= v && v < s.len() && s[v] == 102 {
            if v + 5 <= s.len() && s[v + 1] == 97 && s[v + 2] == 108 && s[v + 3] == 115 && s[v + 4]
                == 101 {
                Some((RespAcc { aggregated: Some(false), ..acc }, v + 5))
            } else {
                None
            }
        } else {
            None
        }
    } else if key == key_data() {
        if acc.data is Some {
            None
        } else if 0 <= v && v < s.len() && s[v] == 91 {
            match spec_parse_items(s, next_at(s, v, skip_ws(s, v + 1)), Seq::empty()) {
                None => None,
                Some(p) => Some((RespAcc { data: Some(p.0), ..acc }, p.1)),
            }
        } else {
            None
        }
    } else if key == key_time_to() {
        if acc.time_to is Some {
            None
        } else {
            match spec_parse_u64(s, v) {
                None => None,
                Some(p) => Some((RespAcc { time_to: Some(p.0), ..acc }, p.1)),
            }
        }
    } else if key == key_time_from() {
        if acc.time_from is Some {
            None
        } else {
            match spec_parse_u64(s, v) {
                None => None,
                Some(p) => Some((RespAcc { time_from: Some(p.0), ..acc }, p.1)),
            }
        }
    } else {
        match spec_skip_value(s, v) {
            None => None,
            Some(k) => Some((acc, k)),
        }
    }
}

/// From the start of a member key or the closing brace, reads the rest of
/// the response object's members into `acc`.
pub open spec fn spec_parse_resp_members(s: Seq<u8>, i: int, acc: RespAcc) -> Option<
    (RespAcc, int),
>
    decreases s.len() - i,
{
    if !(0 <= i && i < s.len()) {
        None
    } else if s[i] == 125 {
        Some((acc, i + 1))
    } else if s[i] != 34 {
        None
    } else {
        match str_end(s, i + 1) {
            None => None,
            Some(e) => {
                let key = s.subrange(i + 1, e);
                let c = skip_ws(s, e + 1);
                if !(c < s.len() && s[c] == 58) {
                    None
                } else {
                    let v = skip_ws(s, c + 1);
                    match spec_resp_member_value(s, v, key, acc) {
                        None => None,
                        Some(p) => {
                            let m = skip_ws(s, p.1);
                            if m < s.len() && s[m] == 44 {
                                let n2 = skip_ws(s, m + 1);
                                if n2 < s.len() && s[n2] == 34 {
                                    spec_parse_resp_members(s, next_at(s, i, n2), p.0)
                                } else {
                                    None
                                }
                            } else if m < s.len() && s[m] == 125 {
                                Some((p.0, m + 1))
                            } else {
                                None
                            }
                        },
                    }
                }
            },
        }
    }
}

/// The response is complete when each of its six members appeared.
pub open spec fn complete_resp(acc: RespAcc) -> Option<HistoResponseV> {
    match (acc.response, acc.response_type, acc.aggregated, acc.data, acc.time_to, acc.time_from) {
        (Some(rs), Some(ty), Some(ag), Some(d), Some(tt), Some(tf)) => Some(
            HistoResponseV {
                response: rs,
                response_type: ty,
                aggregated: ag,
                data: d,
                time_to: tt,
                time_from: tf,
            },
        ),
        _ => None,
    }
}

/// The decoded image of a payload: the response document it denotes, or
/// nothing when the payload is not one well-formed response document
/// followed only by whitespace.
pub open spec fn spec_decode(s: Seq<u8>) -> Option<HistoResponseV> {
    let i = skip_ws(s, 0);
    if i < s.len() && s[i] == 123 {
        match spec_parse_resp_members(s, next_at(s, i, skip_ws(s, i + 1)), empty_resp_acc()) {
            None => None,
            Some(p) => {
                if skip_ws(s, p.1) == s.len() {
                    complete_resp(p.0)
                } else {
                    None
                }
            },
        }
    } else {
        None
    }
}

/// The member-key bytes, materialised once per decode call.
pub(crate) struct Keys {
    pub time: Vec<u8>,
    pub high: Vec<u8>,
    pub low: Vec<u8>,
    pub open_: Vec<u8>,
    pub volumefrom: Vec<u8>,
    pub volumeto: Vec<u8>,
    pub close: Vec<u8>,
    pub response: Vec<u8>,
    pub rtype: Vec<u8>,
    pub aggregated: Vec<u8>,
    pub data: Vec<u8>,
    pub time_to: Vec<u8>,
    pub time_from: Vec<u8>,
}

pub(crate) open spec fn keys_ok(ks: &Keys) -> bool {
    &&& ks.time@ == key_time()
    &&& ks.high@ == key_high()
    &&& ks.low@ == key_low()
    &&& ks.open_@ == key_open_()
    &&& ks.volumefrom@ == key_volumefrom()
    &&& ks.volumeto@ == key_volumeto()
    &&& ks.close@ == key_close()
    &&& ks.response@ == key_response()
    &&& ks.rtype@ == key_rtype()
    &&& ks.aggregated@ == key_aggregated()
    &&& ks.data@ == key_data()
    &&& ks.time_to@ == key_time_to()
    &&& ks.time_from@ == key_time_from()
}

pub(crate) fn make_keys() -> (ks: Keys)
    ensures
        keys_ok(&ks),
{
    let mut time: Vec<u8> = Vec::new();
    time.push(116);
    time.push(105);
    time.push(109);
    time.push(101);
    let mut high: Vec<u8> = Vec::new();
    high.push(104);
    high.push(105);
    high.push(103);
    high.push(104);
    let mut low: Vec<u8> = Vec::new();
    low.push(108);
    low.push(111);
    low.push(119);
    let mut open_: Vec<u8> = Vec::new();
    open_.push(111);
    open_.push(112);
    open_.push(101);
    open_.push(110);
    let mut volumefrom: Vec<u8> = Vec::new();
    volumefrom.push(118);
    volumefrom.push(111);
    volumefrom.push(108);
    volumefrom.push(117);
    volumefrom.push(109);
    volumefrom.push(101);
    volumefrom.push(102);
    volumefrom.push(114);
    volumefrom.push(111);
    volumefrom.push(109);
    let mut volumeto: Vec<u8> = Vec::new();
    volumeto.push(118);
    volumeto.push(111);
    volumeto.push(108);
    volumeto.push(117);
    volumeto.push(109);
    volumeto.push(101);
    volumeto.push(116);
    volumeto.push(111);
    let mut close: Vec<u8> = Vec::new();
    close.push(99);
    close.push(108);
    close.push(111);
    close.push(115);
    close.push(101);
    let mut response: Vec<u8> = Vec::new();
    response.push(82);
    response.push(101);
    response.push(115);
    response.push(112);
    response.push(111);
    response.push(110);
    response.push(115);
    response.push(101);
    let mut rtype: Vec<u8> = Vec::new();
    rtype.push(84);
    rtype.push(121);
    rtype.push(112);
    rtype.push(101);
    let mut aggregated: Vec<u8> = Vec::new();
    aggregated.push(65);
    aggregated.push(103);
    aggregated.push(103);
    aggregated.push(114);
    aggregated.push(101);
    aggregated.push(103);
    aggregated.push(97);
    aggregated.push(116);
    aggregated.push(101);
    aggregated.push(100);
    let mut data: Vec<u8> = Vec::new();
    data.push(68);
    data.push(97);
    data.push(116);
    data.push(97);
    let mut time_to: Vec<u8> = Vec::new();
    time_to.push(84);
    time_to.push(105);
    time_to.push(109);
    time_to.push(101);
    time_to.push(84);
    time_to.push(111);
    let mut time_from: Vec<u8> = Vec::new();
    time_from.push(84);
    time_from.push(105);
    time_from.push(109);
    time_from.push(101);
    time_from.push(70);
    time_from.push(114);
    time_from.push(111);
    time_from.push(109);
    let ks = Keys { time, high, low, open_, volumefrom, volumeto, close, response, rtype, aggregated, data, time_to, time_from };
    proof {
        assert(ks.time@ =~= key_time());
        assert(ks.high@ =~= key_high());
        assert(ks.low@ =~= key_low());
        assert(ks.open_@ =~= key_open_());
        assert(ks.volumefrom@ =~= key_volumefrom());
        assert(ks.volumeto@ =~= key_volumeto());
        assert(ks.close@ =~= key_close());
        assert(ks.response@ =~= key_response());
        assert(ks.rtype@ =~= key_rtype());
        assert(ks.aggregated@ =~= key_aggregated());
        assert(ks.data@ =~= key_data());
        assert(ks.time_to@ =~= key_time_to());
        assert(ks.time_from@ =~= key_time_from());
    }
    ks
}

/// Executable accumulator for one sample's members.
struct ItemAccX {
    time: Option<u64>,
    high: Option<Vec<u8>>,
    low: Option<Vec<u8>>,
    open: Option<Vec<u8>>,
    volumefrom: Option<Vec<u8>>,
    volumeto: Option<Vec<u8>>,
    close: Option<Vec<u8>>,
}

impl View for ItemAccX {
    type V = ItemAcc;

    closed spec fn view(&self) -> ItemAcc {
        ItemAcc {
            time: self.time,
            high: match self.high {
                Some(v) => Some(v@),
                None => None,
            },
            low: match self.low {
                Some(v) => Some(v@),
                None => None,
            },
            open: match self.open {
                Some(v) => Some(v@),
                None => None,
            },
            volumefrom: match self.volumefrom {
                Some(v) => Some(v@),
                None => None,
            },
            volumeto: match self.volumeto {
                Some(v) => Some(v@),
                None => None,
            },
            close: match self.close {
                Some(v) => Some(v@),
                None => None,
            },
        }
    }
}

fn item_member_value_x(s: &[u8], v: usize, lo: usize, hi: usize, acc: ItemAccX, ks: &Keys) -> (r:
    Option<(ItemAccX, usize)>)
    requires
        v <= s@.len(),
        lo <= hi <= s@.len(),
        keys_ok(ks),
    ensures
        ({
            let key = s@.subrange(lo as int, hi as int);
            match r {
                Some(p) => spec_item_member_value(s@, v as int, key, acc@) == Some(
                    (p.0@, p.1 as int),
                ) && v < p.1 <= s@.len(),
                None => spec_item_member_value(s@, v as int, key, acc@) is None,
            }
        }),
{
    if range_eq(s, lo, hi, ks.time.as_slice()) {
        if acc.time.is_some() {
            return None;
        }
        match parse_u64_x(s, v) {
            None => None,
            Some(p) => Some((ItemAccX { time: Some(p.0), ..acc }, p.1)),
        }
    } else if range_eq(s, lo, hi, ks.high.as_slice()) {
        if acc.high.is_some() {
            return None;
        }
        match num_end_x(s, v) {
            None => None,
            Some(e) => {
                let txt = slice_to_vec(slice_subrange(s, v, e));
                Some((ItemAccX { high: Some(txt), ..acc }, e))
            },
        }
    } else if range_eq(s, lo, hi, ks.low.as_slice()) {
        if acc.low.is_some() {
            return None;
        }
        match num_end_x(s, v) {
            None => None,
            Some(e) => {
                let txt = slice_to_vec(slice_subrange(s, v, e));
                Some((ItemAccX { low: Some(txt), ..acc }, e))
            },
        }
    } else if range_eq(s, lo, hi, ks.open_.as_slice()) {
        if acc.open.is_some() {
            return None;
        }
        match num_end_x(s, v) {
            None => None,
            Some(e) => {
                let txt = slice_to_vec(slice_subrange(s, v, e));
                Some((ItemAccX { open: Some(txt), ..acc }, e))
            },
        }
    } else if range_eq(s, lo, hi, ks.volumefrom.as_slice()) {
        if acc.volumefrom.is_some() {
            return None;
        }
        match num_end_x(s, v) {
            None => None,
            Some(e) => {
                let txt = slice_to_vec(slice_subrange(s, v, e));
                Some((ItemAccX { volumefrom: Some(txt), ..acc }, e))
            },
        }
    } else if range_eq(s, lo, hi, ks.volumeto.as_slice()) {
        if acc.volumeto.is_some() {
            return None;
        }
        match num_end_x(s, v) {
            None => None,
            Some(e) => {
                let txt = slice_to_vec(slice_subrange(s, v, e));
                Some((ItemAccX { volumeto: Some(txt), ..acc }, e))
            },
        }
    } else if range_eq(s, lo, hi, ks.close.as_slice()) {
        if acc.close.is_some() {
            return None;
        }
        match num_end_x(s, v) {
            None => None,
            Some(e) => {
                let txt = slice_to_vec(slice_subrange(s, v, e));
                Some((ItemAccX { close: Some(txt), ..acc }, e))
            },
        }
    } else {
        match skip_value_x(s, v) {
            None => None,
            Some(k) => Some((acc, k)),
        }
    }
}

fn parse_item_members_x(s: &[u8], i: usize, acc: ItemAccX, ks: &Keys) -> (r: Option<
    (ItemAccX, usize)>)
    requires
        i <= s@.len(),
        keys_ok(ks),
    ensures
        match r {
            Some(p) => spec_parse_item_members(s@, i as int, acc@) == Some((p.0@, p.1 as int))
                && i < p.1 <= s@.len(),
            None => spec_parse_item_members(s@, i as int, acc@) is None,
        },
    decreases s@.len() - i,
{
    let n = s.len();
    if i >= n {
        return None;
    }
    if s[i] == 125 {
        return Some((acc, i + 1));
    }
    if s[i] != 34 {
        return None;
    }
    match str_end_x(s, i + 1) {
        None => None,
        Some(e) => {
            let c = skip_ws_x(s, e + 1);
            if !(c < n && s[c] == 58) {
                return None;
            }
            let v = skip_ws_x(s, c + 1);
            match item_member_value_x(s, v, i + 1, e, acc, ks) {
                None => None,
                Some(p) => {
                    let (acc2, k) = p;
                    let m = skip_ws_x(s, k);
                    if m < n && s[m] == 44 {
                        let n2 = skip_ws_x(s, m + 1);
                        if n2 < n && s[n2] == 34 {
                            proof {
                                assert(next_at(s@, i as int, n2 as int) == n2 as int);
                            }
                            parse_item_members_x(s, n2, acc2, ks)
                        } else {
                            None
                        }
                    } else if m < n && s[m] == 125 {
                        Some((acc2, m + 1))
                    } else {
                        None
                    }
                },
            }
        },
    }
}

fn complete_item_x(acc: ItemAccX) -> (r: Option<HistoItem>)
    ensures
        match r {
            Some(it) => complete_item(acc@) == Some(it@),
            None => complete_item(acc@) is None,
        },
{
    match acc {
        ItemAccX {
            time: Some(t),
            high: Some(h),
            low: Some(l),
            open: Some(o),
            volumefrom: Some(vf),
            volumeto: Some(vt),
            close: Some(c),
        } => Some(
            HistoItem {
                time: t,
                high: h,
                low: l,
                open: o,
                volumefrom: vf,
                volumeto: vt,
                close: c,
            },
        ),
        _ => None,
    }
}

fn parse_item_x(s: &[u8], i: usize, ks: &Keys) -> (r: Option<(HistoItem, usize)>)
    requires
        i <= s@.len(),
        keys_ok(ks),
    ensures
        match r {
            Some(p) => spec_parse_item(s@, i as int) == Some((p.0@, p.1 as int)) && i < p.1
                <= s@.len(),
            None => spec_parse_item(s@, i as int) is None,
        },
{
    let n = s.len();
    if !(i < n && s[i] == 123) {
        return None;
    }
    let j = skip_ws_x(s, i + 1);
    proof {
        assert(next_at(s@, i as int, j as int) == j as int);
    }
    let acc0 = ItemAccX {
        time: None,
        high: None,
        low: None,
        open: None,
        volumefrom: None,
        volumeto: None,
        close: None,
    };
    proof {
        assert(acc0@ == empty_item_acc());
    }
    match parse_item_members_x(s, j, acc0, ks) {
        None => None,
        Some(p) => {
            let (acc, end) = p;
            match complete_item_x(acc) {
                None => None,
                Some(it) => Some((it, end)),
            }
        },
    }
}

/// The image of a sequence of decoded samples.
pub open spec fn items_view(v: Seq<HistoItem>) -> Seq<HistoItemV> {
    v.map_values(|it: HistoItem| it@)
}

fn parse_items_x(s: &[u8], i: usize, acc: Vec<HistoItem>, ks: &Keys) -> (r: Option<
    (Vec<HistoItem>, usize)>)
    requires
        i <= s@.len(),
        keys_ok(ks),
    ensures
        match r {
            Some(p) => spec_parse_items(s@, i as int, items_view(acc@)) == Some(
                (items_view(p.0@), p.1 as int),
            ) && i < p.1 <= s@.len(),
            None => spec_parse_items(s@, i as int, items_view(acc@)) is None,
        },
    decreases s@.len() - i,
{
    let n = s.len();
    if i >= n {
        return None;
    }
    if s[i] == 93 {
        return Some((acc, i + 1));
    }
    match parse_item_x(s, i, ks) {
        None => None,
        Some(p) => {
            let (it, k) = p;
            let ghost it_v = it@;
            let m = skip_ws_x(s, k);
            let mut acc2 = acc;
            acc2.push(it);
            proof {
                assert(items_view(acc2@) =~= items_view(acc@).push(it_v));
            }
            if m < n && s[m] == 44 {
                let n2 = skip_ws_x(s, m + 1);
                if n2 < n && s[n2] == 123 {
                    proof {
                        assert(next_at(s@, i as int, n2 as int) == n2 as int);
                    }
                    parse_items_x(s, n2, acc2, ks)
                } else {
                    None
                }
            } else if m < n && s[m] == 93 {
                Some((acc2, m + 1))
            } else {
                None
            }
        },
    }
}

/// Executable accumulator for the response members.
struct RespAccX {
    response: Option<Vec<u8>>,
    response_type: Option<u64>,
    aggregated: Option<bool>,
    data: Option<Vec<HistoItem>>,
    time_to: Option<u64>,
    time_from: Option<u64>,
}

impl View for RespAccX {
    type V = RespAcc;

    closed spec fn view(&self) -> RespAcc {
        RespAcc {
            response: match self.response {
                Some(v) => Some(v@),
                None => None,
            },
            response_type: self.response_type,
            aggregated: self.aggregated,
            data: match self.data {
                Some(v) => Some(items_view(v@)),
                None => None,
            },
            time_to: self.time_to,
            time_from: self.time_from,
        }
    }
}

fn resp_member_value_x(s: &[u8], v: usize, lo: usize, hi: usize, acc: RespAccX, ks: &Keys) -> (r:
    Option<(RespAccX, usize)>)
    requires
        v <= s@.len(),
        lo <= hi <= s@.len(),
        keys_ok(ks),
    ensures
        ({
            let key = s@.subrange(lo as int, hi as int);
            match r {
                Some(p) => spec_resp_member_value(s@, v as int, key, acc@) == Some(
                    (p.0@, p.1 as int),
                ) && v < p.1 <= s@.len(),
                None => spec_resp_member_value(s@, v as int, key, acc@) is None,
            }
        }),
{
    let n = s.len();
    if range_eq(s, lo, hi, ks.response.as_slice()) {
        if acc.response.is_some() {
            return None;
        }
        if !(v < n && s[v] == 34) {
            return None;
        }
        match str_end_x(s, v + 1) {
            None => None,
            Some(e) => {
                let txt = slice_to_vec(slice_subrange(s, v + 1, e));
                Some((RespAccX { response: Some(txt), ..acc }, e + 1))
            },
        }
    } else if range_eq(s, lo, hi, ks.rtype.as_slice()) {
        if acc.response_type.is_some() {
            return None;
        }
        match parse_u64_x(s, v) {
            None => None,
            Some(p) => Some((RespAccX { response_type: Some(p.0), ..acc }, p.1)),
        }
    } else if range_eq(s, lo, hi, ks.aggregated.as_slice()) {
        if acc.aggregated.is_some() {
            return None;
        }
        if v < n && s[v] == 116 {
            if n - v >= 4 && s[v + 1] == 114 && s[v + 2] == 117 && s[v + 3] == 101 {
                Some((RespAccX { aggregated: Some(true), ..acc }, v + 4))
            } else {
                None
            }
        } else if v < n && s[v] == 102 {
            if n - v >= 5 && s[v + 1] == 97 && s[v + 2] == 108 && s[v + 3] == 115 && s[v + 4]
                == 101 {
                Some((RespAccX { aggregated: Some(false), ..acc }, v + 5))
            } else {
                None
            }
        } else {
            None
        }
    } else if range_eq(s, lo, hi, ks.data.as_slice()) {
        if acc.data.is_some() {
            return None;
        }
        if !(v < n && s[v] == 91) {
            return None;
        }
        let j = skip_ws_x(s, v + 1);
        proof {
            assert(next_at(s@, v as int, j as int) == j as int);
            assert(items_view(Seq::<HistoItem>::empty()) =~= Seq::<HistoItemV>::empty());
        }
        match parse_items_x(s, j, Vec::new(), ks) {
            None => None,
            Some(p) => Some((RespAccX { data: Some(p.0), ..acc }, p.1)),
        }
    } else if range_eq(s, lo, hi, ks.time_to.as_slice()) {
        if acc.time_to.is_some() {
            return None;
        }
        match parse_u64_x(s, v) {
            None => None,
            Some(p) => Some((RespAccX { time_to: Some(p.0), ..acc }, p.1)),
        }
    } else if range_eq(s, lo, hi, ks.time_from.as_slice()) {
        if acc.time_from.is_some() {
            return None;
        }
        match parse_u64_x(s, v) {
            None => None,
            Some(p) => Some((RespAccX { time_from: Some(p.0), ..acc }, p.1)),
        }
    } else {
        match skip_value_x(s, v) {
            None => None,
            Some(k) => Some((acc, k)),
        }
    }
}

fn parse_resp_members_x(s: &[u8], i: usize, acc: RespAccX, ks: &Keys) -> (r: Option<
    (RespAccX, usize)>)
    requires
        i <= s@.len(),
        keys_ok(ks),
    ensures
        match r {
            Some(p) => spec_parse_resp_members(s@, i as int, acc@) == Some((p.0@, p.1 as int))
                && i < p.1 <= s@.len(),
            None => spec_parse_resp_members(s@, i as int, acc@) is None,
        },
    decreases s@.len() - i,
{
    let n = s.len();
    if i >= n {
        return None;
    }
    if s[i] == 125 {
        return Some((acc, i + 1));
    }
    if s[i] != 34 {
        return None;
    }
    match str_end_x(s, i + 1) {
        None => None,
        Some(e) => {
            let c = skip_ws_x(s, e + 1);
            if !(c < n && s[c] == 58) {
                return None;
            }
            let v = skip_ws_x(s, c + 1);
            match resp_member_value_x(s, v, i + 1, e, acc, ks) {
                None => None,
                Some(p) => {
                    let (acc2, k) = p;
                    let m = skip_ws_x(s, k);
                    if m < n && s[m] == 44 {
                        let n2 = skip_ws_x(s, m + 1);
                        if n2 < n && s[n2] == 34 {
                            proof {
                                assert(next_at(s@, i as int, n2 as int) == n2 as int);
                            }
                            parse_resp_members_x(s, n2, acc2, ks)
                        } else {
                            None
                        }
                    } else if m < n && s[m] == 125 {
                        Some((acc2, m + 1))
                    } else {
                        None
                    }
                },
            }
        },
    }
}

fn complete_resp_x(acc: RespAccX) -> (r: Option<HistoResponse>)
    ensures
        match r {
            Some(resp) => complete_resp(acc@) == Some(resp@),
            None => complete_resp(acc@) is None,
        },
{
    match acc {
        RespAccX {
            response: Some(rs),
            response_type: Some(ty),
            aggregated: Some(ag),
            data: Some(d),
            time_to: Some(tt),
            time_from: Some(tf),
        } => {
            let resp = HistoResponse {
                response: rs,
                response_type: ty,
                aggregated: ag,
                data: d,
                time_to: tt,
                time_from: tf,
            };
            Some(resp)
        },
        _ => None,
    }
}

/// Decodes one JSON payload into the typed response model.  Returns exactly
/// the document the payload denotes under `spec_decode`; a payload that is
/// not one well-formed response document yields `DecodeError` and nothing
/// else.
pub fn decode_histo_response(body: &[u8]) -> (r: Result<HistoResponse, DecodeError>)
    ensures
        r matches Ok(resp) ==> spec_decode(body@) == Some(resp@),
        r is Err ==> spec_decode(body@) is None,
{
    let ks = make_keys();
    let n = body.len();
    let i = skip_ws_x(body, 0);
    if !(i < n && body[i] == 123) {
        return Err(DecodeError {});
    }
    let j = skip_ws_x(body, i + 1);
    proof {
        assert(next_at(body@, i as int, j as int) == j as int);
    }
    let acc0 = RespAccX {
        response: None,
        response_type: None,
        aggregated: None,
        data: None,
        time_to: None,
        time_from: None,
    };
    proof {
        assert(acc0@ == empty_resp_acc());
    }
    match parse_resp_members_x(body, j, acc0, &ks) {
        None => Err(DecodeError {}),
        Some(p) => {
            let (acc, end) = p;
            let e2 = skip_ws_x(body, end);
            if e2 != n {
                return Err(DecodeError {});
            }
            match complete_resp_x(acc) {
                None => Err(DecodeError {}),
                Some(resp) => Ok(resp),
            }
        },
    }
}


/// A well-formed retained number token: one complete JSON number and
/// nothing more.
pub open spec fn wf_num_text(t: Seq<u8>) -> bool {
    t.len() >= 1 && spec_num_end(t, 0) == Some(t.len() as int)
}

/// A well-formed retained string body: text bytes only, so it can stand
/// between quotes unescaped.
pub open spec fn wf_text(t: Seq<u8>) -> bool {
    forall|i: int| 0 <= i < t.len() ==> crate::scan::is_text_byte(#[trigger] t[i])
}

/// A sample whose retained tokens are well formed.
pub open spec fn wf_item(it: HistoItemV) -> bool {
    &&& wf_num_text(it.high)
    &&& wf_num_text(it.low)
    &&& wf_num_text(it.open)
    &&& wf_num_text(it.volumefrom)
    &&& wf_num_text(it.volumeto)
    &&& wf_num_text(it.close)
}

/// A response whose retained tokens are well formed.
pub open spec fn wf_response(r: HistoResponseV) -> bool {
    &&& wf_text(r.response)
    &&& forall|i: int| 0 <= i < r.data.len() ==> wf_item(#[trigger] r.data[i])
}

/// One rendered object member: quoted key, colon, value.
pub open spec fn spec_encode_member(key: Seq<u8>, val: Seq<u8>) -> Seq<u8> {
    seq![34u8] + key + seq![34u8, 58u8] + val
}

/// The rendering of a boolean.
pub open spec fn spec_encode_bool(b: bool) -> Seq<u8> {
    if b {
        seq![116u8, 114u8, 117u8, 101u8]
    } else {
        seq![102u8, 97u8, 108u8, 115u8, 101u8]
    }
}

/// The canonical rendering of one sample: its seven members in source
/// order, without insignificant whitespace.
pub open spec fn spec_encode_item(it: HistoItemV) -> Seq<u8> {
    seq![123u8] + spec_encode_member(key_time(), crate::scan::spec_digits_of(it.time as nat))
        + seq![44u8] + spec_encode_member(key_high(), it.high) + seq![44u8] + spec_encode_member(
        key_low(),
        it.low,
    ) + seq![44u8] + spec_encode_member(key_open_(), it.open) + seq![44u8] + spec_encode_member(
        key_volumefrom(),
        it.volumefrom,
    ) + seq![44u8] + spec_encode_member(key_volumeto(), it.volumeto) + seq![44u8]
        + spec_encode_member(key_close(), it.close) + seq![125u8]
}

/// The rendering of the sample array from its first item (or closing
/// bracket) on.
pub open spec fn spec_encode_items_body(items: Seq<HistoItemV>) -> Seq<u8>
    decreases items.len(),
{
    if items.len() == 0 {
        seq![93u8]
    } else {
        spec_encode_item(items[0]) + spec_encode_items_tail(items.drop_first())
    }
}

/// The rendering of the sample array after one item: a comma before each
/// further item, then the closing bracket.
pub open spec fn spec_encode_items_tail(items: Seq<HistoItemV>) -> Seq<u8>
    decreases items.len(),
{
    if items.len() == 0 {
        seq![93u8]
    } else {
        seq![44u8] + spec_encode_item(items[0]) + spec_encode_items_tail(items.drop_first())
    }
}

/// The canonical rendering of the sample array.
pub open spec fn spec_encode_items(items: Seq<HistoItemV>) -> Seq<u8> {
    seq![91u8] + spec_encode_items_body(items)
}

/// The canonical rendering of a response document: its six members in the
/// documented order, without insignificant whitespace.
pub open spec fn spec_encode_response(r: HistoResponseV) -> Seq<u8> {
    seq![123u8] + spec_encode_member(key_response(), seq![34u8] + r.response + seq![34u8])
        + seq![44u8] + spec_encode_member(
        key_rtype(),
        crate::scan::spec_digits_of(r.response_type as nat),
    ) + seq![44u8] + spec_encode_member(key_aggregated(), spec_encode_bool(r.aggregated))
        + seq![44u8] + spec_encode_member(key_data(), spec_encode_items(r.data)) + seq![44u8]
        + spec_encode_member(key_time_to(), crate::scan::spec_digits_of(r.time_to as nat))
        + seq![44u8] + spec_encode_member(key_time_from(), crate::scan::spec_digits_of(
        r.time_from as nat,
    )) + seq![125u8]
}


fn push_member_head(out: &mut Vec<u8>, key: &Vec<u8>)
    ensures
        final(out)@ == old(out)@ + seq![34u8] + key@ + seq![34u8, 58u8],
{
    out.push(34);
    let mut kc = slice_to_vec(key.as_slice());
    out.append(&mut kc);
    out.push(34);
    out.push(58);
    proof {
        assert(final(out)@ =~= old(out)@ + seq![34u8] + key@ + seq![34u8, 58u8]);
    }
}

#[verifier::rlimit(100)]
fn encode_item_into(out: &mut Vec<u8>, it: &HistoItem, ks: &Keys)
    requires
        keys_ok(ks),
    ensures
        final(out)@ == old(out)@ + spec_encode_item(it@),
{
    let ghost base = out@;
    out.push(123);
    push_member_head(out, &ks.time);
    let mut td = crate::scan::u64_to_digits(it.time);
    out.append(&mut td);
    out.push(44);
    push_member_head(out, &ks.high);
    let mut c_high = slice_to_vec(it.high.as_slice());
    out.append(&mut c_high);
    out.push(44);
    push_member_head(out, &ks.low);
    let mut c_low = slice_to_vec(it.low.as_slice());
    out.append(&mut c_low);
    out.push(44);
    push_member_head(out, &ks.open_);
    let mut c_open = slice_to_vec(it.open.as_slice());
    out.append(&mut c_open);
    out.push(44);
    push_member_head(out, &ks.volumefrom);
    let mut c_volumefrom = slice_to_vec(it.volumefrom.as_slice());
    out.append(&mut c_volumefrom);
    out.push(44);
    push_member_head(out, &ks.volumeto);
    let mut c_volumeto = slice_to_vec(it.volumeto.as_slice());
    out.append(&mut c_volumeto);
    out.push(44);
    push_member_head(out, &ks.close);
    let mut c_close = slice_to_vec(it.close.as_slice());
    out.append(&mut c_close);
    out.push(125);
    proof {
        assert(out@ =~= base + spec_encode_item(it@));
    }
}

fn encode_items_body_into(out: &mut Vec<u8>, items: &[HistoItem], ks: &Keys)
    requires
        keys_ok(ks),
    ensures
        final(out)@ == old(out)@ + spec_encode_items_body(items_view(items@)),
    decreases items@.len(),
{
    if items.len() == 0 {
        out.push(93);
        proof {
            assert(items_view(items@).len() == 0);
            assert(final(out)@ =~= old(out)@ + spec_encode_items_body(items_view(items@)));
        }
        return ;
    }
    let first = &items[0];
    encode_item_into(out, first, ks);
    let rest = slice_subrange(items, 1, items.len());
    encode_items_tail_into(out, rest, ks);
    proof {
        assert(items_view(rest@) =~= items_view(items@).drop_first());
        assert(first@ == items_view(items@)[0]);
        assert(out@ =~= old(out)@ + spec_encode_items_body(items_view(items@)));
    }
}

fn encode_items_tail_into(out: &mut Vec<u8>, items: &[HistoItem], ks: &Keys)
    requires
        keys_ok(ks),
    ensures
        final(out)@ == old(out)@ + spec_encode_items_tail(items_view(items@)),
    decreases items@.len(),
{
    if items.len() == 0 {
        out.push(93);
        proof {
            assert(items_view(items@).len() == 0);
            assert(final(out)@ =~= old(out)@ + spec_encode_items_tail(items_view(items@)));
        }
        return ;
    }
    out.push(44);
    let first = &items[0];
    encode_item_into(out, first, ks);
    let rest = slice_subrange(items, 1, items.len());
    encode_items_tail_into(out, rest, ks);
    proof {
        assert(items_view(rest@) =~= items_view(items@).drop_first());
        assert(first@ == items_view(items@)[0]);
        assert(out@ =~= old(out)@ + spec_encode_items_tail(items_view(items@)));
    }
}

/// Renders a response in the canonical form whose decoding the library
/// proves lossless: the six documented members in order, retained number
/// tokens and the status text verbatim, no insignificant whitespace.
#[verifier::rlimit(100)]
pub fn encode_histo_response(r: &HistoResponse) -> (out: Vec<u8>)
    ensures
        out@ == spec_encode_response(r@),
{
    let ks = make_keys();
    let mut out: Vec<u8> = Vec::new();
    out.push(123);
    push_member_head(&mut out, &ks.response);
    out.push(34);
    let mut rc = slice_to_vec(r.response.as_slice());
    out.append(&mut rc);
    out.push(34);
    let ghost g1 = out@;
    out.push(44);
    push_member_head(&mut out, &ks.rtype);
    let mut ty = crate::scan::u64_to_digits(r.response_type);
    out.append(&mut ty);
    out.push(44);
    push_member_head(&mut out, &ks.aggregated);
    if r.aggregated {
        out.push(116);
        out.push(114);
        out.push(117);
        out.push(101);
    } else {
        out.push(102);
        out.push(97);
        out.push(108);
        out.push(115);
        out.push(101);
    }
    proof {
        assert(out@.subrange(g1.len() as int, out@.len() as int) =~= seq![44u8]
            + spec_encode_member(key_rtype(), crate::scan::spec_digits_of(r.response_type as nat))
            + seq![44u8] + spec_encode_member(key_aggregated(), spec_encode_bool(r.aggregated)));
    }
    let ghost g2 = out@;
    out.push(44);
    push_member_head(&mut out, &ks.data);
    out.push(91);
    encode_items_body_into(&mut out, r.data.as_slice(), &ks);
    out.push(44);
    push_member_head(&mut out, &ks.time_to);
    let mut tt = crate::scan::u64_to_digits(r.time_to);
    out.append(&mut tt);
    out.push(44);
    push_member_head(&mut out, &ks.time_from);
    let mut tf = crate::scan::u64_to_digits(r.time_from);
    out.append(&mut tf);
    out.push(125);
    proof {
        assert(g1 =~= seq![123u8] + spec_encode_member(
            key_response(),
            seq![34u8] + r.response@ + seq![34u8],
        ));
        assert(out@ =~= spec_encode_response(r@));
    }
    out
}

} // verus!

//! Round-trip laws: a response document rendered canonically
//! (`spec_encode_response`) decodes back to exactly the value it was
//! rendered from.  Decoding itself is a function of the payload bytes alone
//! (`spec_decode`), so decoding is deterministic by construction; these
//! lemmas add that it is lossless on the retained fields.
use vstd::prelude::*;

use crate::codec::complete_item;
use crate::codec::empty_item_acc;
use crate::codec::key_aggregated;
use crate::codec::key_close;
use crate::codec::key_data;
use crate::codec::key_high;
use crate::codec::key_low;
use crate::codec::key_open_;
use crate::codec::key_response;
use crate::codec::key_rtype;
use crate::codec::key_time;
use crate::codec::key_time_from;
use crate::codec::key_time_to;
use crate::codec::key_volumefrom;
use crate::codec::key_volumeto;
use crate::codec::spec_encode_item;
use crate::codec::spec_encode_member;
use crate::codec::spec_item_member_value;
use crate::codec::spec_parse_item;
use crate::codec::spec_parse_item_members;
use crate::codec::wf_item;
use crate::codec::wf_num_text;
use crate::codec::ItemAcc;
use crate::json::next_at;
use crate::model::HistoItemV;
use crate::scan::lemma_digits_of_props;
use crate::scan::lemma_parse_u64_complete;
use crate::scan::spec_digits_of;
use crate::codec::complete_resp;
use crate::codec::empty_resp_acc;
use crate::codec::spec_decode;
use crate::codec::spec_encode_bool;
use crate::codec::spec_encode_items;
use crate::codec::spec_encode_items_body;
use crate::codec::spec_encode_items_tail;
use crate::codec::spec_encode_response;
use crate::codec::spec_parse_items;
use crate::codec::spec_parse_resp_members;
use crate::codec::spec_resp_member_value;
use crate::codec::wf_response;
use crate::codec::RespAcc;
use crate::model::HistoResponseV;
use crate::json::exp_end;
use crate::json::frac_end;
use crate::json::spec_num_end;
use crate::scan::digits_end;
use crate::scan::is_digit_byte;
use crate::scan::is_text_byte;
use crate::scan::is_ws_byte;
use crate::scan::lemma_digits_end_bounds;
use crate::scan::lemma_digits_end_from;
use crate::scan::lemma_skip_ws_noop;
use crate::scan::lemma_str_end_complete;
use crate::scan::skip_ws;
use crate::scan::str_end;

verus! {

/// A complete number token embedded in `s` and followed by a separator (or
/// the end of input) scans to exactly its own end.
pub proof fn lemma_num_complete(s: Seq<u8>, v: int, t: Seq<u8>)
    requires
        wf_num_text(t),
        0 <= v,
        v + t.len() <= s.len(),
        s.subrange(v, v + t.len()) =~= t,
        v + t.len() == s.len() || s[v + t.len()] == 44 || s[v + t.len()] == 125 || s[v + t.len()]
            == 93,
    ensures
        spec_num_end(s, v) == Some(v + t.len()),
{
    let len = t.len() as int;
    assert forall|d: int| 0 <= d < len implies s[v + d] == t[d] by {
        assert(s.subrange(v, v + len)[d] == s[v + d]);
    }
    let p = if t[0] == 45 {
        1int
    } else {
        0int
    };
    lemma_digits_end_bounds(t, p);
    let j = digits_end(t, p);
    assert(j != p);
    assert forall|d: int| v + p <= d < v + j implies is_digit_byte(s[d]) by {
        assert(s[d] == t[d - v]);
    }
    assert(v + j == s.len() || !is_digit_byte(s[v + j])) by {
        if j < len {
            assert(s[v + j] == t[j]);
        }
    }
    lemma_digits_end_from(s, v + p, v + j);
    assert(digits_end(s, v + p) == v + j);
    assert(s[v + p] == t[p]);
    let k = match frac_end(t, j) {
        Some(k) => k,
        None => j,
    };
    if j < len && t[j] == 46 {
        lemma_digits_end_bounds(t, j + 1);
        assert(k == digits_end(t, j + 1));
        assert(k != j + 1);
        assert forall|d: int| v + j + 1 <= d < v + k implies is_digit_byte(s[d]) by {
            assert(s[d] == t[d - v]);
        }
        assert(v + k == s.len() || !is_digit_byte(s[v + k])) by {
            if k < len {
                assert(s[v + k] == t[k]);
            }
        }
        lemma_digits_end_from(s, v + j + 1, v + k);
        assert(frac_end(s, v + j) == Some(v + k));
    } else {
        assert(frac_end(t, j) == Some(j));
        assert(k == j);
        assert(frac_end(s, v + j) == Some(v + j));
    }
    if k < len && (t[k] == 101 || t[k] == 69) {
        let p2 = if k + 1 < len && (t[k + 1] == 43 || t[k + 1] == 45) {
            k + 2
        } else {
            k + 1
        };
        lemma_digits_end_bounds(t, p2);
        assert(digits_end(t, p2) == len);
        assert(p2 < len);
        let sp2 = if v + k + 1 < s.len() && (s[v + k + 1] == 43 || s[v + k + 1] == 45) {
            v + k + 2
        } else {
            v + k + 1
        };
        if k + 1 < len {
            assert(s[v + k + 1] == t[k + 1]);
            assert(sp2 == v + p2);
        } else {
            assert(p2 == k + 1);
            assert(sp2 == v + p2);
        }
        assert forall|d: int| v + p2 <= d < v + len implies is_digit_byte(s[d]) by {
            assert(s[d] == t[d - v]);
        }
        assert(v + len == s.len() || !is_digit_byte(s[v + len]));
        lemma_digits_end_from(s, v + p2, v + len);
        assert(exp_end(s, v + k) == Some(v + len));
    } else {
        assert(exp_end(t, k) == Some(len));
        assert(k == len);
        assert(exp_end(s, v + k) == Some(v + k));
    }
    assert(spec_num_end(s, v) == Some(v + len));
}

/// A rendered member embedded in `s` presents its pieces where the member
/// scan looks for them: the quoted key, the colon, and the value bytes,
/// with no whitespace to skip.
pub proof fn lemma_member_at(s: Seq<u8>, q: int, key: Seq<u8>, val: Seq<u8>)
    requires
        0 <= q,
        q + key.len() + val.len() + 3 <= s.len(),
        s.subrange(q, q + key.len() + val.len() + 3) =~= spec_encode_member(key, val),
        key.len() >= 1,
        forall|i: int| 0 <= i < key.len() ==> is_text_byte(#[trigger] key[i]),
        val.len() >= 1,
        !is_ws_byte(val[0]),
    ensures
        s[q] == 34,
        str_end(s, q + 1) == Some(q + 1 + key.len()),
        s.subrange(q + 1, q + 1 + key.len()) =~= key,
        skip_ws(s, q + 2 + key.len()) == q + 2 + key.len(),
        s[q + 2 + key.len()] == 58,
        skip_ws(s, q + 3 + key.len()) == q + 3 + key.len(),
        s.subrange(q + 3 + key.len(), q + 3 + key.len() + val.len()) =~= val,
{
    let klen = key.len() as int;
    let vlen = val.len() as int;
    let mem = spec_encode_member(key, val);
    let mlen = klen + vlen + 3;
    let head = seq![34u8] + key + seq![34u8, 58u8];
    assert(head[1 + klen] == 34);
    assert(head[2 + klen] == 58);
    assert(mem[1 + klen] == 34);
    assert(mem[2 + klen] == 58);
    assert(mem[3 + klen] == val[0]);
    assert(s[q] == mem[0]) by {
        assert(s.subrange(q, q + mlen)[0] == s[q]);
    }
    assert(s[q] == 34);
    assert forall|d: int| q + 1 <= d < q + 1 + klen implies is_text_byte(s[d]) by {
        assert(s.subrange(q, q + mlen)[d - q] == s[d]);
        assert(mem[d - q] == key[d - q - 1]);
    }
    assert(s[q + 1 + klen] == mem[1 + klen]) by {
        assert(s.subrange(q, q + mlen)[1 + klen] == s[q + 1 + klen]);
    }
    lemma_str_end_complete(s, q + 1, q + 1 + klen);
    assert forall|e: int| 0 <= e < klen implies s.subrange(q + 1, q + 1 + klen)[e] == key[e] by {
        assert(s.subrange(q, q + mlen)[1 + e] == s[q + 1 + e]);
        assert(s.subrange(q + 1, q + 1 + klen)[e] == s[q + 1 + e]);
        assert(mem[1 + e] == key[e]);
    }
    assert(s.subrange(q + 1, q + 1 + klen) =~= key);
    assert(s[q + 2 + klen] == mem[2 + klen]) by {
        assert(s.subrange(q, q + mlen)[2 + klen] == s[q + 2 + klen]);
    }
    lemma_skip_ws_noop(s, q + 2 + klen);
    assert(s[q + 3 + klen] == mem[3 + klen]) by {
        assert(s.subrange(q, q + mlen)[3 + klen] == s[q + 3 + klen]);
    }
    lemma_skip_ws_noop(s, q + 3 + klen);
    assert forall|e: int| 0 <= e < vlen implies s.subrange(q + 3 + klen, q + 3 + klen + vlen)[e]
        == val[e] by {
        assert(s.subrange(q, q + mlen)[3 + klen + e] == s[q + 3 + klen + e]);
        assert(s.subrange(q + 3 + klen, q + 3 + klen + vlen)[e] == s[q + 3 + klen + e]);
        assert(mem[3 + klen + e] == val[e]);
    }
    assert(s.subrange(q + 3 + klen, q + 3 + klen + vlen) =~= val);
}


/// The head byte of a well-formed number token is a minus sign or a digit,
/// never whitespace.
pub proof fn lemma_wf_num_head(t: Seq<u8>)
    requires
        wf_num_text(t),
    ensures
        !is_ws_byte(t[0]),
{
    if t[0] != 45 {
        lemma_digits_end_bounds(t, 0);
        assert(is_digit_byte(t[0]));
    }
}

/// Every retained member key consists of text bytes.
pub proof fn lemma_keys_text()
    ensures
        forall|i: int| 0 <= i < key_time().len() ==> is_text_byte(#[trigger] key_time()[i]),
        forall|i: int| 0 <= i < key_high().len() ==> is_text_byte(#[trigger] key_high()[i]),
        forall|i: int| 0 <= i < key_low().len() ==> is_text_byte(#[trigger] key_low()[i]),
        forall|i: int| 0 <= i < key_open_().len() ==> is_text_byte(#[trigger] key_open_()[i]),
        forall|i: int| 0 <= i < key_volumefrom().len() ==> is_text_byte(
            #[trigger] key_volumefrom()[i],
        ),
        forall|i: int| 0 <= i < key_volumeto().len() ==> is_text_byte(
            #[trigger] key_volumeto()[i],
        ),
        forall|i: int| 0 <= i < key_close().len() ==> is_text_byte(#[trigger] key_close()[i]),
        forall|i: int| 0 <= i < key_response().len() ==> is_text_byte(#[trigger] key_response()[i]),
        forall|i: int| 0 <= i < key_rtype().len() ==> is_text_byte(#[trigger] key_rtype()[i]),
        forall|i: int| 0 <= i < key_aggregated().len() ==> is_text_byte(
            #[trigger] key_aggregated()[i],
        ),
        forall|i: int| 0 <= i < key_data().len() ==> is_text_byte(#[trigger] key_data()[i]),
        forall|i: int| 0 <= i < key_time_to().len() ==> is_text_byte(#[trigger] key_time_to()[i]),
        forall|i: int| 0 <= i < key_time_from().len() ==> is_text_byte(
            #[trigger] key_time_from()[i],
        ),
{
}


#[verifier::rlimit(100)]
proof fn lemma_item_slice_0(s: Seq<u8>, v: int, it: HistoItemV)
    requires
        0 <= v,
        v + spec_encode_item(it).len() <= s.len(),
        s.subrange(v, v + spec_encode_item(it).len()) =~= spec_encode_item(it),
    ensures
        ({
            let enc = spec_encode_item(it);
            let len = enc.len() as int;
            let t0 = spec_digits_of(it.time as nat);
            let m0 = spec_encode_member(key_time(), t0);
            let q0 = v + 1;
            &&& s.subrange(q0, q0 + m0.len()) =~= m0
            &&& s[q0 + m0.len()] == 44
        }),
{
    let enc = spec_encode_item(it);
    let len = enc.len() as int;
    let t0 = spec_digits_of(it.time as nat);
    let m0 = spec_encode_member(key_time(), t0);
    let q0 = v + 1;
    assert forall|e: int| 0 <= e < m0.len() implies s.subrange(q0, q0 + m0.len())[e]
        == m0[e] by {
        assert(s.subrange(v, v + len)[q0 - v + e] == s[q0 + e]);
        assert(s.subrange(q0, q0 + m0.len())[e] == s[q0 + e]);
        assert(enc[q0 - v + e] == m0[e]);
    }
    assert(s.subrange(q0, q0 + m0.len()) =~= m0);
    assert(s[q0 + m0.len()] == 44) by {
        assert(s.subrange(v, v + len)[q0 + m0.len() - v] == s[q0 + m0.len()]);
        assert(enc[q0 + m0.len() - v] == 44);
    }
}

#[verifier::rlimit(100)]
proof fn lemma_item_slice_1(s: Seq<u8>, v: int, it: HistoItemV)
    requires
        0 <= v,
        v + spec_encode_item(it).len() <= s.len(),
        s.subrange(v, v + spec_encode_item(it).len()) =~= spec_encode_item(it),
    ensures
        ({
            let enc = spec_encode_item(it);
            let len = enc.len() as int;
            let t0 = spec_digits_of(it.time as nat);
            let m0 = spec_encode_member(key_time(), t0);
            let m1 = spec_encode_member(key_high(), it.high);
            let q0 = v + 1;
            let q1 = q0 + m0.len() + 1;
            &&& s.subrange(q1, q1 + m1.len()) =~= m1
            &&& s[q1 + m1.len()] == 44
        }),
{
    let enc = spec_encode_item(it);
    let len = enc.len() as int;
    let t0 = spec_digits_of(it.time as nat);
    let m0 = spec_encode_member(key_time(), t0);
    let m1 = spec_encode_member(key_high(), it.high);
    let q0 = v + 1;
    let q1 = q0 + m0.len() + 1;
    assert forall|e: int| 0 <= e < m1.len() implies s.subrange(q1, q1 + m1.len())[e]
        == m1[e] by {
        assert(s.subrange(v, v + len)[q1 - v + e] == s[q1 + e]);
        assert(s.subrange(q1, q1 + m1.len())[e] == s[q1 + e]);
        assert(enc[q1 - v + e] == m1[e]);
    }
    assert(s.subrange(q1, q1 + m1.len()) =~= m1);
    assert(s[q1 + m1.len()] == 44) by {
        assert(s.subrange(v, v + len)[q1 + m1.len() - v] == s[q1 + m1.len()]);
        assert(enc[q1 + m1.len() - v] == 44);
    }
}

#[verifier::rlimit(100)]
proof fn lemma_item_slice_2(s: Seq<u8>, v: int, it: HistoItemV)
    requires
        0 <= v,
        v + spec_encode_item(it).len() <= s.len(),
        s.subrange(v, v + spec_encode_item(it).len()) =~= spec_encode_item(it),
    ensures
        ({
            let enc = spec_encode_item(it);
            let len = enc.len() as int;
            let t0 = spec_digits_of(it.time as nat);
            let m0 = spec_encode_member(key_time(), t0);
            let m1 = spec_encode_member(key_high(), it.high);
            let m2 = spec_encode_member(key_low(), it.low);
            let q0 = v + 1;
            let q1 = q0 + m0.len() + 1;
            let q2 = q1 + m1.len() + 1;
            &&& s.subrange(q2, q2 + m2.len()) =~= m2
            &&& s[q2 + m2.len()] == 44
        }),
{
    let enc = spec_encode_item(it);
    let len = enc.len() as int;
    let t0 = spec_digits_of(it.time as nat);
    let m0 = spec_encode_member(key_time(), t0);
    let m1 = spec_encode_member(key_high(), it.high);
    let m2 = spec_encode_member(key_low(), it.low);
    let q0 = v + 1;
    let q1 = q0 + m0.len() + 1;
    let q2 = q1 + m1.len() + 1;
    assert forall|e: int| 0 <= e < m2.len() implies s.subrange(q2, q2 + m2.len())[e]
        == m2[e] by {
        assert(s.subrange(v, v + len)[q2 - v + e] == s[q2 + e]);
        assert(s.subrange(q2, q2 + m2.len())[e] == s[q2 + e]);
        assert(enc[q2 - v + e] == m2[e]);
    }
    assert(s.subrange(q2, q2 + m2.len()) =~= m2);
    assert(s[q2 + m2.len()] == 44) by {
        assert(s.subrange(v, v + len)[q2 + m2.len() - v] == s[q2 + m2.len()]);
        assert(enc[q2 + m2.len() - v] == 44);
    }
}

#[verifier::rlimit(100)]
proof fn lemma_item_slice_3(s: Seq<u8>, v: int, it: HistoItemV)
    requires
        0 <= v,
        v + spec_encode_item(it).len() <= s.len(),
        s.subrange(v, v + spec_encode_item(it).len()) =~= spec_encode_item(it),
    ensures
        ({
            let enc = spec_encode_item(it);
            let len = enc.len() as int;
            let t0 = spec_digits_of(it.time as nat);
            let m0 = spec_encode_member(key_time(), t0);
            let m1 = spec_encode_member(key_high(), it.high);
            let m2 = spec_encode_member(key_low(), it.low);
            let m3 = spec_encode_member(key_open_(), it.open);
            let q0 = v + 1;
            let q1 = q0 + m0.len() + 1;
            let q2 = q1 + m1.len() + 1;
            let q3 = q2 + m2.len() + 1;
            &&& s.subrange(q3, q3 + m3.len()) =~= m3
            &&& s[q3 + m3.len()] == 44
        }),
{
    let enc = spec_encode_item(it);
    let len = enc.len() as int;
    let t0 = spec_digits_of(it.time as nat);
    let m0 = spec_encode_member(key_time(), t0);
    let m1 = spec_encode_member(key_high(), it.high);
    let m2 = spec_encode_member(key_low(), it.low);
    let m3 = spec_encode_member(key_open_(), it.open);
    let q0 = v + 1;
    let q1 = q0 + m0.len() + 1;
    let q2 = q1 + m1.len() + 1;
    let q3 = q2 + m2.len() + 1;
    assert forall|e: int| 0 <= e < m3.len() implies s.subrange(q3, q3 + m3.len())[e]
        == m3[e] by {
        assert(s.subrange(v, v + len)[q3 - v + e] == s[q3 + e]);
        assert(s.subrange(q3, q3 + m3.len())[e] == s[q3 + e]);
        assert(enc[q3 - v + e] == m3[e]);
    }
    assert(s.subrange(q3, q3 + m3.len()) =~= m3);
    assert(s[q3 + m3.len()] == 44) by {
        assert(s.subrange(v, v + len)[q3 + m3.len() - v] == s[q3 + m3.len()]);
        assert(enc[q3 + m3.len() - v] == 44);
    }
}

#[verifier::rlimit(100)]
proof fn lemma_item_slice_4(s: Seq<u8>, v: int, it: HistoItemV)
    requires
        0 <= v,
        v + spec_encode_item(it).len() <= s.len(),
        s.subrange(v, v + spec_encode_item(it).len()) =~= spec_encode_item(it),
    ensures
        ({
            let enc = spec_encode_item(it);
            let len = enc.len() as int;
            let t0 = spec_digits_of(it.time as nat);
            let m0 = spec_encode_member(key_time(), t0);
            let m1 = spec_encode_member(key_high(), it.high);
            let m2 = spec_encode_member(key_low(), it.low);
            let m3 = spec_encode_member(key_open_(), it.open);
            let m4 = spec_encode_member(key_volumefrom(), it.volumefrom);
            let q0 = v + 1;
            let q1 = q0 + m0.len() + 1;
            let q2 = q1 + m1.len() + 1;
            let q3 = q2 + m2.len() + 1;
            let q4 = q3 + m3.len() + 1;
            &&& s.subrange(q4, q4 + m4.len()) =~= m4
            &&& s[q4 + m4.len()] == 44
        }),
{
    let enc = spec_encode_item(it);
    let len = enc.len() as int;
    let t0 = spec_digits_of(it.time as nat);
    let m0 = spec_encode_member(key_time(), t0);
    let m1 = spec_encode_member(key_high(), it.high);
    let m2 = spec_encode_member(key_low(), it.low);
    let m3 = spec_encode_member(key_open_(), it.open);
    let m4 = spec_encode_member(key_volumefrom(), it.volumefrom);
    let q0 = v + 1;
    let q1 = q0 + m0.len() + 1;
    let q2 = q1 + m1.len() + 1;
    let q3 = q2 + m2.len() + 1;
    let q4 = q3 + m3.len() + 1;
    assert forall|e: int| 0 <= e < m4.len() implies s.subrange(q4, q4 + m4.len())[e]
        == m4[e] by {
        assert(s.subrange(v, v + len)[q4 - v + e] == s[q4 + e]);
        assert(s.subrange(q4, q4 + m4.len())[e] == s[q4 + e]);
        assert(enc[q4 - v + e] == m4[e]);
    }
    assert(s.subrange(q4, q4 + m4.len()) =~= m4);
    assert(s[q4 + m4.len()] == 44) by {
        assert(s.subrange(v, v + len)[q4 + m4.len() - v] == s[q4 + m4.len()]);
        assert(enc[q4 + m4.len() - v] == 44);
    }
}

#[verifier::rlimit(100)]
proof fn lemma_item_slice_5(s: Seq<u8>, v: int, it: HistoItemV)
    requires
        0 <= v,
        v + spec_encode_item(it).len() <= s.len(),
        s.subrange(v, v + spec_encode_item(it).len()) =~= spec_encode_item(it),
    ensures
        ({
            let enc = spec_encode_item(it);
            let len = enc.len() as int;
            let t0 = spec_digits_of(it.time as nat);
            let m0 = spec_encode_member(key_time(), t0);
            let m1 = spec_encode_member(key_high(), it.high);
            let m2 = spec_encode_member(key_low(), it.low);
            let m3 = spec_encode_member(key_open_(), it.open);
            let m4 = spec_encode_member(key_volumefrom(), it.volumefrom);
            let m5 = spec_encode_member(key_volumeto(), it.volumeto);
            let q0 = v + 1;
            let q1 = q0 + m0.len() + 1;
            let q2 = q1 + m1.len() + 1;
            let q3 = q2 + m2.len() + 1;
            let q4 = q3 + m3.len() + 1;
            let q5 = q4 + m4.len() + 1;
            &&& s.subrange(q5, q5 + m5.len()) =~= m5
            &&& s[q5 + m5.len()] == 44
        }),
{
    let enc = spec_encode_item(it);
    let len = enc.len() as int;
    let t0 = spec_digits_of(it.time as nat);
    let m0 = spec_encode_member(key_time(), t0);
    let m1 = spec_encode_member(key_high(), it.high);
    let m2 = spec_encode_member(key_low(), it.low);
    let m3 = spec_encode_member(key_open_(), it.open);
    let m4 = spec_encode_member(key_volumefrom(), it.volumefrom);
    let m5 = spec_encode_member(key_volumeto(), it.volumeto);
    let q0 = v + 1;
    let q1 = q0 + m0.len() + 1;
    let q2 = q1 + m1.len() + 1;
    let q3 = q2 + m2.len() + 1;
    let q4 = q3 + m3.len() + 1;
    let q5 = q4 + m4.len() + 1;
    assert forall|e: int| 0 <= e < m5.len() implies s.subrange(q5, q5 + m5.len())[e]
        == m5[e] by {
        assert(s.subrange(v, v + len)[q5 - v + e] == s[q5 + e]);
        assert(s.subrange(q5, q5 + m5.len())[e] == s[q5 + e]);
        assert(enc[q5 - v + e] == m5[e]);
    }
    assert(s.subrange(q5, q5 + m5.len()) =~= m5);
    assert(s[q5 + m5.len()] == 44) by {
        assert(s.subrange(v, v + len)[q5 + m5.len() - v] == s[q5 + m5.len()]);
        assert(enc[q5 + m5.len() - v] == 44);
    }
}

#[verifier::rlimit(100)]
proof fn lemma_item_slice_6(s: Seq<u8>, v: int, it: HistoItemV)
    requires
        0 <= v,
        v + spec_encode_item(it).len() <= s.len(),
        s.subrange(v, v + spec_encode_item(it).len()) =~= spec_encode_item(it),
    ensures
        ({
            let enc = spec_encode_item(it);
            let len = enc.len() as int;
            let t0 = spec_digits_of(it.time as nat);
            let m0 = spec_encode_member(key_time(), t0);
            let m1 = spec_encode_member(key_high(), it.high);
            let m2 = spec_encode_member(key_low(), it.low);
            let m3 = spec_encode_member(key_open_(), it.open);
            let m4 = spec_encode_member(key_volumefrom(), it.volumefrom);
            let m5 = spec_encode_member(key_volumeto(), it.volumeto);
            let m6 = spec_encode_member(key_close(), it.close);
            let q0 = v + 1;
            let q1 = q0 + m0.len() + 1;
            let q2 = q1 + m1.len() + 1;
            let q3 = q2 + m2.len() + 1;
            let q4 = q3 + m3.len() + 1;
            let q5 = q4 + m4.len() + 1;
            let q6 = q5 + m5.len() + 1;
            &&& s.subrange(q6, q6 + m6.len()) =~= m6
            &&& s[q6 + m6.len()] == 125
        }),
{
    let enc = spec_encode_item(it);
    let len = enc.len() as int;
    let t0 = spec_digits_of(it.time as nat);
    let m0 = spec_encode_member(key_time(), t0);
    let m1 = spec_encode_member(key_high(), it.high);
    let m2 = spec_encode_member(key_low(), it.low);
    let m3 = spec_encode_member(key_open_(), it.open);
    let m4 = spec_encode_member(key_volumefrom(), it.volumefrom);
    let m5 = spec_encode_member(key_volumeto(), it.volumeto);
    let m6 = spec_encode_member(key_close(), it.close);
    let q0 = v + 1;
    let q1 = q0 + m0.len() + 1;
    let q2 = q1 + m1.len() + 1;
    let q3 = q2 + m2.len() + 1;
    let q4 = q3 + m3.len() + 1;
    let q5 = q4 + m4.len() + 1;
    let q6 = q5 + m5.len() + 1;
    assert forall|e: int| 0 <= e < m6.len() implies s.subrange(q6, q6 + m6.len())[e]
        == m6[e] by {
        assert(s.subrange(v, v + len)[q6 - v + e] == s[q6 + e]);
        assert(s.subrange(q6, q6 + m6.len())[e] == s[q6 + e]);
        assert(enc[q6 - v + e] == m6[e]);
    }
    assert(s.subrange(q6, q6 + m6.len()) =~= m6);
    assert(s[q6 + m6.len()] == 125) by {
        assert(s.subrange(v, v + len)[q6 + m6.len() - v] == s[q6 + m6.len()]);
        assert(enc[q6 + m6.len() - v] == 125);
    }
}

#[verifier::rlimit(100)]
proof fn lemma_item_step_0(s: Seq<u8>, v: int, it: HistoItemV)
    requires
        wf_item(it),
        0 <= v,
        v + spec_encode_item(it).len() <= s.len(),
        s.subrange(v, v + spec_encode_item(it).len()) =~= spec_encode_item(it),
    ensures
        ({
        let enc = spec_encode_item(it);
        let len = enc.len() as int;
        let t0 = spec_digits_of(it.time as nat);
        let m0 = spec_encode_member(key_time(), t0);
        let m1 = spec_encode_member(key_high(), it.high);
        let q0 = v + 1;
        let q1 = q0 + m0.len() + 1;
        let a0 = empty_item_acc();
        let a1 = ItemAcc { time: Some(it.time), ..a0 };
            spec_parse_item_members(s, q0, a0) == spec_parse_item_members(s, q1, a1)
        }),
{
    lemma_keys_text();
    let enc = spec_encode_item(it);
    let len = enc.len() as int;
    let t0 = spec_digits_of(it.time as nat);
    let m0 = spec_encode_member(key_time(), t0);
    let m1 = spec_encode_member(key_high(), it.high);
    let q0 = v + 1;
    let q1 = q0 + m0.len() + 1;
    let a0 = empty_item_acc();
    let a1 = ItemAcc { time: Some(it.time), ..a0 };
    lemma_item_slice_0(s, v, it);
    lemma_item_slice_1(s, v, it);
    lemma_digits_of_props(it.time as nat);
    assert(!is_ws_byte(t0[0])) by {
        assert(is_digit_byte(t0[0]));
    }
    lemma_member_at(s, q0, key_time(), t0);
    let vp = q0 + key_time().len() + 3;
    let ve = vp + t0.len();
    lemma_parse_u64_complete(s, vp, ve, it.time);
    assert(spec_item_member_value(s, vp, key_time(), a0) == Some((a1, ve)));
    lemma_skip_ws_noop(s, ve);
    assert(s[q1] == 34) by {
        let sub = s.subrange(q1, q1 + m1.len());
        assert(sub[0] == s[q1]);
        assert(m1[0] == 34);
    }
    lemma_skip_ws_noop(s, q1);
    assert(next_at(s, q0, q1) == q1);
    assert(spec_parse_item_members(s, q0, a0) == spec_parse_item_members(s, q1, a1));
}

#[verifier::rlimit(100)]
proof fn lemma_item_step_1(s: Seq<u8>, v: int, it: HistoItemV)
    requires
        wf_item(it),
        0 <= v,
        v + spec_encode_item(it).len() <= s.len(),
        s.subrange(v, v + spec_encode_item(it).len()) =~= spec_encode_item(it),
    ensures
        ({
        let enc = spec_encode_item(it);
        let len = enc.len() as int;
        let t0 = spec_digits_of(it.time as nat);
        let m0 = spec_encode_member(key_time(), t0);
        let m1 = spec_encode_member(key_high(), it.high);
        let m2 = spec_encode_member(key_low(), it.low);
        let q0 = v + 1;
        let q1 = q0 + m0.len() + 1;
        let q2 = q1 + m1.len() + 1;
        let a0 = empty_item_acc();
        let a1 = ItemAcc { time: Some(it.time), ..a0 };
        let a2 = ItemAcc { high: Some(it.high), ..a1 };
            spec_parse_item_members(s, q1, a1) == spec_parse_item_members(s, q2, a2)
        }),
{
    lemma_keys_text();
    let enc = spec_encode_item(it);
    let len = enc.len() as int;
    let t0 = spec_digits_of(it.time as nat);
    let m0 = spec_encode_member(key_time(), t0);
    let m1 = spec_encode_member(key_high(), it.high);
    let m2 = spec_encode_member(key_low(), it.low);
    let q0 = v + 1;
    let q1 = q0 + m0.len() + 1;
    let q2 = q1 + m1.len() + 1;
    let a0 = empty_item_acc();
    let a1 = ItemAcc { time: Some(it.time), ..a0 };
    let a2 = ItemAcc { high: Some(it.high), ..a1 };
    lemma_item_slice_1(s, v, it);
    lemma_item_slice_2(s, v, it);
    lemma_wf_num_head(it.high);
    assert(key_high() != key_time()) by {
        assert(key_high()[0] == 104 && key_time()[0] == 116);
    }
    lemma_member_at(s, q1, key_high(), it.high);
    let vp = q1 + key_high().len() + 3;
    let ve = vp + it.high.len();
    lemma_num_complete(s, vp, it.high);
    assert(spec_item_member_value(s, vp, key_high(), a1) == Some((a2, ve)));
    lemma_skip_ws_noop(s, ve);
    assert(s[q2] == 34) by {
        let sub = s.subrange(q2, q2 + m2.len());
        assert(sub[0] == s[q2]);
        assert(m2[0] == 34);
    }
    lemma_skip_ws_noop(s, q2);
    assert(next_at(s, q1, q2) == q2);
    assert(spec_parse_item_members(s, q1, a1) == spec_parse_item_members(s, q2, a2));
}

#[verifier::rlimit(100)]
proof fn lemma_item_step_2(s: Seq<u8>, v: int, it: HistoItemV)
    requires
        wf_item(it),
        0 <= v,
        v + spec_encode_item(it).len() <= s.len(),
        s.subrange(v, v + spec_encode_item(it).len()) =~= spec_encode_item(it),
    ensures
        ({
        let enc = spec_encode_item(it);
        let len = enc.len() as int;
        let t0 = spec_digits_of(it.time as nat);
        let m0 = spec_encode_member(key_time(), t0);
        let m1 = spec_encode_member(key_high(), it.high);
        let m2 = spec_encode_member(key_low(), it.low);
        let m3 = spec_encode_member(key_open_(), it.open);
        let q0 = v + 1;
        let q1 = q0 + m0.len() + 1;
        let q2 = q1 + m1.len() + 1;
        let q3 = q2 + m2.len() + 1;
        let a0 = empty_item_acc();
        let a1 = ItemAcc { time: Some(it.time), ..a0 };
        let a2 = ItemAcc { high: Some(it.high), ..a1 };
        let a3 = ItemAcc { low: Some(it.low), ..a2 };
            spec_parse_item_members(s, q2, a2) == spec_parse_item_members(s, q3, a3)
        }),
{
    lemma_keys_text();
    let enc = spec_encode_item(it);
    let len = enc.len() as int;
    let t0 = spec_digits_of(it.time as nat);
    let m0 = spec_encode_member(key_time(), t0);
    let m1 = spec_encode_member(key_high(), it.high);
    let m2 = spec_encode_member(key_low(), it.low);
    let m3 = spec_encode_member(key_open_(), it.open);
    let q0 = v + 1;
    let q1 = q0 + m0.len() + 1;
    let q2 = q1 + m1.len() + 1;
    let q3 = q2 + m2.len() + 1;
    let a0 = empty_item_acc();
    let a1 = ItemAcc { time: Some(it.time), ..a0 };
    let a2 = ItemAcc { high: Some(it.high), ..a1 };
    let a3 = ItemAcc { low: Some(it.low), ..a2 };
    lemma_item_slice_2(s, v, it);
    lemma_item_slice_3(s, v, it);
    lemma_wf_num_head(it.low);
    lemma_member_at(s, q2, key_low(), it.low);
    let vp = q2 + key_low().len() + 3;
    let ve = vp + it.low.len();
    lemma_num_complete(s, vp, it.low);
    assert(spec_item_member_value(s, vp, key_low(), a2) == Some((a3, ve)));
    lemma_skip_ws_noop(s, ve);
    assert(s[q3] == 34) by {
        let sub = s.subrange(q3, q3 + m3.len());
        assert(sub[0] == s[q3]);
        assert(m3[0] == 34);
    }
    lemma_skip_ws_noop(s, q3);
    assert(next_at(s, q2, q3) == q3);
    assert(spec_parse_item_members(s, q2, a2) == spec_parse_item_members(s, q3, a3));
}

#[verifier::rlimit(100)]
proof fn lemma_item_step_3(s: Seq<u8>, v: int, it: HistoItemV)
    requires
        wf_item(it),
        0 <= v,
        v + spec_encode_item(it).len() <= s.len(),
        s.subrange(v, v + spec_encode_item(it).len()) =~= spec_encode_item(it),
    ensures
        ({
        let enc = spec_encode_item(it);
        let len = enc.len() as int;
        let t0 = spec_digits_of(it.time as nat);
        let m0 = spec_encode_member(key_time(), t0);
        let m1 = spec_encode_member(key_high(), it.high);
        let m2 = spec_encode_member(key_low(), it.low);
        let m3 = spec_encode_member(key_open_(), it.open);
        let m4 = spec_encode_member(key_volumefrom(), it.volumefrom);
        let q0 = v + 1;
        let q1 = q0 + m0.len() + 1;
        let q2 = q1 + m1.len() + 1;
        let q3 = q2 + m2.len() + 1;
        let q4 = q3 + m3.len() + 1;
        let a0 = empty_item_acc();
        let a1 = ItemAcc { time: Some(it.time), ..a0 };
        let a2 = ItemAcc { high: Some(it.high), ..a1 };
        let a3 = ItemAcc { low: Some(it.low), ..a2 };
        let a4 = ItemAcc { open: Some(it.open), ..a3 };
            spec_parse_item_members(s, q3, a3) == spec_parse_item_members(s, q4, a4)
        }),
{
    lemma_keys_text();
    let enc = spec_encode_item(it);
    let len = enc.len() as int;
    let t0 = spec_digits_of(it.time as nat);
    let m0 = spec_encode_member(key_time(), t0);
    let m1 = spec_encode_member(key_high(), it.high);
    let m2 = spec_encode_member(key_low(), it.low);
    let m3 = spec_encode_member(key_open_(), it.open);
    let m4 = spec_encode_member(key_volumefrom(), it.volumefrom);
    let q0 = v + 1;
    let q1 = q0 + m0.len() + 1;
    let q2 = q1 + m1.len() + 1;
    let q3 = q2 + m2.len() + 1;
    let q4 = q3 + m3.len() + 1;
    let a0 = empty_item_acc();
    let a1 = ItemAcc { time: Some(it.time), ..a0 };
    let a2 = ItemAcc { high: Some(it.high), ..a1 };
    let a3 = ItemAcc { low: Some(it.low), ..a2 };
    let a4 = ItemAcc { open: Some(it.open), ..a3 };
    lemma_item_slice_3(s, v, it);
    lemma_item_slice_4(s, v, it);
    lemma_wf_num_head(it.open);
    assert(key_open_() != key_time()) by {
        assert(key_open_()[0] == 111 && key_time()[0] == 116);
    }
    assert(key_open_() != key_high()) by {
        assert(key_open_()[0] == 111 && key_high()[0] == 104);
    }
    lemma_member_at(s, q3, key_open_(), it.open);
    let vp = q3 + key_open_().len() + 3;
    let ve = vp + it.open.len();
    lemma_num_complete(s, vp, it.open);
    assert(spec_item_member_value(s, vp, key_open_(), a3) == Some((a4, ve)));
    lemma_skip_ws_noop(s, ve);
    assert(s[q4] == 34) by {
        let sub = s.subrange(q4, q4 + m4.len());
        assert(sub[0] == s[q4]);
        assert(m4[0] == 34);
    }
    lemma_skip_ws_noop(s, q4);
    assert(next_at(s, q3, q4) == q4);
    assert(spec_parse_item_members(s, q3, a3) == spec_parse_item_members(s, q4, a4));
}

#[verifier::rlimit(100)]
proof fn lemma_item_step_4(s: Seq<u8>, v: int, it: HistoItemV)
    requires
        wf_item(it),
        0 <= v,
        v + spec_encode_item(it).len() <= s.len(),
        s.subrange(v, v + spec_encode_item(it).len()) =~= spec_encode_item(it),
    ensures
        ({
        let enc = spec_encode_item(it);
        let len = enc.len() as int;
        let t0 = spec_digits_of(it.time as nat);
        let m0 = spec_encode_member(key_time(), t0);
        let m1 = spec_encode_member(key_high(), it.high);
        let m2 = spec_encode_member(key_low(), it.low);
        let m3 = spec_encode_member(key_open_(), it.open);
        let m4 = spec_encode_member(key_volumefrom(), it.volumefrom);
        let m5 = spec_encode_member(key_volumeto(), it.volumeto);
        let q0 = v + 1;
        let q1 = q0 + m0.len() + 1;
        let q2 = q1 + m1.len() + 1;
        let q3 = q2 + m2.len() + 1;
        let q4 = q3 + m3.len() + 1;
        let q5 = q4 + m4.len() + 1;
        let a0 = empty_item_acc();
        let a1 = ItemAcc { time: Some(it.time), ..a0 };
        let a2 = ItemAcc { high: Some(it.high), ..a1 };
        let a3 = ItemAcc { low: Some(it.low), ..a2 };
        let a4 = ItemAcc { open: Some(it.open), ..a3 };
        let a5 = ItemAcc { volumefrom: Some(it.volumefrom), ..a4 };
            spec_parse_item_members(s, q4, a4) == spec_parse_item_members(s, q5, a5)
        }),
{
    lemma_keys_text();
    let enc = spec_encode_item(it);
    let len = enc.len() as int;
    let t0 = spec_digits_of(it.time as nat);
    let m0 = spec_encode_member(key_time(), t0);
    let m1 = spec_encode_member(key_high(), it.high);
    let m2 = spec_encode_member(key_low(), it.low);
    let m3 = spec_encode_member(key_open_(), it.open);
    let m4 = spec_encode_member(key_volumefrom(), it.volumefrom);
    let m5 = spec_encode_member(key_volumeto(), it.volumeto);
    let q0 = v + 1;
    let q1 = q0 + m0.len() + 1;
    let q2 = q1 + m1.len() + 1;
    let q3 = q2 + m2.len() + 1;
    let q4 = q3 + m3.len() + 1;
    let q5 = q4 + m4.len() + 1;
    let a0 = empty_item_acc();
    let a1 = ItemAcc { time: Some(it.time), ..a0 };
    let a2 = ItemAcc { high: Some(it.high), ..a1 };
    let a3 = ItemAcc { low: Some(it.low), ..a2 };
    let a4 = ItemAcc { open: Some(it.open), ..a3 };
    let a5 = ItemAcc { volumefrom: Some(it.volumefrom), ..a4 };
    lemma_item_slice_4(s, v, it);
    lemma_item_slice_5(s, v, it);
    lemma_wf_num_head(it.volumefrom);
    lemma_member_at(s, q4, key_volumefrom(), it.volumefrom);
    let vp = q4 + key_volumefrom().len() + 3;
    let ve = vp + it.volumefrom.len();
    lemma_num_complete(s, vp, it.volumefrom);
    assert(spec_item_member_value(s, vp, key_volumefrom(), a4) == Some((a5, ve)));
    lemma_skip_ws_noop(s, ve);
    assert(s[q5] == 34) by {
        let sub = s.subrange(q5, q5 + m5.len());
        assert(sub[0] == s[q5]);
        assert(m5[0] == 34);
    }
    lemma_skip_ws_noop(s, q5);
    assert(next_at(s, q4, q5) == q5);
    assert(spec_parse_item_members(s, q4, a4) == spec_parse_item_members(s, q5, a5));
}

#[verifier::rlimit(100)]
proof fn lemma_item_step_5(s: Seq<u8>, v: int, it: HistoItemV)
    requires
        wf_item(it),
        0 <= v,
        v + spec_encode_item(it).len() <= s.len(),
        s.subrange(v, v + spec_encode_item(it).len()) =~= spec_encode_item(it),
    ensures
        ({
        let enc = spec_encode_item(it);
        let len = enc.len() as int;
        let t0 = spec_digits_of(it.time as nat);
        let m0 = spec_encode_member(key_time(), t0);
        let m1 = spec_encode_member(key_high(), it.high);
        let m2 = spec_encode_member(key_low(), it.low);
        let m3 = spec_encode_member(key_open_(), it.open);
        let m4 = spec_encode_member(key_volumefrom(), it.volumefrom);
        let m5 = spec_encode_member(key_volumeto(), it.volumeto);
        let m6 = spec_encode_member(key_close(), it.close);
        let q0 = v + 1;
        let q1 = q0 + m0.len() + 1;
        let q2 = q1 + m1.len() + 1;
        let q3 = q2 + m2.len() + 1;
        let q4 = q3 + m3.len() + 1;
        let q5 = q4 + m4.len() + 1;
        let q6 = q5 + m5.len() + 1;
        let a0 = empty_item_acc();
        let a1 = ItemAcc { time: Some(it.time), ..a0 };
        let a2 = ItemAcc { high: Some(it.high), ..a1 };
        let a3 = ItemAcc { low: Some(it.low), ..a2 };
        let a4 = ItemAcc { open: Some(it.open), ..a3 };
        let a5 = ItemAcc { volumefrom: Some(it.volumefrom), ..a4 };
        let a6 = ItemAcc { volumeto: Some(it.volumeto), ..a5 };
            spec_parse_item_members(s, q5, a5) == spec_parse_item_members(s, q6, a6)
        }),
{
    lemma_keys_text();
    let enc = spec_encode_item(it);
    let len = enc.len() as int;
    let t0 = spec_digits_of(it.time as nat);
    let m0 = spec_encode_member(key_time(), t0);
    let m1 = spec_encode_member(key_high(), it.high);
    let m2 = spec_encode_member(key_low(), it.low);
    let m3 = spec_encode_member(key_open_(), it.open);
    let m4 = spec_encode_member(key_volumefrom(), it.volumefrom);
    let m5 = spec_encode_member(key_volumeto(), it.volumeto);
    let m6 = spec_encode_member(key_close(), it.close);
    let q0 = v + 1;
    let q1 = q0 + m0.len() + 1;
    let q2 = q1 + m1.len() + 1;
    let q3 = q2 + m2.len() + 1;
    let q4 = q3 + m3.len() + 1;
    let q5 = q4 + m4.len() + 1;
    let q6 = q5 + m5.len() + 1;
    let a0 = empty_item_acc();
    let a1 = ItemAcc { time: Some(it.time), ..a0 };
    let a2 = ItemAcc { high: Some(it.high), ..a1 };
    let a3 = ItemAcc { low: Some(it.low), ..a2 };
    let a4 = ItemAcc { open: Some(it.open), ..a3 };
    let a5 = ItemAcc { volumefrom: Some(it.volumefrom), ..a4 };
    let a6 = ItemAcc { volumeto: Some(it.volumeto), ..a5 };
    lemma_item_slice_5(s, v, it);
    lemma_item_slice_6(s, v, it);
    lemma_wf_num_head(it.volumeto);
    lemma_member_at(s, q5, key_volumeto(), it.volumeto);
    let vp = q5 + key_volumeto().len() + 3;
    let ve = vp + it.volumeto.len();
    lemma_num_complete(s, vp, it.volumeto);
    assert(spec_item_member_value(s, vp, key_volumeto(), a5) == Some((a6, ve)));
    lemma_skip_ws_noop(s, ve);
    assert(s[q6] == 34) by {
        let sub = s.subrange(q6, q6 + m6.len());
        assert(sub[0] == s[q6]);
        assert(m6[0] == 34);
    }
    lemma_skip_ws_noop(s, q6);
    assert(next_at(s, q5, q6) == q6);
    assert(spec_parse_item_members(s, q5, a5) == spec_parse_item_members(s, q6, a6));
}

#[verifier::rlimit(100)]
proof fn lemma_item_step_6(s: Seq<u8>, v: int, it: HistoItemV)
    requires
        wf_item(it),
        0 <= v,
        v + spec_encode_item(it).len() <= s.len(),
        s.subrange(v, v + spec_encode_item(it).len()) =~= spec_encode_item(it),
    ensures
        ({
        let enc = spec_encode_item(it);
        let len = enc.len() as int;
        let t0 = spec_digits_of(it.time as nat);
        let m0 = spec_encode_member(key_time(), t0);
        let m1 = spec_encode_member(key_high(), it.high);
        let m2 = spec_encode_member(key_low(), it.low);
        let m3 = spec_encode_member(key_open_(), it.open);
        let m4 = spec_encode_member(key_volumefrom(), it.volumefrom);
        let m5 = spec_encode_member(key_volumeto(), it.volumeto);
        let m6 = spec_encode_member(key_close(), it.close);
        let q0 = v + 1;
        let q1 = q0 + m0.len() + 1;
        let q2 = q1 + m1.len() + 1;
        let q3 = q2 + m2.len() + 1;
        let q4 = q3 + m3.len() + 1;
        let q5 = q4 + m4.len() + 1;
        let q6 = q5 + m5.len() + 1;
        let a0 = empty_item_acc();
        let a1 = ItemAcc { time: Some(it.time), ..a0 };
        let a2 = ItemAcc { high: Some(it.high), ..a1 };
        let a3 = ItemAcc { low: Some(it.low), ..a2 };
        let a4 = ItemAcc { open: Some(it.open), ..a3 };
        let a5 = ItemAcc { volumefrom: Some(it.volumefrom), ..a4 };
        let a6 = ItemAcc { volumeto: Some(it.volumeto), ..a5 };
        let a7 = ItemAcc { close: Some(it.close), ..a6 };
            spec_parse_item_members(s, q6, a6) == Some((a7, v + len))
        }),
{
    lemma_keys_text();
    let enc = spec_encode_item(it);
    let len = enc.len() as int;
    let t0 = spec_digits_of(it.time as nat);
    let m0 = spec_encode_member(key_time(), t0);
    let m1 = spec_encode_member(key_high(), it.high);
    let m2 = spec_encode_member(key_low(), it.low);
    let m3 = spec_encode_member(key_open_(), it.open);
    let m4 = spec_encode_member(key_volumefrom(), it.volumefrom);
    let m5 = spec_encode_member(key_volumeto(), it.volumeto);
    let m6 = spec_encode_member(key_close(), it.close);
    let q0 = v + 1;
    let q1 = q0 + m0.len() + 1;
    let q2 = q1 + m1.len() + 1;
    let q3 = q2 + m2.len() + 1;
    let q4 = q3 + m3.len() + 1;
    let q5 = q4 + m4.len() + 1;
    let q6 = q5 + m5.len() + 1;
    let a0 = empty_item_acc();
    let a1 = ItemAcc { time: Some(it.time), ..a0 };
    let a2 = ItemAcc { high: Some(it.high), ..a1 };
    let a3 = ItemAcc { low: Some(it.low), ..a2 };
    let a4 = ItemAcc { open: Some(it.open), ..a3 };
    let a5 = ItemAcc { volumefrom: Some(it.volumefrom), ..a4 };
    let a6 = ItemAcc { volumeto: Some(it.volumeto), ..a5 };
    let a7 = ItemAcc { close: Some(it.close), ..a6 };
    lemma_item_slice_6(s, v, it);
    lemma_wf_num_head(it.close);
    lemma_member_at(s, q6, key_close(), it.close);
    let vp = q6 + key_close().len() + 3;
    let ve = vp + it.close.len();
    lemma_num_complete(s, vp, it.close);
    assert(spec_item_member_value(s, vp, key_close(), a6) == Some((a7, ve)));
    lemma_skip_ws_noop(s, ve);
    assert(spec_parse_item_members(s, q6, a6) == Some((a7, v + len)));
}

/// A canonically rendered sample embedded in `s` parses back to exactly the
/// sample it was rendered from.
pub proof fn lemma_item_roundtrip(s: Seq<u8>, v: int, it: HistoItemV)
    requires
        wf_item(it),
        0 <= v,
        v + spec_encode_item(it).len() <= s.len(),
        s.subrange(v, v + spec_encode_item(it).len()) =~= spec_encode_item(it),
    ensures
        spec_parse_item(s, v) == Some((it, v + spec_encode_item(it).len())),
{
    let enc = spec_encode_item(it);
    let len = enc.len() as int;
    let t0 = spec_digits_of(it.time as nat);
    let m0 = spec_encode_member(key_time(), t0);
    let m1 = spec_encode_member(key_high(), it.high);
    let m2 = spec_encode_member(key_low(), it.low);
    let m3 = spec_encode_member(key_open_(), it.open);
    let m4 = spec_encode_member(key_volumefrom(), it.volumefrom);
    let m5 = spec_encode_member(key_volumeto(), it.volumeto);
    let m6 = spec_encode_member(key_close(), it.close);
    let q0 = v + 1;
    let q1 = q0 + m0.len() + 1;
    let q2 = q1 + m1.len() + 1;
    let q3 = q2 + m2.len() + 1;
    let q4 = q3 + m3.len() + 1;
    let q5 = q4 + m4.len() + 1;
    let q6 = q5 + m5.len() + 1;
    let a0 = empty_item_acc();
    let a1 = ItemAcc { time: Some(it.time), ..a0 };
    let a2 = ItemAcc { high: Some(it.high), ..a1 };
    let a3 = ItemAcc { low: Some(it.low), ..a2 };
    let a4 = ItemAcc { open: Some(it.open), ..a3 };
    let a5 = ItemAcc { volumefrom: Some(it.volumefrom), ..a4 };
    let a6 = ItemAcc { volumeto: Some(it.volumeto), ..a5 };
    let a7 = ItemAcc { close: Some(it.close), ..a6 };
    lemma_item_step_0(s, v, it);
    lemma_item_step_1(s, v, it);
    lemma_item_step_2(s, v, it);
    lemma_item_step_3(s, v, it);
    lemma_item_step_4(s, v, it);
    lemma_item_step_5(s, v, it);
    lemma_item_step_6(s, v, it);
    assert(spec_parse_item_members(s, q0, a0) == Some((a7, v + len)));
    assert(complete_item(a7) == Some(it));
    assert(s[v] == 123) by {
        assert(s.subrange(v, v + len)[0] == s[v]);
        assert(enc[0] == 123);
    }
    assert(s[v + 1] == 34) by {
        lemma_item_slice_0(s, v, it);
        let sub = s.subrange(q0, q0 + m0.len());
        assert(sub[0] == s[q0]);
        assert(m0[0] == 34);
    }
    lemma_skip_ws_noop(s, v + 1);
    assert(next_at(s, v, v + 1) == v + 1);
    assert(spec_parse_item(s, v) == Some((it, v + len)));
}


/// The canonically rendered sample array, read from its first item on,
/// parses back to exactly the samples it was rendered from, appended to
/// whatever was gathered before.
#[verifier::rlimit(100)]
proof fn lemma_items_body(s: Seq<u8>, pos: int, items: Seq<HistoItemV>, acc: Seq<HistoItemV>)
    requires
        forall|i: int| 0 <= i < items.len() ==> wf_item(#[trigger] items[i]),
        0 <= pos,
        pos + spec_encode_items_body(items).len() <= s.len(),
        s.subrange(pos, pos + spec_encode_items_body(items).len()) =~= spec_encode_items_body(
            items,
        ),
    ensures
        spec_parse_items(s, pos, acc) == Some((acc + items, pos + spec_encode_items_body(
            items,
        ).len())),
    decreases items.len(),
{
    let body = spec_encode_items_body(items);
    let blen = body.len() as int;
    if items.len() == 0 {
        assert(s[pos] == 93) by {
            assert(s.subrange(pos, pos + blen)[0] == s[pos]);
        }
        assert(acc + items =~= acc);
        assert(spec_parse_items(s, pos, acc) == Some((acc, pos + 1)));
    } else {
        let it = items[0];
        let rest = items.drop_first();
        let enc0 = spec_encode_item(it);
        let e0len = enc0.len() as int;
        let tail = spec_encode_items_tail(rest);
        assert(body =~= enc0 + tail);
        assert forall|e: int| 0 <= e < e0len implies s.subrange(pos, pos + e0len)[e] == enc0[e] by {
            assert(s.subrange(pos, pos + blen)[e] == s[pos + e]);
            assert(s.subrange(pos, pos + e0len)[e] == s[pos + e]);
            assert(body[e] == enc0[e]);
        }
        assert(s.subrange(pos, pos + e0len) =~= enc0);
        lemma_item_roundtrip(s, pos, it);
        let e0 = pos + e0len;
        if rest.len() == 0 {
            assert(tail =~= seq![93u8]);
            assert(s[e0] == 93) by {
                assert(s.subrange(pos, pos + blen)[e0len] == s[e0]);
                assert(body[e0len] == 93);
            }
            lemma_skip_ws_noop(s, e0);
            assert(acc + items =~= acc.push(it));
            assert(spec_parse_items(s, pos, acc) == Some((acc.push(it), e0 + 1)));
        } else {
            assert(tail =~= seq![44u8] + spec_encode_items_body(rest));
            let rbody = spec_encode_items_body(rest);
            assert(s[e0] == 44) by {
                assert(s.subrange(pos, pos + blen)[e0len] == s[e0]);
                assert(body[e0len] == 44);
            }
            lemma_skip_ws_noop(s, e0);
            assert forall|e: int| 0 <= e < rbody.len() implies s.subrange(
                e0 + 1,
                e0 + 1 + rbody.len(),
            )[e] == rbody[e] by {
                assert(s.subrange(pos, pos + blen)[e0len + 1 + e] == s[e0 + 1 + e]);
                assert(s.subrange(e0 + 1, e0 + 1 + rbody.len())[e] == s[e0 + 1 + e]);
                assert(body[e0len + 1 + e] == rbody[e]);
            }
            assert(s.subrange(e0 + 1, e0 + 1 + rbody.len()) =~= rbody);
            assert(s[e0 + 1] == 123) by {
                assert(s.subrange(e0 + 1, e0 + 1 + rbody.len())[0] == s[e0 + 1]);
                assert(spec_encode_item(rest[0])[0] == 123);
                assert(rbody[0] == 123);
            }
            lemma_skip_ws_noop(s, e0 + 1);
            assert forall|i: int| 0 <= i < rest.len() implies wf_item(#[trigger] rest[i]) by {
                assert(rest[i] == items[i + 1]);
            }
            lemma_items_body(s, e0 + 1, rest, acc.push(it));
            assert(acc.push(it) + rest =~= acc + items);
            assert(next_at(s, pos, e0 + 1) == e0 + 1);
            assert(spec_parse_items(s, pos, acc) == Some((acc + items, pos + blen)));
        }
    }
}

#[verifier::rlimit(100)]
proof fn lemma_resp_slice_0(s: Seq<u8>, v: int, r: HistoResponseV)
    requires
        0 <= v,
        v + spec_encode_response(r).len() <= s.len(),
        s.subrange(v, v + spec_encode_response(r).len()) =~= spec_encode_response(r),
    ensures
        ({
        let enc = spec_encode_response(r);
        let len = enc.len() as int;
        let v0 = seq![34u8] + r.response + seq![34u8];
        let m0 = spec_encode_member(key_response(), v0);
        let q0 = v + 1;
            &&& s.subrange(q0, q0 + m0.len()) =~= m0
            &&& s[q0 + m0.len()] == 44
        }),
{
    let enc = spec_encode_response(r);
    let len = enc.len() as int;
    let v0 = seq![34u8] + r.response + seq![34u8];
    let m0 = spec_encode_member(key_response(), v0);
    let q0 = v + 1;
    assert forall|e: int| 0 <= e < m0.len() implies s.subrange(q0, q0 + m0.len())[e]
        == m0[e] by {
        assert(s.subrange(v, v + len)[q0 - v + e] == s[q0 + e]);
        assert(s.subrange(q0, q0 + m0.len())[e] == s[q0 + e]);
        assert(enc[q0 - v + e] == m0[e]);
    }
    assert(s.subrange(q0, q0 + m0.len()) =~= m0);
    assert(s[q0 + m0.len()] == 44) by {
        assert(s.subrange(v, v + len)[q0 + m0.len() - v] == s[q0 + m0.len()]);
        assert(enc[q0 + m0.len() - v] == 44);
    }
}

#[verifier::rlimit(100)]
proof fn lemma_resp_slice_1(s: Seq<u8>, v: int, r: HistoResponseV)
    requires
        0 <= v,
        v + spec_encode_response(r).len() <= s.len(),
        s.subrange(v, v + spec_encode_response(r).len()) =~= spec_encode_response(r),
    ensures
        ({
        let enc = spec_encode_response(r);
        let len = enc.len() as int;
        let v0 = seq![34u8] + r.response + seq![34u8];
        let m0 = spec_encode_member(key_response(), v0);
        let v1 = spec_digits_of(r.response_type as nat);
        let m1 = spec_encode_member(key_rtype(), v1);
        let q0 = v + 1;
        let q1 = q0 + m0.len() + 1;
            &&& s.subrange(q1, q1 + m1.len()) =~= m1
            &&& s[q1 + m1.len()] == 44
        }),
{
    let enc = spec_encode_response(r);
    let len = enc.len() as int;
    let v0 = seq![34u8] + r.response + seq![34u8];
    let m0 = spec_encode_member(key_response(), v0);
    let v1 = spec_digits_of(r.response_type as nat);
    let m1 = spec_encode_member(key_rtype(), v1);
    let q0 = v + 1;
    let q1 = q0 + m0.len() + 1;
    assert forall|e: int| 0 <= e < m1.len() implies s.subrange(q1, q1 + m1.len())[e]
        == m1[e] by {
        assert(s.subrange(v, v + len)[q1 - v + e] == s[q1 + e]);
        assert(s.subrange(q1, q1 + m1.len())[e] == s[q1 + e]);
        assert(enc[q1 - v + e] == m1[e]);
    }
    assert(s.subrange(q1, q1 + m1.len()) =~= m1);
    assert(s[q1 + m1.len()] == 44) by {
        assert(s.subrange(v, v + len)[q1 + m1.len() - v] == s[q1 + m1.len()]);
        assert(enc[q1 + m1.len() - v] == 44);
    }
}

#[verifier::rlimit(100)]
proof fn lemma_resp_slice_2(s: Seq<u8>, v: int, r: HistoResponseV)
    requires
        0 <= v,
        v + spec_encode_response(r).len() <= s.len(),
        s.subrange(v, v + spec_encode_response(r).len()) =~= spec_encode_response(r),
    ensures
        ({
        let enc = spec_encode_response(r);
        let len = enc.len() as int;
        let v0 = seq![34u8] + r.response + seq![34u8];
        let m0 = spec_encode_member(key_response(), v0);
        let v1 = spec_digits_of(r.response_type as nat);
        let m1 = spec_encode_member(key_rtype(), v1);
        let v2 = spec_encode_bool(r.aggregated);
        let m2 = spec_encode_member(key_aggregated(), v2);
        let q0 = v + 1;
        let q1 = q0 + m0.len() + 1;
        let q2 = q1 + m1.len() + 1;
            &&& s.subrange(q2, q2 + m2.len()) =~= m2
            &&& s[q2 + m2.len()] == 44
        }),
{
    let enc = spec_encode_response(r);
    let len = enc.len() as int;
    let v0 = seq![34u8] + r.response + seq![34u8];
    let m0 = spec_encode_member(key_response(), v0);
    let v1 = spec_digits_of(r.response_type as nat);
    let m1 = spec_encode_member(key_rtype(), v1);
    let v2 = spec_encode_bool(r.aggregated);
    let m2 = spec_encode_member(key_aggregated(), v2);
    let q0 = v + 1;
    let q1 = q0 + m0.len() + 1;
    let q2 = q1 + m1.len() + 1;
    assert forall|e: int| 0 <= e < m2.len() implies s.subrange(q2, q2 + m2.len())[e]
        == m2[e] by {
        assert(s.subrange(v, v + len)[q2 - v + e] == s[q2 + e]);
        assert(s.subrange(q2, q2 + m2.len())[e] == s[q2 + e]);
        assert(enc[q2 - v + e] == m2[e]);
    }
    assert(s.subrange(q2, q2 + m2.len()) =~= m2);
    assert(s[q2 + m2.len()] == 44) by {
        assert(s.subrange(v, v + len)[q2 + m2.len() - v] == s[q2 + m2.len()]);
        assert(enc[q2 + m2.len() - v] == 44);
    }
}

#[verifier::rlimit(100)]
proof fn lemma_resp_slice_3(s: Seq<u8>, v: int, r: HistoResponseV)
    requires
        0 <= v,
        v + spec_encode_response(r).len() <= s.len(),
        s.subrange(v, v + spec_encode_response(r).len()) =~= spec_encode_response(r),
    ensures
        ({
        let enc = spec_encode_response(r);
        let len = enc.len() as int;
        let v0 = seq![34u8] + r.response + seq![34u8];
        let m0 = spec_encode_member(key_response(), v0);
        let v1 = spec_digits_of(r.response_type as nat);
        let m1 = spec_encode_member(key_rtype(), v1);
        let v2 = spec_encode_bool(r.aggregated);
        let m2 = spec_encode_member(key_aggregated(), v2);
        let v3 = spec_encode_items(r.data);
        let m3 = spec_encode_member(key_data(), v3);
        let q0 = v + 1;
        let q1 = q0 + m0.len() + 1;
        let q2 = q1 + m1.len() + 1;
        let q3 = q2 + m2.len() + 1;
            &&& s.subrange(q3, q3 + m3.len()) =~= m3
            &&& s[q3 + m3.len()] == 44
        }),
{
    let enc = spec_encode_response(r);
    let len = enc.len() as int;
    let v0 = seq![34u8] + r.response + seq![34u8];
    let m0 = spec_encode_member(key_response(), v0);
    let v1 = spec_digits_of(r.response_type as nat);
    let m1 = spec_encode_member(key_rtype(), v1);
    let v2 = spec_encode_bool(r.aggregated);
    let m2 = spec_encode_member(key_aggregated(), v2);
    let v3 = spec_encode_items(r.data);
    let m3 = spec_encode_member(key_data(), v3);
    let q0 = v + 1;
    let q1 = q0 + m0.len() + 1;
    let q2 = q1 + m1.len() + 1;
    let q3 = q2 + m2.len() + 1;
    assert forall|e: int| 0 <= e < m3.len() implies s.subrange(q3, q3 + m3.len())[e]
        == m3[e] by {
        assert(s.subrange(v, v + len)[q3 - v + e] == s[q3 + e]);
        assert(s.subrange(q3, q3 + m3.len())[e] == s[q3 + e]);
        assert(enc[q3 - v + e] == m3[e]);
    }
    assert(s.subrange(q3, q3 + m3.len()) =~= m3);
    assert(s[q3 + m3.len()] == 44) by {
        assert(s.subrange(v, v + len)[q3 + m3.len() - v] == s[q3 + m3.len()]);
        assert(enc[q3 + m3.len() - v] == 44);
    }
}

#[verifier::rlimit(100)]
proof fn lemma_resp_slice_4(s: Seq<u8>, v: int, r: HistoResponseV)
    requires
        0 <= v,
        v + spec_encode_response(r).len() <= s.len(),
        s.subrange(v, v + spec_encode_response(r).len()) =~= spec_encode_response(r),
    ensures
        ({
        let enc = spec_encode_response(r);
        let len = enc.len() as int;
        let v0 = seq![34u8] + r.response + seq![34u8];
        let m0 = spec_encode_member(key_response(), v0);
        let v1 = spec_digits_of(r.response_type as nat);
        let m1 = spec_encode_member(key_rtype(), v1);
        let v2 = spec_encode_bool(r.aggregated);
        let m2 = spec_encode_member(key_aggregated(), v2);
        let v3 = spec_encode_items(r.data);
        let m3 = spec_encode_member(key_data(), v3);
        let v4 = spec_digits_of(r.time_to as nat);
        let m4 = spec_encode_member(key_time_to(), v4);
        let q0 = v + 1;
        let q1 = q0 + m0.len() + 1;
        let q2 = q1 + m1.len() + 1;
        let q3 = q2 + m2.len() + 1;
        let q4 = q3 + m3.len() + 1;
            &&& s.subrange(q4, q4 + m4.len()) =~= m4
            &&& s[q4 + m4.len()] == 44
        }),
{
    let enc = spec_encode_response(r);
    let len = enc.len() as int;
    let v0 = seq![34u8] + r.response + seq![34u8];
    let m0 = spec_encode_member(key_response(), v0);
    let v1 = spec_digits_of(r.response_type as nat);
    let m1 = spec_encode_member(key_rtype(), v1);
    let v2 = spec_encode_bool(r.aggregated);
    let m2 = spec_encode_member(key_aggregated(), v2);
    let v3 = spec_encode_items(r.data);
    let m3 = spec_encode_member(key_data(), v3);
    let v4 = spec_digits_of(r.time_to as nat);
    let m4 = spec_encode_member(key_time_to(), v4);
    let q0 = v + 1;
    let q1 = q0 + m0.len() + 1;
    let q2 = q1 + m1.len() + 1;
    let q3 = q2 + m2.len() + 1;
    let q4 = q3 + m3.len() + 1;
    assert forall|e: int| 0 <= e < m4.len() implies s.subrange(q4, q4 + m4.len())[e]
        == m4[e] by {
        assert(s.subrange(v, v + len)[q4 - v + e] == s[q4 + e]);
        assert(s.subrange(q4, q4 + m4.len())[e] == s[q4 + e]);
        assert(enc[q4 - v + e] == m4[e]);
    }
    assert(s.subrange(q4, q4 + m4.len()) =~= m4);
    assert(s[q4 + m4.len()] == 44) by {
        assert(s.subrange(v, v + len)[q4 + m4.len() - v] == s[q4 + m4.len()]);
        assert(enc[q4 + m4.len() - v] == 44);
    }
}

#[verifier::rlimit(100)]
proof fn lemma_resp_slice_5(s: Seq<u8>, v: int, r: HistoResponseV)
    requires
        0 <= v,
        v + spec_encode_response(r).len() <= s.len(),
        s.subrange(v, v + spec_encode_response(r).len()) =~= spec_encode_response(r),
    ensures
        ({
        let enc = spec_encode_response(r);
        let len = enc.len() as int;
        let v0 = seq![34u8] + r.response + seq![34u8];
        let m0 = spec_encode_member(key_response(), v0);
        let v1 = spec_digits_of(r.response_type as nat);
        let m1 = spec_encode_member(key_rtype(), v1);
        let v2 = spec_encode_bool(r.aggregated);
        let m2 = spec_encode_member(key_aggregated(), v2);
        let v3 = spec_encode_items(r.data);
        let m3 = spec_encode_member(key_data(), v3);
        let v4 = spec_digits_of(r.time_to as nat);
        let m4 = spec_encode_member(key_time_to(), v4);
        let v5 = spec_digits_of(r.time_from as nat);
        let m5 = spec_encode_member(key_time_from(), v5);
        let q0 = v + 1;
        let q1 = q0 + m0.len() + 1;
        let q2 = q1 + m1.len() + 1;
        let q3 = q2 + m2.len() + 1;
        let q4 = q3 + m3.len() + 1;
        let q5 = q4 + m4.len() + 1;
            &&& s.subrange(q5, q5 + m5.len()) =~= m5
            &&& s[q5 + m5.len()] == 125
        }),
{
    let enc = spec_encode_response(r);
    let len = enc.len() as int;
    let v0 = seq![34u8] + r.response + seq![34u8];
    let m0 = spec_encode_member(key_response(), v0);
    let v1 = spec_digits_of(r.response_type as nat);
    let m1 = spec_encode_member(key_rtype(), v1);
    let v2 = spec_encode_bool(r.aggregated);
    let m2 = spec_encode_member(key_aggregated(), v2);
    let v3 = spec_encode_items(r.data);
    let m3 = spec_encode_member(key_data(), v3);
    let v4 = spec_digits_of(r.time_to as nat);
    let m4 = spec_encode_member(key_time_to(), v4);
    let v5 = spec_digits_of(r.time_from as nat);
    let m5 = spec_encode_member(key_time_from(), v5);
    let q0 = v + 1;
    let q1 = q0 + m0.len() + 1;
    let q2 = q1 + m1.len() + 1;
    let q3 = q2 + m2.len() + 1;
    let q4 = q3 + m3.len() + 1;
    let q5 = q4 + m4.len() + 1;
    assert forall|e: int| 0 <= e < m5.len() implies s.subrange(q5, q5 + m5.len())[e]
        == m5[e] by {
        assert(s.subrange(v, v + len)[q5 - v + e] == s[q5 + e]);
        assert(s.subrange(q5, q5 + m5.len())[e] == s[q5 + e]);
        assert(enc[q5 - v + e] == m5[e]);
    }
    assert(s.subrange(q5, q5 + m5.len()) =~= m5);
    assert(s[q5 + m5.len()] == 125) by {
        assert(s.subrange(v, v + len)[q5 + m5.len() - v] == s[q5 + m5.len()]);
        assert(enc[q5 + m5.len() - v] == 125);
    }
}

#[verifier::rlimit(100)]
proof fn lemma_resp_step_0(s: Seq<u8>, v: int, r: HistoResponseV)
    requires
        wf_response(r),
        0 <= v,
        v + spec_encode_response(r).len() <= s.len(),
        s.subrange(v, v + spec_encode_response(r).len()) =~= spec_encode_response(r),
    ensures
        ({
        let enc = spec_encode_response(r);
        let len = enc.len() as int;
        let v0 = seq![34u8] + r.response + seq![34u8];
        let m0 = spec_encode_member(key_response(), v0);
        let v1 = spec_digits_of(r.response_type as nat);
        let m1 = spec_encode_member(key_rtype(), v1);
        let q0 = v + 1;
        let q1 = q0 + m0.len() + 1;
        let b0 = empty_resp_acc();
        let b1 = RespAcc { response: Some(r.response), ..b0 };
            spec_parse_resp_members(s, q0, b0) == spec_parse_resp_members(s, q1, b1)
        }),
{
    lemma_keys_text();
    let enc = spec_encode_response(r);
    let len = enc.len() as int;
    let v0 = seq![34u8] + r.response + seq![34u8];
    let m0 = spec_encode_member(key_response(), v0);
    let v1 = spec_digits_of(r.response_type as nat);
    let m1 = spec_encode_member(key_rtype(), v1);
    let q0 = v + 1;
    let q1 = q0 + m0.len() + 1;
    let b0 = empty_resp_acc();
    let b1 = RespAcc { response: Some(r.response), ..b0 };
    lemma_resp_slice_0(s, v, r);
    lemma_resp_slice_1(s, v, r);
    assert(!is_ws_byte(v0[0])) by {
        assert(v0[0] == 34);
    }
    lemma_member_at(s, q0, key_response(), v0);
    let vp = q0 + key_response().len() + 3;
    let ve = vp + v0.len();
    let rlen = r.response.len() as int;
    let vsub = s.subrange(vp, vp + v0.len());
    assert(s[vp] == 34) by {
        assert(vsub[0] == s[vp]);
        assert(v0[0] == 34);
    }
    assert(s[vp + 1 + rlen] == 34) by {
        assert(vsub[1 + rlen] == s[vp + 1 + rlen]);
        assert(v0[1 + rlen] == 34);
    }
    assert forall|d: int| vp + 1 <= d < vp + 1 + rlen implies is_text_byte(s[d]) by {
        assert(vsub[d - vp] == s[d]);
        assert(v0[d - vp] == r.response[d - vp - 1]);
    }
    lemma_str_end_complete(s, vp + 1, vp + 1 + rlen);
    assert forall|e: int| 0 <= e < rlen implies s.subrange(vp + 1, vp + 1 + rlen)[e]
        == r.response[e] by {
        assert(vsub[1 + e] == s[vp + 1 + e]);
        assert(s.subrange(vp + 1, vp + 1 + rlen)[e] == s[vp + 1 + e]);
        assert(v0[1 + e] == r.response[e]);
    }
    assert(s.subrange(vp + 1, vp + 1 + rlen) =~= r.response);
    assert(spec_resp_member_value(s, vp, key_response(), b0) == Some((b1, ve)));
    lemma_skip_ws_noop(s, ve);
    assert(s[q1] == 34) by {
        let sub = s.subrange(q1, q1 + m1.len());
        assert(sub[0] == s[q1]);
        assert(m1[0] == 34);
    }
    lemma_skip_ws_noop(s, q1);
    assert(next_at(s, q0, q1) == q1);
    assert(spec_parse_resp_members(s, q0, b0) == spec_parse_resp_members(s, q1, b1));
}

#[verifier::rlimit(100)]
proof fn lemma_resp_step_1(s: Seq<u8>, v: int, r: HistoResponseV)
    requires
        wf_response(r),
        0 <= v,
        v + spec_encode_response(r).len() <= s.len(),
        s.subrange(v, v + spec_encode_response(r).len()) =~= spec_encode_response(r),
    ensures
        ({
        let enc = spec_encode_response(r);
        let len = enc.len() as int;
        let v0 = seq![34u8] + r.response + seq![34u8];
        let m0 = spec_encode_member(key_response(), v0);
        let v1 = spec_digits_of(r.response_type as nat);
        let m1 = spec_encode_member(key_rtype(), v1);
        let v2 = spec_encode_bool(r.aggregated);
        let m2 = spec_encode_member(key_aggregated(), v2);
        let q0 = v + 1;
        let q1 = q0 + m0.len() + 1;
        let q2 = q1 + m1.len() + 1;
        let b0 = empty_resp_acc();
        let b1 = RespAcc { response: Some(r.response), ..b0 };
        let b2 = RespAcc { response_type: Some(r.response_type), ..b1 };
            spec_parse_resp_members(s, q1, b1) == spec_parse_resp_members(s, q2, b2)
        }),
{
    lemma_keys_text();
    let enc = spec_encode_response(r);
    let len = enc.len() as int;
    let v0 = seq![34u8] + r.response + seq![34u8];
    let m0 = spec_encode_member(key_response(), v0);
    let v1 = spec_digits_of(r.response_type as nat);
    let m1 = spec_encode_member(key_rtype(), v1);
    let v2 = spec_encode_bool(r.aggregated);
    let m2 = spec_encode_member(key_aggregated(), v2);
    let q0 = v + 1;
    let q1 = q0 + m0.len() + 1;
    let q2 = q1 + m1.len() + 1;
    let b0 = empty_resp_acc();
    let b1 = RespAcc { response: Some(r.response), ..b0 };
    let b2 = RespAcc { response_type: Some(r.response_type), ..b1 };
    lemma_resp_slice_1(s, v, r);
    lemma_resp_slice_2(s, v, r);
    lemma_digits_of_props(r.response_type as nat);
    assert(!is_ws_byte(v1[0])) by {
        assert(is_digit_byte(v1[0]));
    }
    lemma_member_at(s, q1, key_rtype(), v1);
    let vp = q1 + key_rtype().len() + 3;
    let ve = vp + v1.len();
    lemma_parse_u64_complete(s, vp, ve, r.response_type);
    assert(spec_resp_member_value(s, vp, key_rtype(), b1) == Some((b2, ve)));
    lemma_skip_ws_noop(s, ve);
    assert(s[q2] == 34) by {
        let sub = s.subrange(q2, q2 + m2.len());
        assert(sub[0] == s[q2]);
        assert(m2[0] == 34);
    }
    lemma_skip_ws_noop(s, q2);
    assert(next_at(s, q1, q2) == q2);
    assert(spec_parse_resp_members(s, q1, b1) == spec_parse_resp_members(s, q2, b2));
}

#[verifier::rlimit(100)]
proof fn lemma_resp_step_2(s: Seq<u8>, v: int, r: HistoResponseV)
    requires
        wf_response(r),
        0 <= v,
        v + spec_encode_response(r).len() <= s.len(),
        s.subrange(v, v + spec_encode_response(r).len()) =~= spec_encode_response(r),
    ensures
        ({
        let enc = spec_encode_response(r);
        let len = enc.len() as int;
        let v0 = seq![34u8] + r.response + seq![34u8];
        let m0 = spec_encode_member(key_response(), v0);
        let v1 = spec_digits_of(r.response_type as nat);
        let m1 = spec_encode_member(key_rtype(), v1);
        let v2 = spec_encode_bool(r.aggregated);
        let m2 = spec_encode_member(key_aggregated(), v2);
        let v3 = spec_encode_items(r.data);
        let m3 = spec_encode_member(key_data(), v3);
        let q0 = v + 1;
        let q1 = q0 + m0.len() + 1;
        let q2 = q1 + m1.len() + 1;
        let q3 = q2 + m2.len() + 1;
        let b0 = empty_resp_acc();
        let b1 = RespAcc { response: Some(r.response), ..b0 };
        let b2 = RespAcc { response_type: Some(r.response_type), ..b1 };
        let b3 = RespAcc { aggregated: Some(r.aggregated), ..b2 };
            spec_parse_resp_members(s, q2, b2) == spec_parse_resp_members(s, q3, b3)
        }),
{
    lemma_keys_text();
    let enc = spec_encode_response(r);
    let len = enc.len() as int;
    let v0 = seq![34u8] + r.response + seq![34u8];
    let m0 = spec_encode_member(key_response(), v0);
    let v1 = spec_digits_of(r.response_type as nat);
    let m1 = spec_encode_member(key_rtype(), v1);
    let v2 = spec_encode_bool(r.aggregated);
    let m2 = spec_encode_member(key_aggregated(), v2);
    let v3 = spec_encode_items(r.data);
    let m3 = spec_encode_member(key_data(), v3);
    let q0 = v + 1;
    let q1 = q0 + m0.len() + 1;
    let q2 = q1 + m1.len() + 1;
    let q3 = q2 + m2.len() + 1;
    let b0 = empty_resp_acc();
    let b1 = RespAcc { response: Some(r.response), ..b0 };
    let b2 = RespAcc { response_type: Some(r.response_type), ..b1 };
    let b3 = RespAcc { aggregated: Some(r.aggregated), ..b2 };
    lemma_resp_slice_2(s, v, r);
    lemma_resp_slice_3(s, v, r);
    assert(!is_ws_byte(v2[0])) by {
        assert(v2[0] == 116 || v2[0] == 102);
    }
    lemma_member_at(s, q2, key_aggregated(), v2);
    let vp = q2 + key_aggregated().len() + 3;
    let ve = vp + v2.len();
    let vsub = s.subrange(vp, vp + v2.len());
    assert forall|d: int| 0 <= d < v2.len() implies s[vp + d] == v2[d] by {
        assert(vsub[d] == s[vp + d]);
    }
    assert(spec_resp_member_value(s, vp, key_aggregated(), b2) == Some((b3, ve)));
    lemma_skip_ws_noop(s, ve);
    assert(s[q3] == 34) by {
        let sub = s.subrange(q3, q3 + m3.len());
        assert(sub[0] == s[q3]);
        assert(m3[0] == 34);
    }
    lemma_skip_ws_noop(s, q3);
    assert(next_at(s, q2, q3) == q3);
    assert(spec_parse_resp_members(s, q2, b2) == spec_parse_resp_members(s, q3, b3));
}

#[verifier::rlimit(100)]
proof fn lemma_resp_step_3(s: Seq<u8>, v: int, r: HistoResponseV)
    requires
        wf_response(r),
        0 <= v,
        v + spec_encode_response(r).len() <= s.len(),
        s.subrange(v, v + spec_encode_response(r).len()) =~= spec_encode_response(r),
    ensures
        ({
        let enc = spec_encode_response(r);
        let len = enc.len() as int;
        let v0 = seq![34u8] + r.response + seq![34u8];
        let m0 = spec_encode_member(key_response(), v0);
        let v1 = spec_digits_of(r.response_type as nat);
        let m1 = spec_encode_member(key_rtype(), v1);
        let v2 = spec_encode_bool(r.aggregated);
        let m2 = spec_encode_member(key_aggregated(), v2);
        let v3 = spec_encode_items(r.data);
        let m3 = spec_encode_member(key_data(), v3);
        let v4 = spec_digits_of(r.time_to as nat);
        let m4 = spec_encode_member(key_time_to(), v4);
        let q0 = v + 1;
        let q1 = q0 + m0.len() + 1;
        let q2 = q1 + m1.len() + 1;
        let q3 = q2 + m2.len() + 1;
        let q4 = q3 + m3.len() + 1;
        let b0 = empty_resp_acc();
        let b1 = RespAcc { response: Some(r.response), ..b0 };
        let b2 = RespAcc { response_type: Some(r.response_type), ..b1 };
        let b3 = RespAcc { aggregated: Some(r.aggregated), ..b2 };
        let b4 = RespAcc { data: Some(r.data), ..b3 };
            spec_parse_resp_members(s, q3, b3) == spec_parse_resp_members(s, q4, b4)
        }),
{
    lemma_keys_text();
    let enc = spec_encode_response(r);
    let len = enc.len() as int;
    let v0 = seq![34u8] + r.response + seq![34u8];
    let m0 = spec_encode_member(key_response(), v0);
    let v1 = spec_digits_of(r.response_type as nat);
    let m1 = spec_encode_member(key_rtype(), v1);
    let v2 = spec_encode_bool(r.aggregated);
    let m2 = spec_encode_member(key_aggregated(), v2);
    let v3 = spec_encode_items(r.data);
    let m3 = spec_encode_member(key_data(), v3);
    let v4 = spec_digits_of(r.time_to as nat);
    let m4 = spec_encode_member(key_time_to(), v4);
    let q0 = v + 1;
    let q1 = q0 + m0.len() + 1;
    let q2 = q1 + m1.len() + 1;
    let q3 = q2 + m2.len() + 1;
    let q4 = q3 + m3.len() + 1;
    let b0 = empty_resp_acc();
    let b1 = RespAcc { response: Some(r.response), ..b0 };
    let b2 = RespAcc { response_type: Some(r.response_type), ..b1 };
    let b3 = RespAcc { aggregated: Some(r.aggregated), ..b2 };
    let b4 = RespAcc { data: Some(r.data), ..b3 };
    lemma_resp_slice_3(s, v, r);
    lemma_resp_slice_4(s, v, r);
    assert(!is_ws_byte(v3[0])) by {
        assert(v3[0] == 91);
    }
    lemma_member_at(s, q3, key_data(), v3);
    let vp = q3 + key_data().len() + 3;
    let ve = vp + v3.len();
    let vsub = s.subrange(vp, vp + v3.len());
    assert(s[vp] == 91) by {
        assert(vsub[0] == s[vp]);
        assert(v3[0] == 91);
    }
    let body = spec_encode_items_body(r.data);
    assert forall|e: int| 0 <= e < body.len() implies s.subrange(vp + 1, vp + 1 + body.len())[e]
        == body[e] by {
        assert(vsub[1 + e] == s[vp + 1 + e]);
        assert(s.subrange(vp + 1, vp + 1 + body.len())[e] == s[vp + 1 + e]);
        assert(v3[1 + e] == body[e]);
    }
    assert(s.subrange(vp + 1, vp + 1 + body.len()) =~= body);
    assert(s[vp + 1] == body[0]) by {
        assert(s.subrange(vp + 1, vp + 1 + body.len())[0] == s[vp + 1]);
    }
    assert(!is_ws_byte(s[vp + 1])) by {
        if r.data.len() == 0 {
            assert(body[0] == 93);
        } else {
            assert(spec_encode_item(r.data[0])[0] == 123);
            assert(body[0] == 123);
        }
    }
    lemma_skip_ws_noop(s, vp + 1);
    lemma_items_body(s, vp + 1, r.data, Seq::empty());
    assert(Seq::empty() + r.data =~= r.data);
    assert(next_at(s, vp, vp + 1) == vp + 1);
    assert(spec_resp_member_value(s, vp, key_data(), b3) == Some((b4, ve)));
    assert(key_data() != key_rtype()) by {
        assert(key_data()[0] == 68 && key_rtype()[0] == 84);
    }
    lemma_skip_ws_noop(s, ve);
    assert(s[q4] == 34) by {
        let sub = s.subrange(q4, q4 + m4.len());
        assert(sub[0] == s[q4]);
        assert(m4[0] == 34);
    }
    lemma_skip_ws_noop(s, q4);
    assert(next_at(s, q3, q4) == q4);
    assert(spec_parse_resp_members(s, q3, b3) == spec_parse_resp_members(s, q4, b4));
}

#[verifier::rlimit(100)]
proof fn lemma_resp_step_4(s: Seq<u8>, v: int, r: HistoResponseV)
    requires
        wf_response(r),
        0 <= v,
        v + spec_encode_response(r).len() <= s.len(),
        s.subrange(v, v + spec_encode_response(r).len()) =~= spec_encode_response(r),
    ensures
        ({
        let enc = spec_encode_response(r);
        let len = enc.len() as int;
        let v0 = seq![34u8] + r.response + seq![34u8];
        let m0 = spec_encode_member(key_response(), v0);
        let v1 = spec_digits_of(r.response_type as nat);
        let m1 = spec_encode_member(key_rtype(), v1);
        let v2 = spec_encode_bool(r.aggregated);
        let m2 = spec_encode_member(key_aggregated(), v2);
        let v3 = spec_encode_items(r.data);
        let m3 = spec_encode_member(key_data(), v3);
        let v4 = spec_digits_of(r.time_to as nat);
        let m4 = spec_encode_member(key_time_to(), v4);
        let v5 = spec_digits_of(r.time_from as nat);
        let m5 = spec_encode_member(key_time_from(), v5);
        let q0 = v + 1;
        let q1 = q0 + m0.len() + 1;
        let q2 = q1 + m1.len() + 1;
        let q3 = q2 + m2.len() + 1;
        let q4 = q3 + m3.len() + 1;
        let q5 = q4 + m4.len() + 1;
        let b0 = empty_resp_acc();
        let b1 = RespAcc { response: Some(r.response), ..b0 };
        let b2 = RespAcc { response_type: Some(r.response_type), ..b1 };
        let b3 = RespAcc { aggregated: Some(r.aggregated), ..b2 };
        let b4 = RespAcc { data: Some(r.data), ..b3 };
        let b5 = RespAcc { time_to: Some(r.time_to), ..b4 };
            spec_parse_resp_members(s, q4, b4) == spec_parse_resp_members(s, q5, b5)
        }),
{
    lemma_keys_text();
    let enc = spec_encode_response(r);
    let len = enc.len() as int;
    let v0 = seq![34u8] + r.response + seq![34u8];
    let m0 = spec_encode_member(key_response(), v0);
    let v1 = spec_digits_of(r.response_type as nat);
    let m1 = spec_encode_member(key_rtype(), v1);
    let v2 = spec_encode_bool(r.aggregated);
    let m2 = spec_encode_member(key_aggregated(), v2);
    let v3 = spec_encode_items(r.data);
    let m3 = spec_encode_member(key_data(), v3);
    let v4 = spec_digits_of(r.time_to as nat);
    let m4 = spec_encode_member(key_time_to(), v4);
    let v5 = spec_digits_of(r.time_from as nat);
    let m5 = spec_encode_member(key_time_from(), v5);
    let q0 = v + 1;
    let q1 = q0 + m0.len() + 1;
    let q2 = q1 + m1.len() + 1;
    let q3 = q2 + m2.len() + 1;
    let q4 = q3 + m3.len() + 1;
    let q5 = q4 + m4.len() + 1;
    let b0 = empty_resp_acc();
    let b1 = RespAcc { response: Some(r.response), ..b0 };
    let b2 = RespAcc { response_type: Some(r.response_type), ..b1 };
    let b3 = RespAcc { aggregated: Some(r.aggregated), ..b2 };
    let b4 = RespAcc { data: Some(r.data), ..b3 };
    let b5 = RespAcc { time_to: Some(r.time_to), ..b4 };
    lemma_resp_slice_4(s, v, r);
    lemma_resp_slice_5(s, v, r);
    lemma_digits_of_props(r.time_to as nat);
    assert(!is_ws_byte(v4[0])) by {
        assert(is_digit_byte(v4[0]));
    }
    lemma_member_at(s, q4, key_time_to(), v4);
    let vp = q4 + key_time_to().len() + 3;
    let ve = vp + v4.len();
    lemma_parse_u64_complete(s, vp, ve, r.time_to);
    assert(spec_resp_member_value(s, vp, key_time_to(), b4) == Some((b5, ve)));
    lemma_skip_ws_noop(s, ve);
    assert(s[q5] == 34) by {
        let sub = s.subrange(q5, q5 + m5.len());
        assert(sub[0] == s[q5]);
        assert(m5[0] == 34);
    }
    lemma_skip_ws_noop(s, q5);
    assert(next_at(s, q4, q5) == q5);
    assert(spec_parse_resp_members(s, q4, b4) == spec_parse_resp_members(s, q5, b5));
}

#[verifier::rlimit(100)]
proof fn lemma_resp_step_5(s: Seq<u8>, v: int, r: HistoResponseV)
    requires
        wf_response(r),
        0 <= v,
        v + spec_encode_response(r).len() <= s.len(),
        s.subrange(v, v + spec_encode_response(r).len()) =~= spec_encode_response(r),
    ensures
        ({
        let enc = spec_encode_response(r);
        let len = enc.len() as int;
        let v0 = seq![34u8] + r.response + seq![34u8];
        let m0 = spec_encode_member(key_response(), v0);
        let v1 = spec_digits_of(r.response_type as nat);
        let m1 = spec_encode_member(key_rtype(), v1);
        let v2 = spec_encode_bool(r.aggregated);
        let m2 = spec_encode_member(key_aggregated(), v2);
        let v3 = spec_encode_items(r.data);
        let m3 = spec_encode_member(key_data(), v3);
        let v4 = spec_digits_of(r.time_to as nat);
        let m4 = spec_encode_member(key_time_to(), v4);
        let v5 = spec_digits_of(r.time_from as nat);
        let m5 = spec_encode_member(key_time_from(), v5);
        let q0 = v + 1;
        let q1 = q0 + m0.len() + 1;
        let q2 = q1 + m1.len() + 1;
        let q3 = q2 + m2.len() + 1;
        let q4 = q3 + m3.len() + 1;
        let q5 = q4 + m4.len() + 1;
        let b0 = empty_resp_acc();
        let b1 = RespAcc { response: Some(r.response), ..b0 };
        let b2 = RespAcc { response_type: Some(r.response_type), ..b1 };
        let b3 = RespAcc { aggregated: Some(r.aggregated), ..b2 };
        let b4 = RespAcc { data: Some(r.data), ..b3 };
        let b5 = RespAcc { time_to: Some(r.time_to), ..b4 };
        let b6 = RespAcc { time_from: Some(r.time_from), ..b5 };
            spec_parse_resp_members(s, q5, b5) == Some((b6, v + len))
        }),
{
    lemma_keys_text();
    let enc = spec_encode_response(r);
    let len = enc.len() as int;
    let v0 = seq![34u8] + r.response + seq![34u8];
    let m0 = spec_encode_member(key_response(), v0);
    let v1 = spec_digits_of(r.response_type as nat);
    let m1 = spec_encode_member(key_rtype(), v1);
    let v2 = spec_encode_bool(r.aggregated);
    let m2 = spec_encode_member(key_aggregated(), v2);
    let v3 = spec_encode_items(r.data);
    let m3 = spec_encode_member(key_data(), v3);
    let v4 = spec_digits_of(r.time_to as nat);
    let m4 = spec_encode_member(key_time_to(), v4);
    let v5 = spec_digits_of(r.time_from as nat);
    let m5 = spec_encode_member(key_time_from(), v5);
    let q0 = v + 1;
    let q1 = q0 + m0.len() + 1;
    let q2 = q1 + m1.len() + 1;
    let q3 = q2 + m2.len() + 1;
    let q4 = q3 + m3.len() + 1;
    let q5 = q4 + m4.len() + 1;
    let b0 = empty_resp_acc();
    let b1 = RespAcc { response: Some(r.response), ..b0 };
    let b2 = RespAcc { response_type: Some(r.response_type), ..b1 };
    let b3 = RespAcc { aggregated: Some(r.aggregated), ..b2 };
    let b4 = RespAcc { data: Some(r.data), ..b3 };
    let b5 = RespAcc { time_to: Some(r.time_to), ..b4 };
    let b6 = RespAcc { time_from: Some(r.time_from), ..b5 };
    lemma_resp_slice_5(s, v, r);
    lemma_digits_of_props(r.time_from as nat);
    assert(!is_ws_byte(v5[0])) by {
        assert(is_digit_byte(v5[0]));
    }
    lemma_member_at(s, q5, key_time_from(), v5);
    let vp = q5 + key_time_from().len() + 3;
    let ve = vp + v5.len();
    lemma_parse_u64_complete(s, vp, ve, r.time_from);
    assert(spec_resp_member_value(s, vp, key_time_from(), b5) == Some((b6, ve)));
    assert(key_time_from() != key_response()) by {
        assert(key_time_from()[0] == 84 && key_response()[0] == 82);
    }
    lemma_skip_ws_noop(s, ve);
    assert(spec_parse_resp_members(s, q5, b5) == Some((b6, v + len)));
}


#[verifier::rlimit(100)]
proof fn lemma_resp_members_walk(s: Seq<u8>, v: int, r: HistoResponseV)
    requires
        wf_response(r),
        0 <= v,
        v + spec_encode_response(r).len() <= s.len(),
        s.subrange(v, v + spec_encode_response(r).len()) =~= spec_encode_response(r),
    ensures
        ({
        let enc = spec_encode_response(r);
        let len = enc.len() as int;
        let v0 = seq![34u8] + r.response + seq![34u8];
        let m0 = spec_encode_member(key_response(), v0);
        let v1 = spec_digits_of(r.response_type as nat);
        let m1 = spec_encode_member(key_rtype(), v1);
        let v2 = spec_encode_bool(r.aggregated);
        let m2 = spec_encode_member(key_aggregated(), v2);
        let v3 = spec_encode_items(r.data);
        let m3 = spec_encode_member(key_data(), v3);
        let v4 = spec_digits_of(r.time_to as nat);
        let m4 = spec_encode_member(key_time_to(), v4);
        let v5 = spec_digits_of(r.time_from as nat);
        let m5 = spec_encode_member(key_time_from(), v5);
        let q0 = v + 1;
        let q1 = q0 + m0.len() + 1;
        let q2 = q1 + m1.len() + 1;
        let q3 = q2 + m2.len() + 1;
        let q4 = q3 + m3.len() + 1;
        let q5 = q4 + m4.len() + 1;
        let b0 = empty_resp_acc();
        let b1 = RespAcc { response: Some(r.response), ..b0 };
        let b2 = RespAcc { response_type: Some(r.response_type), ..b1 };
        let b3 = RespAcc { aggregated: Some(r.aggregated), ..b2 };
        let b4 = RespAcc { data: Some(r.data), ..b3 };
        let b5 = RespAcc { time_to: Some(r.time_to), ..b4 };
        let b6 = RespAcc { time_from: Some(r.time_from), ..b5 };
            spec_parse_resp_members(s, q0, b0) == Some((b6, v + len))
        }),
{
    let enc = spec_encode_response(r);
    let len = enc.len() as int;
    let v0 = seq![34u8] + r.response + seq![34u8];
    let m0 = spec_encode_member(key_response(), v0);
    let v1 = spec_digits_of(r.response_type as nat);
    let m1 = spec_encode_member(key_rtype(), v1);
    let v2 = spec_encode_bool(r.aggregated);
    let m2 = spec_encode_member(key_aggregated(), v2);
    let v3 = spec_encode_items(r.data);
    let m3 = spec_encode_member(key_data(), v3);
    let v4 = spec_digits_of(r.time_to as nat);
    let m4 = spec_encode_member(key_time_to(), v4);
    let v5 = spec_digits_of(r.time_from as nat);
    let m5 = spec_encode_member(key_time_from(), v5);
    let q0 = v + 1;
    let q1 = q0 + m0.len() + 1;
    let q2 = q1 + m1.len() + 1;
    let q3 = q2 + m2.len() + 1;
    let q4 = q3 + m3.len() + 1;
    let q5 = q4 + m4.len() + 1;
    let b0 = empty_resp_acc();
    let b1 = RespAcc { response: Some(r.response), ..b0 };
    let b2 = RespAcc { response_type: Some(r.response_type), ..b1 };
    let b3 = RespAcc { aggregated: Some(r.aggregated), ..b2 };
    let b4 = RespAcc { data: Some(r.data), ..b3 };
    let b5 = RespAcc { time_to: Some(r.time_to), ..b4 };
    let b6 = RespAcc { time_from: Some(r.time_from), ..b5 };
    lemma_resp_step_0(s, v, r);
    lemma_resp_step_1(s, v, r);
    lemma_resp_step_2(s, v, r);
    lemma_resp_step_3(s, v, r);
    lemma_resp_step_4(s, v, r);
    lemma_resp_step_5(s, v, r);
}

/// Decoding inverts encoding: a well-formed response document rendered
/// canonically decodes back to exactly the value it was rendered from, so
/// decoding loses nothing on the retained fields.
#[verifier::rlimit(100)]
pub proof fn lemma_decode_inverts_encode(r: HistoResponseV)
    requires
        wf_response(r),
    ensures
        spec_decode(spec_encode_response(r)) == Some(r),
{
    let s = spec_encode_response(r);
    assert(s.subrange(0, s.len() as int) =~= s);
    let v = 0int;
    let enc = spec_encode_response(r);
    let len = enc.len() as int;
    let v0 = seq![34u8] + r.response + seq![34u8];
    let m0 = spec_encode_member(key_response(), v0);
    let q0 = v + 1;
    let b0 = empty_resp_acc();
    let b1 = RespAcc { response: Some(r.response), ..b0 };
    let b2 = RespAcc { response_type: Some(r.response_type), ..b1 };
    let b3 = RespAcc { aggregated: Some(r.aggregated), ..b2 };
    let b4 = RespAcc { data: Some(r.data), ..b3 };
    let b5 = RespAcc { time_to: Some(r.time_to), ..b4 };
    let b6 = RespAcc { time_from: Some(r.time_from), ..b5 };
    lemma_resp_members_walk(s, v, r);
    assert(spec_parse_resp_members(s, q0, b0) == Some((b6, len)));
    assert(complete_resp(b6) == Some(r));
    assert(s[0] == 123) by {
        assert(enc[0] == 123);
    }
    lemma_skip_ws_noop(s, 0);
    assert(s[1] == 34) by {
        lemma_resp_slice_0(s, v, r);
        let sub = s.subrange(q0, q0 + m0.len());
        assert(sub[0] == s[q0]);
        assert(m0[0] == 34);
    }
    lemma_skip_ws_noop(s, 1);
    assert(next_at(s, 0, 1) == 1);
    assert(skip_ws(s, len) == len);
    assert(spec_decode(s) == Some(r));
}

} // verus!

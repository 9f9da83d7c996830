//! Decision logic of the bounded fetcher.
//!
//! One call issues a single HTTPS GET for aggregated market history and
//! races it against a timer.  The request line is built and validated here;
//! the transport work itself (connection, await, timer) is the caller's,
//! who reports back one `TransportEvent`.  `complete_fetch` turns that
//! event into the call's one terminal outcome: a decoded response or one
//! typed error, never a partial result and never a retry.  When the timer
//! wins, cancellation of the in-flight request is best-effort only: nothing
//! here guarantees the remote side stops processing.
use vstd::prelude::*;
use vstd::string::StringSliceAdditionalSpecFns;

use crate::codec::decode_histo_response;
use crate::codec::spec_decode;
use crate::errors::FetchError;
use crate::model::Currency;
use crate::model::HistoResponse;
use crate::scan::spec_digits_of;
use crate::scan::u64_to_digits;

verus! {

/// Parameters of one bounded fetch: the market pair, the timer length in
/// whole seconds, the aggregation bucket count, and the requested sample
/// count.
pub struct FetchParams {
    pub fsym: Currency,
    pub tsym: Currency,
    pub timeout_secs: u64,
    pub time_step: u64,
    pub time_points: u64,
}

/// A character the query string accepts in a ticker symbol.
pub open spec fn is_symbol_char(c: char) -> bool {
    ('0' <= c && c <= '9') || ('A' <= c && c <= 'Z') || ('a' <= c && c <= 'z')
}

/// A usable ticker symbol: nonempty, letters and digits only.
pub open spec fn valid_symbol(cs: Seq<char>) -> bool {
    1 <= cs.len() && (forall|i: int| 0 <= i < cs.len() ==> is_symbol_char(#[trigger] cs[i]))
}

/// The parameters the remote API accepts: a positive timer, positive bucket
/// and sample counts, and usable ticker symbols.
pub open spec fn params_valid(p: &FetchParams) -> bool {
    &&& p.timeout_secs >= 1
    &&& p.time_step >= 1
    &&& p.time_points >= 1
    &&& valid_symbol(p.fsym.ticker_view())
    &&& valid_symbol(p.tsym.ticker_view())
}

/// The bytes of an ASCII character sequence, one byte per character.
pub open spec fn ascii_bytes(cs: Seq<char>) -> Seq<u8> {
    Seq::new(cs.len(), |i: int| cs[i] as u8)
}

/// The full request line for aggregated minute history of a market pair.
pub open spec fn spec_histo_uri(fsym: Seq<char>, tsym: Seq<char>, points: u64, step: u64) -> Seq<
    u8,
> {
    ("https://min-api.cryptocompare.com/data/histominute?fsym=").spec_bytes() + ascii_bytes(fsym)
        + ("&tsym=").spec_bytes() + ascii_bytes(tsym) + ("&limit=").spec_bytes() + spec_digits_of(
        points as nat,
    ) + ("&aggregate=").spec_bytes() + spec_digits_of(step as nat)
}

fn check_symbol(s: &String) -> (r: bool)
    ensures
        r == valid_symbol(s@),
{
    let st = s.as_str();
    if !st.is_ascii() {
        proof {
            let cs = s@;
            assert(!vstd::utf8::is_ascii_chars(cs));
            let i = choose|i: int| 0 <= i < cs.len() && !('\0' <= #[trigger] cs[i] <= '\u{7f}');
            assert(!is_symbol_char(cs[i]));
        }
        return false;
    }
    proof {
        vstd::string::is_ascii_spec_bytes(st);
    }
    let bs = st.as_bytes();
    let n = bs.len();
    if n == 0 {
        return false;
    }
    let mut j: usize = 0;
    while j < n
        invariant
            j <= n,
            n == bs@.len(),
            n == s@.len(),
            bs@ =~= ascii_bytes(s@),
            vstd::utf8::is_ascii_chars(s@),
            forall|t: int| 0 <= t < j ==> is_symbol_char(#[trigger] s@[t]),
        decreases n - j,
    {
        let b = bs[j];
        let ok = (48 <= b && b <= 57) || (65 <= b && b <= 90) || (97 <= b && b <= 122);
        proof {
            assert(b == s@[j as int] as u8);
            assert('\0' <= s@[j as int] <= '\u{7f}');
            assert(ok == is_symbol_char(s@[j as int]));
        }
        if !ok {
            return false;
        }
        j = j + 1;
    }
    true
}

fn append_lit(out: &mut Vec<u8>, s: &str)
    ensures
        final(out)@ == old(out)@ + s.spec_bytes(),
{
    let bs = s.as_bytes();
    let mut v = vstd::slice::slice_to_vec(bs);
    out.append(&mut v);
}

fn append_symbol(out: &mut Vec<u8>, s: &String)
    requires
        valid_symbol(s@),
    ensures
        final(out)@ == old(out)@ + ascii_bytes(s@),
{
    let st = s.as_str();
    proof {
        assert forall|i: int| 0 <= i < s@.len() implies '\0' <= #[trigger] s@[i] <= '\u{7f}' by {
            assert(is_symbol_char(s@[i]));
        }
        assert(vstd::utf8::is_ascii_chars(st@));
        vstd::string::is_ascii_spec_bytes(st);
    }
    let bs = st.as_bytes();
    let mut v = vstd::slice::slice_to_vec(bs);
    proof {
        assert(v@ =~= ascii_bytes(s@));
    }
    out.append(&mut v);
}

/// Builds the request line from the fetch parameters, rejecting malformed
/// parameters with `UriConstruction` before any transport work could use
/// them.  The returned bytes are exactly the URI of `spec_histo_uri`.
pub fn build_histo_uri(params: &FetchParams) -> (r: Result<Vec<u8>, FetchError>)
    ensures
        params_valid(params) ==> (r matches Ok(u) && u@ == spec_histo_uri(
            params.fsym.ticker_view(),
            params.tsym.ticker_view(),
            params.time_points,
            params.time_step,
        )),
        !params_valid(params) ==> r == Err::<Vec<u8>, FetchError>(FetchError::UriConstruction),
{
    if params.timeout_secs < 1 || params.time_step < 1 || params.time_points < 1 {
        return Err(FetchError::UriConstruction);
    }
    if !check_symbol(params.fsym.ticker()) {
        return Err(FetchError::UriConstruction);
    }
    if !check_symbol(params.tsym.ticker()) {
        return Err(FetchError::UriConstruction);
    }
    let mut out: Vec<u8> = Vec::new();
    append_lit(&mut out, "https://min-api.cryptocompare.com/data/histominute?fsym=");
    append_symbol(&mut out, params.fsym.ticker());
    append_lit(&mut out, "&tsym=");
    append_symbol(&mut out, params.tsym.ticker());
    append_lit(&mut out, "&limit=");
    let mut dp = u64_to_digits(params.time_points);
    out.append(&mut dp);
    append_lit(&mut out, "&aggregate=");
    let mut ds = u64_to_digits(params.time_step);
    out.append(&mut ds);
    Ok(out)
}

/// What the race between the GET and the timer reported: whichever unit of
/// work finished first determines the variant.
pub enum TransportEvent {
    /// The GET finished first and delivered the complete body bytes.
    Completed(Vec<u8>),
    /// The GET finished first with a connection, DNS or TLS failure,
    /// described by the transport's message.
    Failed(String),
    /// The timer fired first; the in-flight request is abandoned.
    TimedOut,
}

/// Turns the race's outcome into the call's single terminal result: the
/// timer winning is always `Timeout` and never a response; a transport
/// failure is always `Transport`; a delivered body decodes to exactly the
/// response it denotes, or to `Decode` when malformed — never a partial
/// response.
pub fn complete_fetch(event: TransportEvent) -> (r: Result<HistoResponse, FetchError>)
    ensures
        event matches TransportEvent::TimedOut ==> r == Err::<HistoResponse, FetchError>(
            FetchError::Timeout,
        ),
        event matches TransportEvent::Failed(m) ==> (r matches Err(e) && e matches
            FetchError::Transport(m2) && m2@ == m@),
        event matches TransportEvent::Completed(b) ==> (match spec_decode(b@) {
            Some(v) => r matches Ok(resp) && resp@ == v,
            None => r == Err::<HistoResponse, FetchError>(FetchError::Decode),
        }),
{
    match event {
        TransportEvent::TimedOut => Err(FetchError::Timeout),
        TransportEvent::Failed(m) => Err(FetchError::Transport(m)),
        TransportEvent::Completed(b) => match decode_histo_response(b.as_slice()) {
            Ok(resp) => Ok(resp),
            Err(_) => Err(FetchError::Decode),
        },
    }
}

} // verus!

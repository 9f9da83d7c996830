//! Token- and value-level scanning of the JSON grammar the decoder accepts:
//! number tokens, and skipping over arbitrary values so that fields the model
//! does not retain are tolerated without being decoded.  String bodies are
//! kept escape-free (see `scan::str_end`).
use vstd::prelude::*;

use crate::scan::digits_end;
use crate::scan::skip_ws;
use crate::scan::skip_ws_x;
use crate::scan::str_end;
use crate::scan::str_end_x;

verus! {

/// The index a scan continues from: the scanned token's end when it moved
/// forward, and the next byte otherwise.  The second arm never holds for the
/// scans used here; it only keeps the recursion below visibly well-founded.
pub open spec fn next_at(s: Seq<u8>, i: int, j: int) -> int {
    if i < j <= s.len() {
        j
    } else {
        i + 1
    }
}

/// End of the fraction part (".digits", or nothing) standing at `j`.
pub open spec fn frac_end(s: Seq<u8>, j: int) -> Option<int> {
    if 0 <= j && j < s.len() && s[j] == 46 {
        let f = digits_end(s, j + 1);
        if f == j + 1 {
            None
        } else {
            Some(f)
        }
    } else {
        Some(j)
    }
}

/// End of the exponent part ("e"/"E", optional sign, digits, or nothing)
/// standing at `j`.
pub open spec fn exp_end(s: Seq<u8>, j: int) -> Option<int> {
    if 0 <= j && j < s.len() && (s[j] == 101 || s[j] == 69) {
        let p = if j + 1 < s.len() && (s[j + 1] == 43 || s[j + 1] == 45) {
            j + 2
        } else {
            j + 1
        };
        let f = digits_end(s, p);
        if f == p {
            None
        } else {
            Some(f)
        }
    } else {
        Some(j)
    }
}

/// End of a JSON number token standing at `i`: optional minus, an integer
/// part without a superfluous leading zero, then optional fraction and
/// exponent parts.
pub open spec fn spec_num_end(s: Seq<u8>, i: int) -> Option<int> {
    let p = if 0 <= i && i < s.len() && s[i] == 45 {
        i + 1
    } else {
        i
    };
    let j = digits_end(s, p);
    if j == p {
        None
    } else if s[p] == 48 && j > p + 1 {
        None
    } else {
        match frac_end(s, j) {
            None => None,
            Some(k) => exp_end(s, k),
        }
    }
}


pub fn num_end_x(s: &[u8], i: usize) -> (r: Option<usize>)
    requires
        i <= s@.len(),
    ensures
        match r {
            Some(e) => spec_num_end(s@, i as int) == Some(e as int) && i < e <= s@.len(),
            None => spec_num_end(s@, i as int) is None,
        },
{
    let n = s.len();
    let p = if i < n && s[i] == 45 {
        i + 1
    } else {
        i
    };
    let j = crate::scan::digits_end_x(s, p);
    if j == p {
        return None;
    }
    if s[p] == 48 && j > p + 1 {
        return None;
    }
    let mut k = j;
    if j < n && s[j] == 46 {
        let f = crate::scan::digits_end_x(s, j + 1);
        if f == j + 1 {
            return None;
        }
        k = f;
    }
    proof {
        assert(frac_end(s@, j as int) == Some(k as int));
    }
    let mut e = k;
    if k < n && (s[k] == 101 || s[k] == 69) {
        let p2 = if k + 1 < n && (s[k + 1] == 43 || s[k + 1] == 45) {
            k + 2
        } else {
            k + 1
        };
        let f2 = crate::scan::digits_end_x(s, p2);
        if f2 == p2 {
            return None;
        }
        e = f2;
    }
    proof {
        assert(exp_end(s@, k as int) == Some(e as int));
    }
    Some(e)
}

/// End of one JSON value standing at `i` (no leading whitespace): a literal,
/// a string, a number, or a nested array or object.  Used to pass over
/// members the model does not retain.
pub open spec fn spec_skip_value(s: Seq<u8>, i: int) -> Option<int>
    decreases s.len() - i, 0int,
{
    if !(0 <= i && i < s.len()) {
        None
    } else if s[i] == 110 {  // null
        if i + 4 <= s.len() && s[i + 1] == 117 && s[i + 2] == 108 && s[i + 3] == 108 {
            Some(i + 4)
        } else {
            None
        }
    } else if s[i] == 116 {  // true
        if i + 4 <= s.len() && s[i + 1] == 114 && s[i + 2] == 117 && s[i + 3] == 101 {
            Some(i + 4)
        } else {
            None
        }
    } else if s[i] == 102 {  // false
        if i + 5 <= s.len() && s[i + 1] == 97 && s[i + 2] == 108 && s[i + 3] == 115 && s[i + 4]
            == 101 {
            Some(i + 5)
        } else {
            None
        }
    } else if s[i] == 34 {  // string
        match str_end(s, i + 1) {
            Some(e) => Some(e + 1),
            None => None,
        }
    } else if s[i] == 91 {  // array
        spec_skip_array_items(s, next_at(s, i, skip_ws(s, i + 1)))
    } else if s[i] == 123 {  // object
        spec_skip_object_members(s, next_at(s, i, skip_ws(s, i + 1)))
    } else {
        spec_num_end(s, i)
    }
}

/// From the start of an array item or the closing bracket, the end of the
/// rest of the array.
pub open spec fn spec_skip_array_items(s: Seq<u8>, i: int) -> Option<int>
    decreases s.len() - i, 1int,
{
    if !(0 <= i && i < s.len()) {
        None
    } else if s[i] == 93 {
        Some(i + 1)
    } else {
        match spec_skip_value(s, i) {
            None => None,
            Some(k) => {
                let m = skip_ws(s, k);
                if m < s.len() && s[m] == 44 {
                    spec_skip_array_items(s, next_at(s, i, skip_ws(s, m + 1)))
                } else if m < s.len() && s[m] == 93 {
                    Some(m + 1)
                } else {
                    None
                }
            },
        }
    }
}

/// From the start of a member key or the closing brace, the end of the rest
/// of the object.
pub open spec fn spec_skip_object_members(s: Seq<u8>, i: int) -> Option<int>
    decreases s.len() - i, 1int,
{
    if !(0 <= i && i < s.len()) {
        None
    } else if s[i] == 125 {
        Some(i + 1)
    } else if s[i] != 34 {
        None
    } else {
        match str_end(s, i + 1) {
            None => None,
            Some(e) => {
                let c = skip_ws(s, e + 1);
                if !(c < s.len() && s[c] == 58) {
                    None
                } else {
                    match spec_skip_value(s, next_at(s, i, skip_ws(s, c + 1))) {
                        None => None,
                        Some(k) => {
                            let m = skip_ws(s, k);
                            if m < s.len() && s[m] == 44 {
                                let n2 = skip_ws(s, m + 1);
                                if n2 < s.len() && s[n2] == 34 {
                                    spec_skip_object_members(s, next_at(s, i, n2))
                                } else {
                                    None
                                }
                            } else if m < s.len() && s[m] == 125 {
                                Some(m + 1)
                            } else {
                                None
                            }
                        },
                    }
                }
            },
        }
    }
}

pub fn skip_value_x(s: &[u8], i: usize) -> (r: Option<usize>)
    requires
        i <= s@.len(),
    ensures
        match r {
            Some(k) => spec_skip_value(s@, i as int) == Some(k as int) && i < k <= s@.len(),
            None => spec_skip_value(s@, i as int) is None,
        },
    decreases s@.len() - i, 0int,
{
    let n = s.len();
    if i >= n {
        return None;
    }
    let b = s[i];
    if b == 110 {
        if n - i >= 4 && s[i + 1] == 117 && s[i + 2] == 108 && s[i + 3] == 108 {
            Some(i + 4)
        } else {
            None
        }
    } else if b == 116 {
        if n - i >= 4 && s[i + 1] == 114 && s[i + 2] == 117 && s[i + 3] == 101 {
            Some(i + 4)
        } else {
            None
        }
    } else if b == 102 {
        if n - i >= 5 && s[i + 1] == 97 && s[i + 2] == 108 && s[i + 3] == 115 && s[i + 4] == 101 {
            Some(i + 5)
        } else {
            None
        }
    } else if b == 34 {
        match str_end_x(s, i + 1) {
            Some(e) => Some(e + 1),
            None => None,
        }
    } else if b == 91 {
        let j = skip_ws_x(s, i + 1);
        proof {
            assert(next_at(s@, i as int, skip_ws(s@, i + 1 as int)) == j as int);
        }
        skip_array_items_x(s, j)
    } else if b == 123 {
        let j = skip_ws_x(s, i + 1);
        proof {
            assert(next_at(s@, i as int, skip_ws(s@, i + 1 as int)) == j as int);
        }
        skip_object_members_x(s, j)
    } else {
        num_end_x(s, i)
    }
}

pub fn skip_array_items_x(s: &[u8], i: usize) -> (r: Option<usize>)
    requires
        i <= s@.len(),
    ensures
        match r {
            Some(k) => spec_skip_array_items(s@, i as int) == Some(k as int) && i < k <= s@.len(),
            None => spec_skip_array_items(s@, i as int) is None,
        },
    decreases s@.len() - i, 1int,
{
    let n = s.len();
    if i >= n {
        return None;
    }
    if s[i] == 93 {
        return Some(i + 1);
    }
    match skip_value_x(s, i) {
        None => None,
        Some(k) => {
            let m = skip_ws_x(s, k);
            if m < n && s[m] == 44 {
                let j = skip_ws_x(s, m + 1);
                proof {
                    assert(next_at(s@, i as int, skip_ws(s@, m + 1 as int)) == j as int);
                }
                skip_array_items_x(s, j)
            } else if m < n && s[m] == 93 {
                Some(m + 1)
            } else {
                None
            }
        },
    }
}

pub fn skip_object_members_x(s: &[u8], i: usize) -> (r: Option<usize>)
    requires
        i <= s@.len(),
    ensures
        match r {
            Some(k) => spec_skip_object_members(s@, i as int) == Some(k as int) && i < k
                <= s@.len(),
            None => spec_skip_object_members(s@, i as int) is None,
        },
    decreases s@.len() - i, 1int,
{
    let n = s.len();
    if i >= n {
        return None;
    }
    if s[i] == 125 {
        return Some(i + 1);
    }
    if s[i] != 34 {
        return None;
    }
    match str_end_x(s, i + 1) {
        None => None,
        Some(e) => {
            let c = skip_ws_x(s, e + 1);
            if !(c < n && s[c] == 58) {
                return None;
            }
            let v = skip_ws_x(s, c + 1);
            proof {
                assert(next_at(s@, i as int, skip_ws(s@, c + 1 as int)) == v as int);
            }
            match skip_value_x(s, v) {
                None => None,
                Some(k) => {
                    let m = skip_ws_x(s, k);
                    if m < n && s[m] == 44 {
                        let n2 = skip_ws_x(s, m + 1);
                        if n2 < n && s[n2] == 34 {
                            proof {
                                assert(next_at(s@, i as int, n2 as int) == n2 as int);
                            }
                            skip_object_members_x(s, n2)
                        } else {
                            None
                        }
                    } else if m < n && s[m] == 125 {
                        Some(m + 1)
                    } else {
                        None
                    }
                },
            }
        },
    }
}

} // verus!

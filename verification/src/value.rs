//! The numeric value of a reading, kept as its validated wire token: a
//! decimal floating-point literal such as `21.5`, `-3`, `.5` or `1.2e-3`.
//! Keeping the token itself avoids the sentinel ambiguity of a default zero
//! and makes the store round-trip exact.
use vstd::prelude::*;
use crate::scan::{is_digit, digit_run, lemma_digit_run_bounds, digits_from};

verus! {

/// `e` or `E`, the exponent marker.
pub open spec fn exp_marker(b: u8) -> bool {
    b == 101 || b == 69
}

/// `+` or `-`.
pub open spec fn sign_byte(b: u8) -> bool {
    b == 43 || b == 45
}

/// `s` without its leading sign, if it has one.
pub open spec fn strip_sign(s: Seq<u8>) -> Seq<u8> {
    if s.len() > 0 && sign_byte(s[0]) {
        s.skip(1)
    } else {
        s
    }
}

/// An exponent part: a marker, an optional sign, one or more digits.
pub open spec fn is_exponent(s: Seq<u8>) -> bool {
    s.len() > 0 && exp_marker(s[0]) && {
        let d = strip_sign(s.skip(1));
        d.len() > 0 && digit_run(d) == d.len()
    }
}

/// A decimal floating-point literal: an optional sign, then digits with an
/// optional fractional part (at least one digit in the two together), then an
/// optional exponent part.
pub open spec fn is_float_token(s: Seq<u8>) -> bool {
    let u = strip_sign(s);
    let d = digit_run(u);
    let r1 = u.skip(d);
    if r1.len() > 0 && r1[0] == 46 {
        let f = digit_run(r1.skip(1));
        let r2 = r1.skip(1).skip(f);
        d + f > 0 && (r2.len() == 0 || is_exponent(r2))
    } else {
        d > 0 && (r1.len() == 0 || is_exponent(r1))
    }
}

/// A byte a float literal may hold: digit, sign, point or exponent marker.
pub open spec fn value_byte(b: u8) -> bool {
    is_digit(b) || sign_byte(b) || b == 46 || exp_marker(b)
}

proof fn lemma_exponent_bytes(s: Seq<u8>)
    requires
        is_exponent(s),
    ensures
        forall|i: int| 0 <= i < s.len() ==> value_byte(s[i]),
{
    let t = s.skip(1);
    let d = strip_sign(t);
    lemma_digit_run_bounds(d);
    assert forall|i: int| 0 <= i < s.len() implies value_byte(s[i]) by {
        if i == 0 {
        } else if t.len() > 0 && sign_byte(t[0]) && i == 1 {
            assert(s[i] == t[0]);
        } else {
            let off: int = if t.len() > 0 && sign_byte(t[0]) { 2 } else { 1 };
            assert(d[i - off] == s[i]);
            assert(is_digit(d[i - off]));
        }
    }
}

/// Every byte of a float literal is a digit, a sign, a point or a marker; in
/// particular none is a delimiter of the store format or a line terminator.
pub proof fn lemma_float_token_bytes(s: Seq<u8>)
    requires
        is_float_token(s),
    ensures
        s.len() > 0,
        forall|i: int| 0 <= i < s.len() ==> value_byte(s[i]),
{
    let u = strip_sign(s);
    let d = digit_run(u);
    lemma_digit_run_bounds(u);
    let r1 = u.skip(d);
    let off: int = if s.len() > 0 && sign_byte(s[0]) { 1 } else { 0 };
    assert forall|i: int| 0 <= i < s.len() implies value_byte(s[i]) by {
        if i < off {
        } else {
            let j = i - off;
            assert(u[j] == s[i]);
            if j < d {
                assert(is_digit(u[j]));
            } else {
                assert(r1[j - d] == u[j]);
                if r1.len() > 0 && r1[0] == 46 {
                    let f = digit_run(r1.skip(1));
                    lemma_digit_run_bounds(r1.skip(1));
                    let r2 = r1.skip(1).skip(f);
                    if j - d == 0 {
                    } else if j - d - 1 < f {
                        assert(r1.skip(1)[j - d - 1] == r1[j - d]);
                        assert(is_digit(r1.skip(1)[j - d - 1]));
                    } else {
                        assert(r2[j - d - 1 - f] == r1.skip(1)[j - d - 1]);
                        lemma_exponent_bytes(r2);
                    }
                } else {
                    lemma_exponent_bytes(r1);
                }
            }
        }
    }
}

/// Whether `v[from..]` is an exponent part reaching the end of `v`.
fn check_exponent(v: &Vec<u8>, from: usize) -> (r: bool)
    requires
        from <= v.len(),
    ensures
        r == is_exponent(v@.skip(from as int)),
{
    let n = v.len();
    if from >= n {
        return false;
    }
    if !(v[from] == 101 || v[from] == 69) {
        return false;
    }
    let mut j = from + 1;
    if j < n && (v[j] == 43 || v[j] == 45) {
        j = j + 1;
    }
    let e_end = digits_from(v, j);
    proof {
        let s = v@.skip(from as int);
        let t = s.skip(1);
        assert(t =~= v@.skip(from + 1));
        if from + 1 < n && sign_byte(v@[from + 1]) {
            assert(t[0] == v@[from + 1]);
            assert(strip_sign(t) =~= v@.skip(j as int));
        } else {
            assert(strip_sign(t) =~= v@.skip(j as int));
        }
    }
    e_end == n && j < n
}

/// Whether `v` holds a decimal floating-point literal.
pub fn check_float_token(v: &Vec<u8>) -> (r: bool)
    ensures
        r == is_float_token(v@),
{
    let n = v.len();
    let mut start: usize = 0;
    if n > 0 && (v[0] == 43 || v[0] == 45) {
        start = 1;
    }
    proof {
        assert(strip_sign(v@) =~= v@.skip(start as int));
    }
    let d_end = digits_from(v, start);
    proof {
        let u = v@.skip(start as int);
        assert(u.skip(d_end - start) =~= v@.skip(d_end as int));
    }
    if d_end < n && v[d_end] == 46 {
        let f_end = digits_from(v, d_end + 1);
        proof {
            let r1 = v@.skip(d_end as int);
            assert(r1[0] == v@[d_end as int]);
            assert(r1.skip(1) =~= v@.skip(d_end + 1));
            assert(r1.skip(1).skip(f_end - (d_end + 1)) =~= v@.skip(f_end as int));
        }
        let has_mantissa = d_end > start || f_end > d_end + 1;
        if f_end == n {
            has_mantissa
        } else {
            has_mantissa && check_exponent(v, f_end)
        }
    } else {
        proof {
            let r1 = v@.skip(d_end as int);
            if d_end < n {
                assert(r1[0] == v@[d_end as int]);
            }
        }
        if d_end == start {
            false
        } else if d_end == n {
            true
        } else {
            check_exponent(v, d_end)
        }
    }
}

/// One reading's value as it stood on the wire: a validated decimal literal.
pub struct ValueToken {
    pub bytes: Vec<u8>,
}

impl View for ValueToken {
    type V = Seq<u8>;

    open spec fn view(&self) -> Seq<u8> {
        self.bytes@
    }
}

impl ValueToken {
    /// A well-formed token holds a decimal floating-point literal.
    pub open spec fn wf(&self) -> bool {
        is_float_token(self@)
    }

    /// Validate `bytes` as a value token.
    pub fn new(bytes: Vec<u8>) -> (r: Option<ValueToken>)
        ensures
            r is Some <==> is_float_token(bytes@),
            r matches Some(t) ==> t@ == bytes@ && t.wf(),
    {
        if check_float_token(&bytes) {
            Some(ValueToken { bytes })
        } else {
            None
        }
    }

    /// An identical copy of the token.
    pub fn duplicate(&self) -> (r: ValueToken)
        ensures
            r@ == self@,
    {
        let b = self.bytes.clone();
        proof {
            assert(b@ =~= self.bytes@);
        }
        ValueToken { bytes: b }
    }
}

} // verus!

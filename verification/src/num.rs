//! Numeric parsing of shell output lines (decimal, or hexadecimal behind a
//! `0x` prefix) and rendering of numbers into the decimal and hexadecimal
//! byte strings that the wire protocol and the shell command lines carry.

use vstd::prelude::*;
use vstd::string::StringSliceAdditionalSpecFns;

use crate::text::{spec_starts_with, spec_trim, trim};

verus! {

pub open spec fn is_dec_digit(b: u8) -> bool {
    0x30 <= b <= 0x39
}

pub open spec fn is_hex_digit(b: u8) -> bool {
    is_dec_digit(b) || (0x61 <= b <= 0x66) || (0x41 <= b <= 0x46)
}

pub open spec fn hex_digit_val(b: u8) -> int {
    if is_dec_digit(b) {
        b - 0x30
    } else if 0x61 <= b <= 0x66 {
        b - 0x61 + 10
    } else {
        b - 0x41 + 10
    }
}

pub open spec fn all_dec_digits(s: Seq<u8>) -> bool {
    forall|i: int| 0 <= i < s.len() ==> is_dec_digit(s[i])
}

pub open spec fn all_hex_digits(s: Seq<u8>) -> bool {
    forall|i: int| 0 <= i < s.len() ==> is_hex_digit(s[i])
}

/// The value of a decimal digit string, most significant digit first.
pub open spec fn dec_val(s: Seq<u8>) -> int
    decreases s.len(),
{
    if s.len() == 0 {
        0
    } else {
        dec_val(s.take(s.len() - 1)) * 10 + (s.last() - 0x30)
    }
}

/// The value of a hexadecimal digit string, most significant digit first.
pub open spec fn hex_val(s: Seq<u8>) -> int
    decreases s.len(),
{
    if s.len() == 0 {
        0
    } else {
        hex_val(s.take(s.len() - 1)) * 16 + hex_digit_val(s.last())
    }
}

/// An optional leading plus sign removed.
pub open spec fn spec_strip_plus(s: Seq<u8>) -> Seq<u8> {
    if s.len() > 0 && s[0] == 0x2b {
        s.skip(1)
    } else {
        s
    }
}

/// The number a shell output line denotes: surrounding whitespace is
/// ignored, a `0x` prefix selects base sixteen, base ten otherwise, an
/// optional `+` sign is allowed, and anything malformed or beyond the
/// machine word is no number.
pub open spec fn spec_parse_int(s: Seq<u8>) -> Option<int> {
    let t = spec_trim(s);
    if spec_starts_with(t, seq![0x30u8, 0x78u8]) {
        let body = spec_strip_plus(t.skip(2));
        if body.len() > 0 && all_hex_digits(body) && hex_val(body) <= usize::MAX {
            Some(hex_val(body))
        } else {
            None
        }
    } else {
        let body = spec_strip_plus(t);
        if body.len() > 0 && all_dec_digits(body) && dec_val(body) <= usize::MAX {
            Some(dec_val(body))
        } else {
            None
        }
    }
}

proof fn lemma_dec_val_nonneg(s: Seq<u8>)
    requires
        all_dec_digits(s),
    ensures
        dec_val(s) >= 0,
    decreases s.len(),
{
    if s.len() > 0 {
        assert(forall|i: int| 0 <= i < s.len() - 1 ==> is_dec_digit(#[trigger] s.take(
            s.len() - 1,
        )[i]));
        lemma_dec_val_nonneg(s.take(s.len() - 1));
    }
}

proof fn lemma_hex_val_nonneg(s: Seq<u8>)
    requires
        all_hex_digits(s),
    ensures
        hex_val(s) >= 0,
    decreases s.len(),
{
    if s.len() > 0 {
        assert(forall|i: int| 0 <= i < s.len() - 1 ==> is_hex_digit(#[trigger] s.take(
            s.len() - 1,
        )[i]));
        lemma_hex_val_nonneg(s.take(s.len() - 1));
    }
}

/// Digit-string values grow along prefixes.
proof fn lemma_dec_val_prefix_le(s: Seq<u8>, i: int)
    requires
        all_dec_digits(s),
        0 <= i <= s.len(),
    ensures
        dec_val(s.take(i)) <= dec_val(s),
    decreases s.len() - i,
{
    if i < s.len() {
        assert(forall|j: int| 0 <= j < s.len() - 1 ==> is_dec_digit(#[trigger] s.take(
            s.len() - 1,
        )[j]));
        lemma_dec_val_prefix_le(s.take(s.len() - 1), i);
        assert(s.take(s.len() - 1).take(i) =~= s.take(i));
        lemma_dec_val_nonneg(s.take(s.len() - 1));
        assert(dec_val(s) >= dec_val(s.take(s.len() - 1)));
    } else {
        assert(s.take(i) =~= s);
    }
}

proof fn lemma_hex_val_prefix_le(s: Seq<u8>, i: int)
    requires
        all_hex_digits(s),
        0 <= i <= s.len(),
    ensures
        hex_val(s.take(i)) <= hex_val(s),
    decreases s.len() - i,
{
    if i < s.len() {
        assert(forall|j: int| 0 <= j < s.len() - 1 ==> is_hex_digit(#[trigger] s.take(
            s.len() - 1,
        )[j]));
        lemma_hex_val_prefix_le(s.take(s.len() - 1), i);
        assert(s.take(s.len() - 1).take(i) =~= s.take(i));
        lemma_hex_val_nonneg(s.take(s.len() - 1));
        assert(hex_val(s) >= hex_val(s.take(s.len() - 1)));
    } else {
        assert(s.take(i) =~= s);
    }
}

/// Parses the accumulated value of a pure decimal digit string, detecting
/// overflow past the machine word.
fn parse_dec_digits(s: &[u8]) -> (r: Option<usize>)
    requires
        all_dec_digits(s@),
        s@.len() > 0,
    ensures
        match r {
            Some(v) => dec_val(s@) == v,
            None => dec_val(s@) > usize::MAX,
        },
{
    let mut acc: usize = 0;
    let mut i: usize = 0;
    proof {
        assert(s@.take(0) =~= Seq::<u8>::empty());
    }
    while i < s.len()
        invariant
            all_dec_digits(s@),
            i <= s@.len(),
            acc == dec_val(s@.take(i as int)),
        decreases s@.len() - i,
    {
        let d = (s[i] - 0x30) as usize;
        if acc > usize::MAX / 10 {
            proof {
                assert(acc * 10 + d > usize::MAX) by (nonlinear_arith)
                    requires
                        acc > usize::MAX / 10,
                        usize::MAX == 10 * (usize::MAX / 10) + 5,
                        d >= 0,
                ;
                assert(s@.take(i + 1).take(i as int) =~= s@.take(i as int));
                assert(dec_val(s@.take(i + 1)) > usize::MAX);
                lemma_dec_val_prefix_le(s@, i + 1);
            }
            return None;
        }
        let acc10 = acc * 10;
        proof {
            assert(acc10 <= usize::MAX - 5) by (nonlinear_arith)
                requires
                    acc <= usize::MAX / 10,
                    acc10 == acc * 10,
                    usize::MAX == 10 * (usize::MAX / 10) + 5,
            ;
        }
        if d > usize::MAX - acc10 {
            proof {
                assert(s@.take(i + 1).take(i as int) =~= s@.take(i as int));
                assert(s@.take(i + 1).last() == s@[i as int]);
                assert(dec_val(s@.take(i + 1)) > usize::MAX);
                lemma_dec_val_prefix_le(s@, i + 1);
            }
            return None;
        }
        acc = acc10 + d;
        proof {
            assert(s@.take(i + 1).take(i as int) =~= s@.take(i as int));
            assert(s@.take(i + 1).last() == s@[i as int]);
        }
        i = i + 1;
    }
    proof {
        assert(s@.take(i as int) =~= s@);
    }
    Some(acc)
}

/// Parses the accumulated value of a pure hexadecimal digit string,
/// detecting overflow past the machine word.
fn parse_hex_digits(s: &[u8]) -> (r: Option<usize>)
    requires
        all_hex_digits(s@),
        s@.len() > 0,
    ensures
        match r {
            Some(v) => hex_val(s@) == v,
            None => hex_val(s@) > usize::MAX,
        },
{
    let mut acc: usize = 0;
    let mut i: usize = 0;
    proof {
        assert(s@.take(0) =~= Seq::<u8>::empty());
    }
    while i < s.len()
        invariant
            all_hex_digits(s@),
            i <= s@.len(),
            acc == hex_val(s@.take(i as int)),
        decreases s@.len() - i,
    {
        let c = s[i];
        let d: usize = if c >= 0x61 {
            (c - 0x61 + 10) as usize
        } else if c >= 0x41 && c <= 0x46 {
            (c - 0x41 + 10) as usize
        } else {
            (c - 0x30) as usize
        };
        proof {
            assert(d == hex_digit_val(s@[i as int]));
            assert(d <= 15);
        }
        if acc > usize::MAX / 16 {
            proof {
                assert(acc * 16 + d > usize::MAX) by (nonlinear_arith)
                    requires
                        acc > usize::MAX / 16,
                        usize::MAX == 16 * (usize::MAX / 16) + 15,
                        d >= 0,
                ;
                assert(s@.take(i + 1).take(i as int) =~= s@.take(i as int));
                assert(hex_val(s@.take(i + 1)) > usize::MAX);
                lemma_hex_val_prefix_le(s@, i + 1);
            }
            return None;
        }
        let acc16 = acc * 16;
        proof {
            assert(acc16 <= usize::MAX - 15) by (nonlinear_arith)
                requires
                    acc <= usize::MAX / 16,
                    acc16 == acc * 16,
                    usize::MAX == 16 * (usize::MAX / 16) + 15,
            ;
        }
        acc = acc16 + d;
        proof {
            assert(s@.take(i + 1).take(i as int) =~= s@.take(i as int));
            assert(s@.take(i + 1).last() == s@[i as int]);
        }
        i = i + 1;
    }
    proof {
        assert(s@.take(i as int) =~= s@);
    }
    Some(acc)
}

fn all_dec_digits_exec(s: &[u8]) -> (r: bool)
    ensures
        r == all_dec_digits(s@),
{
    let mut i: usize = 0;
    while i < s.len()
        invariant
            i <= s@.len(),
            forall|j: int| 0 <= j < i ==> is_dec_digit(s@[j]),
        decreases s@.len() - i,
    {
        let c = s[i];
        if !(c >= 0x30 && c <= 0x39) {
            return false;
        }
        i = i + 1;
    }
    true
}

fn all_hex_digits_exec(s: &[u8]) -> (r: bool)
    ensures
        r == all_hex_digits(s@),
{
    let mut i: usize = 0;
    while i < s.len()
        invariant
            i <= s@.len(),
            forall|j: int| 0 <= j < i ==> is_hex_digit(s@[j]),
        decreases s@.len() - i,
    {
        let c = s[i];
        if !((c >= 0x30 && c <= 0x39) || (c >= 0x61 && c <= 0x66) || (c >= 0x41 && c <= 0x46)) {
            return false;
        }
        i = i + 1;
    }
    true
}

/// Parses a shell output line as an unsigned number: decimal, or
/// hexadecimal behind a `0x` prefix; `None` on anything malformed.
pub fn parse_int_bytes(line: &[u8]) -> (r: Option<usize>)
    ensures
        match r {
            Some(v) => spec_parse_int(line@) == Some(v as int),
            None => spec_parse_int(line@) == None::<int>,
        },
{
    let t = trim(line);
    let ts = t.as_slice();
    let body: Vec<u8>;
    let hex: bool;
    if ts.len() >= 2 && ts[0] == 0x30 && ts[1] == 0x78 {
        proof {
            assert(t@.take(2) =~= seq![0x30u8, 0x78u8]);
        }
        hex = true;
        let after = crate::text::copy_range(ts, 2, ts.len());
        proof {
            assert(after@ =~= t@.skip(2));
        }
        body = strip_plus(after.as_slice());
    } else {
        proof {
            if t@.len() >= 2 && t@.take(2) == seq![0x30u8, 0x78u8] {
                assert(t@.take(2)[0] == 0x30 && t@.take(2)[1] == 0x78);
                assert(false);
            }
        }
        hex = false;
        body = strip_plus(ts);
    }
    if body.len() == 0 {
        return None;
    }
    if hex {
        if !all_hex_digits_exec(body.as_slice()) {
            return None;
        }
        parse_hex_digits(body.as_slice())
    } else {
        if !all_dec_digits_exec(body.as_slice()) {
            return None;
        }
        parse_dec_digits(body.as_slice())
    }
}

fn strip_plus(s: &[u8]) -> (r: Vec<u8>)
    ensures
        r@ == spec_strip_plus(s@),
{
    if s.len() > 0 && s[0] == 0x2b {
        let r = crate::text::copy_range(s, 1, s.len());
        proof {
            assert(r@ =~= s@.skip(1));
        }
        r
    } else {
        crate::text::copy_range(s, 0, s.len())
    }
}

/// Parses a shell output line as an unsigned number: decimal, or
/// hexadecimal behind a `0x` prefix; `None` on anything malformed or too
/// large for the machine word.
pub fn parse_int(line: &str) -> (r: Option<usize>)
    ensures
        match r {
            Some(v) => spec_parse_int(line.spec_bytes()) == Some(v as int),
            None => spec_parse_int(line.spec_bytes()) == None::<int>,
        },
{
    parse_int_bytes(line.as_bytes())
}

/// The decimal digit string of `n`, most significant digit first.
pub open spec fn spec_dec_bytes(n: int) -> Seq<u8>
    decreases n,
{
    if n < 0 {
        Seq::empty()
    } else if n < 10 {
        seq![(0x30 + n) as u8]
    } else {
        spec_dec_bytes(n / 10) + seq![(0x30 + n % 10) as u8]
    }
}

/// The lowercase hexadecimal digit string of `n`, most significant digit
/// first.
pub open spec fn spec_hex_bytes(n: int) -> Seq<u8>
    decreases n,
{
    if n < 0 {
        Seq::empty()
    } else if n < 16 {
        seq![spec_hex_digit(n)]
    } else {
        spec_hex_bytes(n / 16) + seq![spec_hex_digit(n % 16)]
    }
}

pub open spec fn spec_hex_digit(d: int) -> u8 {
    if d < 10 {
        (0x30 + d) as u8
    } else {
        (0x61 + (d - 10)) as u8
    }
}

/// Renders `n` as its decimal digit string.
pub fn dec_bytes(n: usize) -> (r: Vec<u8>)
    ensures
        r@ == spec_dec_bytes(n as int),
    decreases n,
{
    if n < 10 {
        let mut v: Vec<u8> = Vec::new();
        v.push(0x30 + (n as u8));
        proof {
            assert(v@ =~= spec_dec_bytes(n as int));
        }
        v
    } else {
        let mut v = dec_bytes(n / 10);
        v.push(0x30 + ((n % 10) as u8));
        proof {
            assert(v@ =~= spec_dec_bytes(n as int));
        }
        v
    }
}

/// Renders `n` as its lowercase hexadecimal digit string.
pub fn hex_bytes(n: usize) -> (r: Vec<u8>)
    ensures
        r@ == spec_hex_bytes(n as int),
    decreases n,
{
    if n < 16 {
        let d = n as u8;
        let mut v: Vec<u8> = Vec::new();
        if d < 10 {
            v.push(0x30 + d);
        } else {
            v.push(0x61 + (d - 10));
        }
        proof {
            assert(v@ =~= spec_hex_bytes(n as int));
        }
        v
    } else {
        let mut v = hex_bytes(n / 16);
        let d = (n % 16) as u8;
        if d < 10 {
            v.push(0x30 + d);
        } else {
            v.push(0x61 + (d - 10));
        }
        proof {
            assert(v@ =~= spec_hex_bytes(n as int));
        }
        v
    }
}

/// Every decimal numeral — digits, possibly surrounded by white space —
/// that fits the machine word parses to its value: no valid decimal
/// number is ever rejected.
pub proof fn lemma_parse_int_decimal(s: Seq<u8>)
    requires
        spec_trim(s).len() > 0,
        all_dec_digits(spec_trim(s)),
        dec_val(spec_trim(s)) <= usize::MAX,
    ensures
        spec_parse_int(s) == Some(dec_val(spec_trim(s))),
{
    let t = spec_trim(s);
    if spec_starts_with(t, seq![0x30u8, 0x78u8]) {
        assert(t.take(2)[1] == 0x78);
        assert(is_dec_digit(t[1]));
        assert(false);
    }
    assert(t[0] != 0x2b);
    assert(spec_strip_plus(t) == t);
}

/// Every `0x`-prefixed hexadecimal numeral — possibly surrounded by white
/// space — that fits the machine word parses to its value.
pub proof fn lemma_parse_int_hex(s: Seq<u8>)
    requires
        spec_trim(s).len() > 2,
        spec_trim(s)[0] == 0x30,
        spec_trim(s)[1] == 0x78,
        all_hex_digits(spec_trim(s).skip(2)),
        hex_val(spec_trim(s).skip(2)) <= usize::MAX,
    ensures
        spec_parse_int(s) == Some(hex_val(spec_trim(s).skip(2))),
{
    let t = spec_trim(s);
    assert(t.take(2) =~= seq![0x30u8, 0x78u8]);
    let body = t.skip(2);
    assert(body.len() > 0);
    assert(body[0] != 0x2b);
    assert(spec_strip_plus(body) == body);
}

/// A line with a byte that is neither a digit nor part of the accepted
/// number shape yields no number: here, any line of pure non-digits.
pub proof fn lemma_parse_int_rejects(s: Seq<u8>)
    requires
        forall|i: int|
            0 <= i < s.len() ==> !is_hex_digit(s[i]) && s[i] != 0x2b && !crate::text::is_ws(s[i]),
    ensures
        spec_parse_int(s) == None::<int>,
{
    let t = spec_trim(s);
    lemma_trim_subset(s);
    if spec_starts_with(t, seq![0x30u8, 0x78u8]) {
        assert(t.take(2)[0] == 0x30);
        assert(is_hex_digit(0x30));
        assert(false);
    }
    let body = spec_strip_plus(t);
    if body.len() > 0 && all_dec_digits(body) {
        assert(is_dec_digit(body[0]));
        if t.len() > 0 && t[0] == 0x2b {
            assert(body[0] == t.skip(1)[0]);
        }
        assert(false);
    }
}

/// Trimming keeps every byte a byte of the original sequence.
proof fn lemma_trim_subset(s: Seq<u8>)
    ensures
        forall|i: int|
            0 <= i < spec_trim(s).len() ==> exists|j: int|
                0 <= j < s.len() && s[j] == #[trigger] spec_trim(s)[i],
{
    lemma_trim_end_subset(s);
    lemma_trim_start_subset(spec_trim_end_of(s));
    assert forall|i: int| 0 <= i < spec_trim(s).len() implies exists|j: int|
        0 <= j < s.len() && s[j] == #[trigger] spec_trim(s)[i] by {
        let t1 = spec_trim_end_of(s);
        assert(exists|j: int| 0 <= j < t1.len() && t1[j] == spec_trim(s)[i]);
        let j1 = choose|j: int| 0 <= j < t1.len() && t1[j] == spec_trim(s)[i];
        assert(exists|j: int| 0 <= j < s.len() && s[j] == t1[j1]);
    }
}

/// Short name so the helper lemmas below read well.
spec fn spec_trim_end_of(s: Seq<u8>) -> Seq<u8> {
    crate::text::spec_trim_end(s)
}

proof fn lemma_trim_end_subset(s: Seq<u8>)
    ensures
        forall|i: int|
            0 <= i < spec_trim_end_of(s).len() ==> exists|j: int|
                0 <= j < s.len() && s[j] == #[trigger] spec_trim_end_of(s)[i],
    decreases s.len(),
{
    if s.len() > 0 && crate::text::is_ws(s.last()) {
        lemma_trim_end_subset(s.take(s.len() - 1));
        assert forall|i: int| 0 <= i < spec_trim_end_of(s).len() implies exists|j: int|
            0 <= j < s.len() && s[j] == #[trigger] spec_trim_end_of(s)[i] by {
            let t = s.take(s.len() - 1);
            assert(spec_trim_end_of(s) == spec_trim_end_of(t));
            let j1 = choose|j: int| 0 <= j < t.len() && t[j] == spec_trim_end_of(t)[i];
            assert(s[j1] == t[j1]);
        }
    }
}

proof fn lemma_trim_start_subset(s: Seq<u8>)
    ensures
        forall|i: int|
            0 <= i < crate::text::spec_trim_start(s).len() ==> exists|j: int|
                0 <= j < s.len() && s[j] == #[trigger] crate::text::spec_trim_start(s)[i],
    decreases s.len(),
{
    if s.len() > 0 && crate::text::is_ws(s[0]) {
        lemma_trim_start_subset(s.skip(1));
        assert forall|i: int| 0 <= i < crate::text::spec_trim_start(s).len() implies exists|
            j: int,
        | 0 <= j < s.len() && s[j] == #[trigger] crate::text::spec_trim_start(s)[i] by {
            let t = s.skip(1);
            assert(crate::text::spec_trim_start(s) == crate::text::spec_trim_start(t));
            let j1 = choose|j: int| 0 <= j < t.len() && t[j] == crate::text::spec_trim_start(t)[i];
            assert(s[j1 + 1] == t[j1]);
        }
    }
}

} // verus!

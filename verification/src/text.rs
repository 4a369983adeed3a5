//! Byte-level text helpers used to delimit and clean shell output: trimming
//! of surrounding whitespace, suffix and prefix stripping against the prompt
//! and the success marker, line selection, and substring search. Exec
//! functions mirror their spec counterparts exactly.

use vstd::prelude::*;

verus! {

/// The white space bytes that trimming removes.
pub open spec fn is_ws(b: u8) -> bool {
    b == 0x20 || b == 0x09 || b == 0x0a || b == 0x0d || b == 0x0c
}

pub open spec fn spec_trim_start(s: Seq<u8>) -> Seq<u8>
    decreases s.len(),
{
    if s.len() > 0 && is_ws(s[0]) {
        spec_trim_start(s.skip(1))
    } else {
        s
    }
}

pub open spec fn spec_trim_end(s: Seq<u8>) -> Seq<u8>
    decreases s.len(),
{
    if s.len() > 0 && is_ws(s.last()) {
        spec_trim_end(s.take(s.len() - 1))
    } else {
        s
    }
}

/// Whitespace removed from both ends.
pub open spec fn spec_trim(s: Seq<u8>) -> Seq<u8> {
    spec_trim_start(spec_trim_end(s))
}

pub open spec fn spec_ends_with(s: Seq<u8>, p: Seq<u8>) -> bool {
    s.len() >= p.len() && s.skip(s.len() - p.len()) == p
}

pub open spec fn spec_starts_with(s: Seq<u8>, p: Seq<u8>) -> bool {
    s.len() >= p.len() && s.take(p.len() as int) == p
}

/// Every trailing repetition of `p` removed, as `str::trim_end_matches` does.
pub open spec fn spec_trim_end_matches(s: Seq<u8>, p: Seq<u8>) -> Seq<u8>
    decreases s.len(),
{
    if p.len() > 0 && spec_ends_with(s, p) {
        spec_trim_end_matches(s.take(s.len() - p.len()), p)
    } else {
        s
    }
}

/// Every leading repetition of `p` removed, as `str::trim_start_matches`
/// does.
pub open spec fn spec_trim_start_matches(s: Seq<u8>, p: Seq<u8>) -> Seq<u8>
    decreases s.len(),
{
    if p.len() > 0 && spec_starts_with(s, p) {
        spec_trim_start_matches(s.skip(p.len() as int), p)
    } else {
        s
    }
}

/// True when some contiguous run of `s` equals `p`.
pub open spec fn spec_contains_seq(s: Seq<u8>, p: Seq<u8>) -> bool {
    exists|i: int|
        0 <= i && i + p.len() <= s.len() && #[trigger] s.subrange(i, i + p.len() as int) == p
}

/// A line counts as blank when it holds only white space.
pub open spec fn spec_is_blank(s: Seq<u8>) -> bool {
    forall|i: int| 0 <= i < s.len() ==> is_ws(s[i])
}

/// The position of the last newline byte of `s`, if any.
pub open spec fn spec_rfind_nl(s: Seq<u8>) -> Option<int>
    decreases s.len(),
{
    if s.len() == 0 {
        None
    } else if s[s.len() - 1] == 0x0a {
        Some(s.len() - 1)
    } else {
        spec_rfind_nl(s.take(s.len() - 1))
    }
}

/// What `spec_rfind_nl` finds is the last newline.
pub proof fn lemma_rfind_nl(s: Seq<u8>)
    ensures
        match spec_rfind_nl(s) {
            Some(k) => 0 <= k < s.len() && s[k] == 0x0a && (forall|j: int|
                k < j < s.len() ==> s[j] != 0x0a),
            None => forall|j: int| 0 <= j < s.len() ==> s[j] != 0x0a,
        },
    decreases s.len(),
{
    if s.len() > 0 && s[s.len() - 1] != 0x0a {
        let t = s.take(s.len() - 1);
        lemma_rfind_nl(t);
        assert(forall|j: int| 0 <= j < t.len() ==> t[j] == s[j]);
    }
}

/// The last newline-separated segment of `s` that is not blank, as splitting
/// on the newline byte and keeping the last non-blank piece.
pub open spec fn spec_last_nonblank_line(s: Seq<u8>) -> Option<Seq<u8>>
    decreases s.len(),
    via spec_last_nonblank_line_decreases
{
    match spec_rfind_nl(s) {
        Some(k) => if !spec_is_blank(s.skip(k + 1)) {
            Some(s.skip(k + 1))
        } else {
            spec_last_nonblank_line(s.take(k))
        },
        None => if !spec_is_blank(s) {
            Some(s)
        } else {
            None
        },
    }
}

#[via_fn]
proof fn spec_last_nonblank_line_decreases(s: Seq<u8>) {
    lemma_rfind_nl(s);
}

/// A newline-free tail does not move the last newline.
proof fn lemma_rfind_nl_take(s: Seq<u8>, n: int)
    requires
        0 <= n <= s.len(),
        forall|j: int| n <= j < s.len() ==> s[j] != 0x0a,
    ensures
        spec_rfind_nl(s) == spec_rfind_nl(s.take(n)),
    decreases s.len() - n,
{
    if n < s.len() {
        assert(s[s.len() - 1] != 0x0a);
        assert(forall|j: int| n <= j < s.len() - 1 ==> #[trigger] s.take(s.len() - 1)[j] != 0x0a);
        lemma_rfind_nl_take(s.take(s.len() - 1), n);
        assert(s.take(s.len() - 1).take(n) =~= s.take(n));
    } else {
        assert(s.take(n) =~= s);
    }
}

/// True when `c` is a white space byte.
pub fn is_ws_byte(c: u8) -> (r: bool)
    ensures
        r == is_ws(c),
{
    c == 0x20 || c == 0x09 || c == 0x0a || c == 0x0d || c == 0x0c
}

/// True when `s` ends with `p`.
pub fn ends_with(s: &[u8], p: &[u8]) -> (r: bool)
    ensures
        r == spec_ends_with(s@, p@),
{
    if s.len() < p.len() {
        return false;
    }
    let off = s.len() - p.len();
    let mut i: usize = 0;
    while i < p.len()
        invariant
            s@.len() >= p@.len(),
            s@.len() <= usize::MAX,
            off == s@.len() - p@.len(),
            i <= p@.len(),
            forall|j: int| 0 <= j < i ==> s@[off + j] == p@[j],
        decreases p@.len() - i,
    {
        if s[off + i] != p[i] {
            proof {
                assert(s@.skip(off as int)[i as int] != p@[i as int]);
            }
            return false;
        }
        i = i + 1;
    }
    proof {
        assert(s@.skip(off as int) =~= p@);
    }
    true
}

proof fn lemma_trim_start_skip_ws(s: Seq<u8>, i: int)
    requires
        0 <= i <= s.len(),
        forall|j: int| 0 <= j < i ==> is_ws(s[j]),
    ensures
        spec_trim_start(s) == spec_trim_start(s.skip(i)),
    decreases i,
{
    if i > 0 {
        assert(is_ws(s[0]));
        assert(forall|j: int| 0 <= j < i - 1 ==> is_ws(#[trigger] s.skip(1)[j]));
        lemma_trim_start_skip_ws(s.skip(1), i - 1);
        assert(s.skip(1).skip(i - 1) =~= s.skip(i));
    } else {
        assert(s.skip(0) =~= s);
    }
}

proof fn lemma_trim_end_take_ws(s: Seq<u8>, i: int)
    requires
        0 <= i <= s.len(),
        forall|j: int| i <= j < s.len() ==> is_ws(s[j]),
    ensures
        spec_trim_end(s) == spec_trim_end(s.take(i)),
    decreases s.len() - i,
{
    if i < s.len() {
        assert(is_ws(s.last()));
        assert(spec_trim_end(s) == spec_trim_end(s.take(s.len() - 1)));
        assert(forall|j: int| i <= j < s.len() - 1 ==> is_ws(#[trigger] s.take(s.len() - 1)[j]));
        lemma_trim_end_take_ws(s.take(s.len() - 1), i);
        assert(s.take(s.len() - 1).take(i) =~= s.take(i));
    } else {
        assert(s.take(i) =~= s);
    }
}

/// Copies the byte range `[a, b)` of `s` into a fresh vector.
pub fn copy_range(s: &[u8], a: usize, b: usize) -> (r: Vec<u8>)
    requires
        a <= b <= s@.len(),
    ensures
        r@ == s@.subrange(a as int, b as int),
{
    let mut r: Vec<u8> = Vec::new();
    let mut i: usize = a;
    while i < b
        invariant
            a <= i <= b <= s@.len(),
            r@ == s@.subrange(a as int, i as int),
        decreases b - i,
    {
        r.push(s[i]);
        proof {
            assert(r@ =~= s@.subrange(a as int, i + 1));
        }
        i = i + 1;
    }
    r
}

/// Whitespace removed from both ends of `s`.
pub fn trim(s: &[u8]) -> (r: Vec<u8>)
    ensures
        r@ == spec_trim(s@),
{
    let mut b: usize = s.len();
    while b > 0 && is_ws_byte(s[b - 1])
        invariant
            b <= s@.len(),
            forall|j: int| b <= j < s@.len() ==> is_ws(s@[j]),
        decreases b,
    {
        b = b - 1;
    }
    proof {
        lemma_trim_end_take_ws(s@, b as int);
        if b > 0 {
            assert(!is_ws(s@.take(b as int).last()));
        }
        assert(spec_trim_end(s@.take(b as int)) == s@.take(b as int));
    }
    let mut a: usize = 0;
    while a < b && is_ws_byte(s[a])
        invariant
            a <= b <= s@.len(),
            forall|j: int| 0 <= j < a ==> is_ws(s@[j]),
        decreases b - a,
    {
        a = a + 1;
    }
    proof {
        let t = s@.take(b as int);
        assert(forall|j: int| 0 <= j < a ==> t[j] == s@[j]);
        lemma_trim_start_skip_ws(t, a as int);
        if a < b {
            assert(!is_ws(t.skip(a as int)[0]));
        }
        assert(spec_trim_start(t.skip(a as int)) == t.skip(a as int));
        assert(t.skip(a as int) =~= s@.subrange(a as int, b as int));
    }
    copy_range(s, a, b)
}

/// Whitespace removed from the end of `s`.
pub fn trim_end(s: &[u8]) -> (r: Vec<u8>)
    ensures
        r@ == spec_trim_end(s@),
{
    let mut b: usize = s.len();
    while b > 0 && is_ws_byte(s[b - 1])
        invariant
            b <= s@.len(),
            forall|j: int| b <= j < s@.len() ==> is_ws(s@[j]),
        decreases b,
    {
        b = b - 1;
    }
    proof {
        lemma_trim_end_take_ws(s@, b as int);
        if b > 0 {
            assert(!is_ws(s@.take(b as int).last()));
        }
        assert(spec_trim_end(s@.take(b as int)) == s@.take(b as int));
        assert(s@.take(b as int) =~= s@.subrange(0, b as int));
    }
    copy_range(s, 0, b)
}

/// Every trailing repetition of `p` removed from `s`.
pub fn trim_end_matches(s: &[u8], p: &[u8]) -> (r: Vec<u8>)
    ensures
        r@ == spec_trim_end_matches(s@, p@),
{
    let mut b: usize = s.len();
    proof {
        assert(s@.take(b as int) =~= s@);
    }
    while p.len() > 0 && ends_with_range(s, b, p)
        invariant
            b <= s@.len(),
            spec_trim_end_matches(s@, p@) == spec_trim_end_matches(s@.take(b as int), p@),
        decreases b,
    {
        proof {
            assert(spec_ends_with(s@.take(b as int), p@));
            assert(s@.take(b as int).take(b - p@.len()) =~= s@.take(b - p@.len()));
        }
        b = b - p.len();
    }
    proof {
        if p@.len() > 0 {
            assert(!spec_ends_with(s@.take(b as int), p@));
        }
        assert(spec_trim_end_matches(s@.take(b as int), p@) == s@.take(b as int));
        assert(s@.take(b as int) =~= s@.subrange(0, b as int));
    }
    copy_range(s, 0, b)
}

/// True when the first `b` bytes of `s` end with `p`.
fn ends_with_range(s: &[u8], b: usize, p: &[u8]) -> (r: bool)
    requires
        b <= s@.len(),
    ensures
        r == spec_ends_with(s@.take(b as int), p@),
{
    proof {
        vstd::slice::axiom_spec_len(s);
    }
    if b < p.len() {
        return false;
    }
    let off = b - p.len();
    let mut i: usize = 0;
    while i < p.len()
        invariant
            b <= s@.len(),
            s@.len() <= usize::MAX,
            b >= p@.len(),
            off == b - p@.len(),
            i <= p@.len(),
            forall|j: int| 0 <= j < i ==> s@[off + j] == p@[j],
        decreases p@.len() - i,
    {
        if s[off + i] != p[i] {
            proof {
                assert(s@.take(b as int).skip(off as int)[i as int] != p@[i as int]);
            }
            return false;
        }
        i = i + 1;
    }
    proof {
        assert(s@.take(b as int).skip(off as int) =~= p@);
    }
    true
}

/// Every leading repetition of `p` removed from `s`.
pub fn trim_start_matches(s: &[u8], p: &[u8]) -> (r: Vec<u8>)
    ensures
        r@ == spec_trim_start_matches(s@, p@),
{
    let mut a: usize = 0;
    proof {
        assert(s@.skip(0) =~= s@);
    }
    while p.len() > 0 && p.len() <= s.len() && a <= s.len() - p.len() && starts_with_at(s, a, p)
        invariant
            a <= s@.len(),
            spec_trim_start_matches(s@, p@) == spec_trim_start_matches(s@.skip(a as int), p@),
        decreases s@.len() - a,
    {
        proof {
            assert(spec_starts_with(s@.skip(a as int), p@));
            assert(s@.skip(a as int).skip(p@.len() as int) =~= s@.skip(a + p@.len()));
        }
        a = a + p.len();
    }
    proof {
        if p@.len() > 0 {
            assert(!spec_starts_with(s@.skip(a as int), p@));
        }
        assert(spec_trim_start_matches(s@.skip(a as int), p@) == s@.skip(a as int));
        assert(s@.skip(a as int) =~= s@.subrange(a as int, s@.len() as int));
    }
    copy_range(s, a, s.len())
}

/// True when `s` continues with `p` at offset `a`.
fn starts_with_at(s: &[u8], a: usize, p: &[u8]) -> (r: bool)
    requires
        a + p@.len() <= s@.len(),
    ensures
        r == spec_starts_with(s@.skip(a as int), p@),
{
    proof {
        vstd::slice::axiom_spec_len(s);
    }
    let mut i: usize = 0;
    while i < p.len()
        invariant
            a + p@.len() <= s@.len(),
            s@.len() <= usize::MAX,
            i <= p@.len(),
            forall|j: int| 0 <= j < i ==> s@[a + j] == p@[j],
        decreases p@.len() - i,
    {
        if s[a + i] != p[i] {
            proof {
                assert(s@.skip(a as int).take(p@.len() as int)[i as int] != p@[i as int]);
            }
            return false;
        }
        i = i + 1;
    }
    proof {
        assert(s@.skip(a as int).take(p@.len() as int) =~= p@);
    }
    true
}

/// True when `p` occurs somewhere in `s`.
pub fn contains_seq(s: &[u8], p: &[u8]) -> (r: bool)
    ensures
        r == spec_contains_seq(s@, p@),
{
    if p.len() == 0 {
        proof {
            assert(s@.subrange(0, 0 + p@.len() as int) =~= p@);
        }
        return true;
    }
    if p.len() > s.len() {
        proof {
            assert(forall|i: int|
                !(0 <= i && i + p@.len() <= s@.len()) || #[trigger] s@.subrange(
                    i,
                    i + p@.len() as int,
                ) != p@);
        }
        return false;
    }
    let mut i: usize = 0;
    while i <= s.len() - p.len()
        invariant
            1 <= p@.len() <= s@.len(),
            i <= s@.len() - p@.len() + 1,
            forall|k: int|
                0 <= k < i ==> #[trigger] s@.subrange(k, k + p@.len() as int) != p@,
        decreases s@.len() - p@.len() + 1 - i,
    {
        if starts_with_at(s, i, p) {
            proof {
                assert(s@.skip(i as int).take(p@.len() as int) =~= s@.subrange(
                    i as int,
                    i + p@.len() as int,
                ));
            }
            return true;
        }
        proof {
            assert(s@.skip(i as int).take(p@.len() as int) =~= s@.subrange(
                i as int,
                i + p@.len() as int,
            ));
        }
        i = i + 1;
    }
    false
}

/// True when `s` holds only white space.
pub fn is_blank(s: &[u8]) -> (r: bool)
    ensures
        r == spec_is_blank(s@),
{
    let mut i: usize = 0;
    while i < s.len()
        invariant
            i <= s@.len(),
            forall|j: int| 0 <= j < i ==> is_ws(s@[j]),
        decreases s@.len() - i,
    {
        let c = s[i];
        if !(c == 0x20 || c == 0x09 || c == 0x0a || c == 0x0d || c == 0x0c) {
            return false;
        }
        i = i + 1;
    }
    true
}

/// The last non-blank newline-separated segment of `s`, if any.
pub fn last_nonblank_line(s: &[u8]) -> (r: Option<Vec<u8>>)
    ensures
        match r {
            Some(v) => spec_last_nonblank_line(s@) == Some(v@),
            None => spec_last_nonblank_line(s@) == None::<Seq<u8>>,
        },
{
    let mut n: usize = s.len();
    proof {
        assert(s@.take(n as int) =~= s@);
    }
    loop
        invariant
            n <= s@.len(),
            s@.len() <= usize::MAX,
            spec_last_nonblank_line(s@) == spec_last_nonblank_line(s@.take(n as int)),
        decreases n,
    {
        let ghost t = s@.take(n as int);
        // find the last newline strictly before position n
        let mut k: usize = n;
        while k > 0 && s[k - 1] != 0x0a
            invariant
                k <= n <= s@.len(),
                forall|j: int| k <= j < n ==> s@[j] != 0x0a,
            decreases k,
        {
            k = k - 1;
        }
        proof {
            assert(forall|j: int| k <= j < t.len() ==> t[j] == s@[j]);
            lemma_rfind_nl_take(t, k as int);
        }
        if k == 0 {
            // no newline in the remaining prefix
            proof {
                assert(t.take(0) =~= Seq::<u8>::empty());
                assert(spec_rfind_nl(t) == None::<int>);
            }
            let line = copy_range(s, 0, n);
            proof {
                assert(t =~= line@);
            }
            if !is_blank(line.as_slice()) {
                return Some(line);
            } else {
                return None;
            }
        } else {
            let line = copy_range(s, k, n);
            proof {
                assert(t[k - 1] == 0x0a);
                assert(t.take(k as int).len() == k);
                assert(t.take(k as int)[k - 1] == 0x0a);
                assert(spec_rfind_nl(t.take(k as int)) == Some(k - 1));
                assert(spec_rfind_nl(t) == Some(k - 1));
                assert(t.skip(k - 1 + 1) =~= line@);
            }
            if !is_blank(line.as_slice()) {
                return Some(line);
            }
            proof {
                assert(spec_is_blank(t.skip(k - 1 + 1)));
                assert(spec_last_nonblank_line(t) == spec_last_nonblank_line(t.take(k - 1)));
                assert(t.take(k - 1) =~= s@.take(k - 1));
            }
            n = k - 1;
        }
    }
}

/// The position of the last occurrence of byte `c` in `s`, if any.
pub open spec fn spec_rfind(s: Seq<u8>, c: u8) -> Option<int>
    decreases s.len(),
{
    if s.len() == 0 {
        None
    } else if s[s.len() - 1] == c {
        Some(s.len() - 1)
    } else {
        spec_rfind(s.take(s.len() - 1), c)
    }
}

/// What `spec_rfind` finds is the last occurrence.
pub proof fn lemma_rfind(s: Seq<u8>, c: u8)
    ensures
        match spec_rfind(s, c) {
            Some(k) => 0 <= k < s.len() && s[k] == c && (forall|j: int|
                k < j < s.len() ==> s[j] != c),
            None => forall|j: int| 0 <= j < s.len() ==> s[j] != c,
        },
    decreases s.len(),
{
    if s.len() > 0 && s[s.len() - 1] != c {
        let t = s.take(s.len() - 1);
        lemma_rfind(t, c);
        assert(forall|j: int| 0 <= j < t.len() ==> t[j] == s[j]);
    }
}

/// Finds the last occurrence of byte `c` in `s`.
pub fn rfind_byte(s: &[u8], c: u8) -> (r: Option<usize>)
    ensures
        match r {
            Some(k) => spec_rfind(s@, c) == Some(k as int),
            None => spec_rfind(s@, c) == None::<int>,
        },
{
    let mut k: usize = s.len();
    proof {
        assert(s@.take(s@.len() as int) =~= s@);
    }
    while k > 0
        invariant
            k <= s@.len(),
            spec_rfind(s@, c) == spec_rfind(s@.take(k as int), c),
        decreases k,
    {
        if s[k - 1] == c {
            proof {
                assert(s@.take(k as int)[k - 1] == c);
            }
            return Some(k - 1);
        }
        proof {
            assert(s@.take(k as int)[k - 1] != c);
            assert(s@.take(k as int).take(k - 1) =~= s@.take(k - 1));
        }
        k = k - 1;
    }
    proof {
        assert(s@.take(0) =~= Seq::<u8>::empty());
    }
    None
}

/// Relies on `String::from_utf8_lossy`: bytes that are valid UTF-8 decode
/// to exactly those characters; anything else is replaced, and nothing is
/// claimed of it here.
#[verifier::external_body]
pub fn bytes_to_string(b: &[u8]) -> (r: String)
    ensures
        vstd::utf8::valid_utf8(b@) ==> r@ == vstd::utf8::decode_utf8(b@),
{
    String::from_utf8_lossy(b).into_owned()
}

/// A vector of the single byte `b`.
pub fn byte_vec(b: u8) -> (r: Vec<u8>)
    ensures
        r@ == seq![b],
{
    let mut v: Vec<u8> = Vec::new();
    v.push(b);
    proof {
        assert(v@ =~= seq![b]);
    }
    v
}

/// The two byte sequences joined, left then right.
pub fn concat_bytes(a: &[u8], b: &[u8]) -> (r: Vec<u8>)
    ensures
        r@ == a@ + b@,
{
    let mut r: Vec<u8> = Vec::new();
    r.extend_from_slice(a);
    r.extend_from_slice(b);
    proof {
        assert(r@ =~= a@ + b@);
    }
    r
}

} // verus!

//! Character-level helpers shared by the frame parser and the configuration resolver.
use vstd::prelude::*;

verus! {

/// The characters of `s`, in order.
pub fn chars_of(s: &str) -> (r: Vec<char>)
    ensures
        r@ == s@,
{
    let mut out: Vec<char> = Vec::new();
    for c in it: s.chars()
        invariant
            out@ == it.seq().take(it.index()),
    {
        out.push(c);
    }
    assert(out@ == s@);
    out
}

/// Unicode `White_Space`: the characters that `str::trim` removes.
pub open spec fn is_whitespace(c: char) -> bool {
    let u = c as u32;
    ||| 0x09 <= u <= 0x0d
    ||| u == 0x20
    ||| u == 0x85
    ||| u == 0xa0
    ||| u == 0x1680
    ||| 0x2000 <= u <= 0x200a
    ||| u == 0x2028
    ||| u == 0x2029
    ||| u == 0x202f
    ||| u == 0x205f
    ||| u == 0x3000
}

/// Executable test for [`is_whitespace`].
pub fn char_is_whitespace(c: char) -> (r: bool)
    ensures
        r == is_whitespace(c),
{
    let u = c as u32;
    (0x09 <= u && u <= 0x0d) || u == 0x20 || u == 0x85 || u == 0xa0 || u == 0x1680 || (0x2000
        <= u && u <= 0x200a) || u == 0x2028 || u == 0x2029 || u == 0x202f || u == 0x205f || u
        == 0x3000
}

/// Number of whitespace characters at the start of `s`.
pub open spec fn leading_ws(s: Seq<char>) -> nat
    decreases s.len(),
{
    if s.len() > 0 && is_whitespace(s[0]) {
        1 + leading_ws(s.drop_first())
    } else {
        0
    }
}

/// Number of whitespace characters at the end of `s`.
pub open spec fn trailing_ws(s: Seq<char>) -> nat
    decreases s.len(),
{
    if s.len() > 0 && is_whitespace(s.last()) {
        1 + trailing_ws(s.drop_last())
    } else {
        0
    }
}

/// `s` without its leading and trailing whitespace.
pub open spec fn trim(s: Seq<char>) -> Seq<char> {
    let r = s.subrange(leading_ws(s) as int, s.len() as int);
    r.subrange(0, r.len() - trailing_ws(r))
}

proof fn lemma_leading_ws_bound(s: Seq<char>)
    ensures
        leading_ws(s) <= s.len(),
        leading_ws(s) < s.len() ==> !is_whitespace(s[leading_ws(s) as int]),
        forall|j: int| 0 <= j < leading_ws(s) ==> is_whitespace(#[trigger] s[j]),
    decreases s.len(),
{
    if s.len() > 0 && is_whitespace(s[0]) {
        lemma_leading_ws_bound(s.drop_first());
        assert forall|j: int| 0 <= j < leading_ws(s) implies is_whitespace(#[trigger] s[j]) by {
            if j > 0 {
                assert(s[j] == s.drop_first()[j - 1]);
            }
        }
    }
}

proof fn lemma_trailing_ws_bound(s: Seq<char>)
    ensures
        trailing_ws(s) <= s.len(),
        trailing_ws(s) < s.len() ==> !is_whitespace(s[s.len() - 1 - trailing_ws(s)]),
        forall|j: int| s.len() - trailing_ws(s) <= j < s.len() ==> is_whitespace(#[trigger] s[j]),
    decreases s.len(),
{
    if s.len() > 0 && is_whitespace(s.last()) {
        lemma_trailing_ws_bound(s.drop_last());
        assert forall|j: int| s.len() - trailing_ws(s) <= j < s.len() implies is_whitespace(
            #[trigger] s[j],
        ) by {
            if j < s.len() - 1 {
                assert(s[j] == s.drop_last()[j]);
            }
        }
    }
}

/// A run of `k` whitespace characters followed by a non-whitespace character (or the end)
/// is exactly the leading whitespace.
proof fn lemma_leading_ws_exact(s: Seq<char>, k: int)
    requires
        0 <= k <= s.len(),
        forall|j: int| 0 <= j < k ==> is_whitespace(#[trigger] s[j]),
        k < s.len() ==> !is_whitespace(s[k]),
    ensures
        leading_ws(s) == k,
    decreases k,
{
    if k > 0 {
        let t = s.drop_first();
        assert forall|j: int| 0 <= j < k - 1 implies is_whitespace(#[trigger] t[j]) by {
            assert(t[j] == s[j + 1]);
        }
        if k - 1 < t.len() {
            assert(t[k - 1] == s[k]);
        }
        lemma_leading_ws_exact(t, k - 1);
    }
}

/// A run of `k` whitespace characters at the end, preceded by a non-whitespace character
/// (or the start), is exactly the trailing whitespace.
proof fn lemma_trailing_ws_exact(s: Seq<char>, k: int)
    requires
        0 <= k <= s.len(),
        forall|j: int| s.len() - k <= j < s.len() ==> is_whitespace(#[trigger] s[j]),
        k < s.len() ==> !is_whitespace(s[s.len() - 1 - k]),
    ensures
        trailing_ws(s) == k,
    decreases k,
{
    if k > 0 {
        let t = s.drop_last();
        assert forall|j: int| t.len() - (k - 1) <= j < t.len() implies is_whitespace(
            #[trigger] t[j],
        ) by {
            assert(t[j] == s[j]);
        }
        if k - 1 < t.len() {
            assert(t[t.len() - 1 - (k - 1)] == s[s.len() - 1 - k]);
        }
        lemma_trailing_ws_exact(t, k - 1);
    }
}

/// Bounds `[lo', hi')` of `chars[lo..hi]` with its leading and trailing whitespace removed.
pub fn trim_bounds(chars: &Vec<char>, lo: usize, hi: usize) -> (r: (usize, usize))
    requires
        lo <= hi <= chars.len(),
    ensures
        lo <= r.0 <= r.1 <= hi,
        chars@.subrange(r.0 as int, r.1 as int) == trim(chars@.subrange(lo as int, hi as int)),
{
    let ghost s = chars@.subrange(lo as int, hi as int);
    let mut a = lo;
    while a < hi && char_is_whitespace(chars[a])
        invariant
            lo <= a <= hi <= chars.len(),
            s == chars@.subrange(lo as int, hi as int),
            forall|j: int| lo <= j < a ==> is_whitespace(#[trigger] chars@[j]),
        decreases hi - a,
    {
        a = a + 1;
    }
    proof {
        assert forall|j: int| 0 <= j < a - lo implies is_whitespace(#[trigger] s[j]) by {
            assert(s[j] == chars@[lo + j]);
        }
        if a < hi {
            assert(s[a - lo] == chars@[a as int]);
        }
        lemma_leading_ws_exact(s, a - lo);
    }
    let ghost r = s.subrange(leading_ws(s) as int, s.len() as int);
    assert(r == chars@.subrange(a as int, hi as int));
    let mut b = hi;
    while b > a && char_is_whitespace(chars[b - 1])
        invariant
            lo <= a <= b <= hi <= chars.len(),
            r == chars@.subrange(a as int, hi as int),
            forall|j: int| b <= j < hi ==> is_whitespace(#[trigger] chars@[j]),
        decreases b - a,
    {
        b = b - 1;
    }
    proof {
        let k = hi - b;
        assert forall|j: int| r.len() - k <= j < r.len() implies is_whitespace(#[trigger] r[j]) by {
            assert(r[j] == chars@[a + j]);
        }
        if k < r.len() {
            assert(r[r.len() - 1 - k] == chars@[b - 1]);
        }
        lemma_trailing_ws_exact(r, k);
        assert(chars@.subrange(a as int, b as int) == r.subrange(0, r.len() - trailing_ws(r)));
    }
    (a, b)
}

/// Whether every character of `s` is an ASCII digit.
pub open spec fn all_digits(s: Seq<char>) -> bool {
    forall|i: int| 0 <= i < s.len() ==> '0' <= #[trigger] s[i] <= '9'
}

/// Decimal value of a string of ASCII digits.
pub open spec fn digits_value(s: Seq<char>) -> nat
    decreases s.len(),
{
    if s.len() == 0 {
        0
    } else {
        digits_value(s.drop_last()) * 10 + (s.last() as nat - '0' as nat) as nat
    }
}

/// `s` without one leading `+` sign, if it has one.
pub open spec fn unsigned_digits(s: Seq<char>) -> Seq<char> {
    if s.len() > 0 && s[0] == '+' {
        s.drop_first()
    } else {
        s
    }
}

/// What `str::parse::<u16>` gives for `s`: an optional `+` followed by at least one ASCII
/// digit, whose value fits in a `u16`.
pub open spec fn parse_u16(s: Seq<char>) -> Option<u16> {
    let d = unsigned_digits(s);
    if d.len() > 0 && all_digits(d) && digits_value(d) <= u16::MAX {
        Some(digits_value(d) as u16)
    } else {
        None
    }
}

/// Parses `chars[lo..hi]` as a `u16`, after trimming surrounding whitespace.
pub fn parse_u16_trimmed(chars: &Vec<char>, lo: usize, hi: usize) -> (r: Option<u16>)
    requires
        lo <= hi <= chars.len(),
    ensures
        r == parse_u16(trim(chars@.subrange(lo as int, hi as int))),
{
    let (a, b) = trim_bounds(chars, lo, hi);
    let ghost s = chars@.subrange(a as int, b as int);
    let mut start = a;
    if a < b && chars[a] == '+' {
        start = a + 1;
    }
    let ghost d = chars@.subrange(start as int, b as int);
    assert(d == unsigned_digits(s));
    if start == b {
        return None;
    }
    let mut acc: u32 = 0;
    let mut i = start;
    while i < b
        invariant
            a <= start <= i <= b <= chars.len(),
            d == chars@.subrange(start as int, b as int),
            d == unsigned_digits(s),
            s == trim(chars@.subrange(lo as int, hi as int)),
            all_digits(chars@.subrange(start as int, i as int)),
            acc as nat == if digits_value(chars@.subrange(start as int, i as int)) <= 65536 {
                digits_value(chars@.subrange(start as int, i as int))
            } else {
                65536
            },
        decreases b - i,
    {
        let c = chars[i];
        if !('0' <= c && c <= '9') {
            assert(d[i - start] == c);
            return None;
        }
        let digit = (c as u32) - ('0' as u32);
        let ghost p = chars@.subrange(start as int, i as int);
        let ghost q = chars@.subrange(start as int, i + 1);
        assert(q.drop_last() == p);
        assert(q.last() == c);
        let next = acc * 10 + digit;
        acc = if next > 65536 {
            65536
        } else {
            next
        };
        i = i + 1;
        assert(all_digits(q)) by {
            assert forall|j: int| 0 <= j < q.len() implies '0' <= #[trigger] q[j] <= '9' by {
                if j < p.len() {
                    assert(q[j] == p[j]);
                }
            }
        }
    }
    assert(chars@.subrange(start as int, i as int) == d);
    if acc <= 65535 {
        Some(acc as u16)
    } else {
        None
    }
}

} // verus!

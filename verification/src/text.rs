//! Character-level helpers shared by the descriptor and manifest parsers:
//! whitespace trimming, splitting, searching, and integer decoding, all over
//! `Vec<char>` values with their mathematical counterparts as spec functions.

use vstd::prelude::*;
use vstd::string::StrSliceExecFns;

verus! {

/// The whitespace the parsers strip at value edges.
pub open spec fn is_ws(c: char) -> bool {
    c == ' ' || c == '\t' || c == '\n' || c == '\r'
}

/// Executable twin of [`is_ws`].
pub fn ws(c: char) -> (b: bool)
    ensures
        b == is_ws(c),
{
    c == ' ' || c == '\t' || c == '\n' || c == '\r'
}

/// `s` without its leading whitespace.
pub open spec fn trim_front(s: Seq<char>) -> Seq<char>
    decreases s.len(),
{
    if s.len() > 0 && is_ws(s[0]) {
        trim_front(s.drop_first())
    } else {
        s
    }
}

/// `s` without its trailing whitespace.
pub open spec fn trim_back(s: Seq<char>) -> Seq<char>
    decreases s.len(),
{
    if s.len() > 0 && is_ws(s.last()) {
        trim_back(s.drop_last())
    } else {
        s
    }
}

/// `s` without leading and trailing whitespace.
pub open spec fn spec_trim(s: Seq<char>) -> Seq<char> {
    trim_back(trim_front(s))
}

proof fn lemma_trim_front_skip(s: Seq<char>, a: int)
    requires
        0 <= a <= s.len(),
        forall|i: int| 0 <= i < a ==> is_ws(s[i]),
        a == s.len() || !is_ws(s[a]),
    ensures
        trim_front(s) == s.skip(a),
    decreases a,
{
    if a == 0 {
        assert(trim_front(s) == s.skip(0)) by {
            if s.len() > 0 && is_ws(s[0]) {
                assert(false);
            }
            assert(s.skip(0) =~= s);
        }
    } else {
        assert(is_ws(s[0]));
        lemma_trim_front_skip(s.drop_first(), a - 1);
        assert(s.drop_first().skip(a - 1) =~= s.skip(a));
    }
}

proof fn lemma_trim_back_take(s: Seq<char>, b: int)
    requires
        0 <= b <= s.len(),
        forall|i: int| b <= i < s.len() ==> is_ws(s[i]),
        b == 0 || !is_ws(s[b - 1]),
    ensures
        trim_back(s) == s.take(b),
    decreases s.len() - b,
{
    if b == s.len() {
        assert(trim_back(s) == s.take(b)) by {
            if s.len() > 0 && is_ws(s.last()) {
                assert(false);
            }
            assert(s.take(s.len() as int) =~= s);
        }
    } else {
        assert(is_ws(s.last()));
        lemma_trim_back_take(s.drop_last(), b);
        assert(s.drop_last().take(b) =~= s.take(b));
    }
}

/// Trims whitespace from both ends of a character sequence.
pub fn trim_chars(s: &Vec<char>) -> (r: Vec<char>)
    ensures
        r@ == spec_trim(s@),
{
    let n = s.len();
    let mut a: usize = 0;
    while a < n && ws(s[a])
        invariant
            0 <= a <= n == s@.len(),
            forall|i: int| 0 <= i < a ==> is_ws(s@[i]),
        decreases n - a,
    {
        a += 1;
    }
    proof {
        lemma_trim_front_skip(s@, a as int);
    }
    let mut b: usize = n;
    while b > a && ws(s[b - 1])
        invariant
            a <= b <= n == s@.len(),
            forall|i: int| b <= i < n ==> is_ws(s@[i]),
        decreases b,
    {
        b -= 1;
    }
    let ghost f = s@.skip(a as int);
    proof {
        assert(forall|i: int| b - a <= i < f.len() ==> is_ws(#[trigger] f[i]));
        assert(b - a == 0 || !is_ws(f[b - a - 1]));
        lemma_trim_back_take(f, b - a);
    }
    let mut r: Vec<char> = Vec::new();
    let mut i: usize = a;
    while i < b
        invariant
            a <= i <= b <= s@.len(),
            r@ == s@.subrange(a as int, i as int),
        decreases b - i,
    {
        r.push(s[i]);
        proof {
            assert(r@ =~= s@.subrange(a as int, i + 1));
        }
        i += 1;
    }
    proof {
        assert(r@ =~= f.take(b - a));
    }
    r
}

/// `s` split on `sep`: the pieces between occurrences of `sep`, in order.
/// An empty sequence yields one empty piece, as `str::split` does.
pub open spec fn spec_split(s: Seq<char>, sep: char) -> Seq<Seq<char>>
    decreases s.len(),
{
    if s.len() == 0 {
        seq![Seq::<char>::empty()]
    } else if s[0] == sep {
        seq![Seq::<char>::empty()] + spec_split(s.drop_first(), sep)
    } else {
        let r = spec_split(s.drop_first(), sep);
        seq![seq![s[0]] + r[0]] + r.drop_first()
    }
}

pub proof fn lemma_split_nonempty(s: Seq<char>, sep: char)
    ensures
        spec_split(s, sep).len() >= 1,
    decreases s.len(),
{
    if s.len() > 0 {
        lemma_split_nonempty(s.drop_first(), sep);
    }
}

/// A piece without the separator splits to itself alone.
pub proof fn lemma_split_no_sep(a: Seq<char>, sep: char)
    requires
        forall|i: int| 0 <= i < a.len() ==> a[i] != sep,
    ensures
        spec_split(a, sep) =~= seq![a],
    decreases a.len(),
{
    if a.len() == 0 {
        assert(a =~= Seq::<char>::empty());
    } else {
        assert(a[0] != sep);
        assert forall|i: int| 0 <= i < a.drop_first().len() implies a.drop_first()[i] != sep by {
            assert(a.drop_first()[i] == a[i + 1]);
        }
        lemma_split_no_sep(a.drop_first(), sep);
        let r = spec_split(a.drop_first(), sep);
        assert(r[0] == a.drop_first());
        assert(r.drop_first() =~= Seq::<Seq<char>>::empty());
        assert(seq![a[0]] + r[0] =~= a);
    }
}

/// Splitting off a separator-free prefix: the prefix is the first piece.
pub proof fn lemma_split_step(a: Seq<char>, s: Seq<char>, sep: char)
    requires
        forall|i: int| 0 <= i < a.len() ==> a[i] != sep,
    ensures
        spec_split(a + seq![sep] + s, sep) =~= seq![a] + spec_split(s, sep),
    decreases a.len(),
{
    let t = a + seq![sep] + s;
    if a.len() == 0 {
        assert(t[0] == sep);
        assert(t.drop_first() =~= s);
        assert(a =~= Seq::<char>::empty());
        assert(seq![a] =~= seq![Seq::<char>::empty()]);
    } else {
        assert(a[0] != sep);
        assert(t[0] == a[0]);
        assert(t.drop_first() =~= a.drop_first() + seq![sep] + s);
        assert forall|i: int| 0 <= i < a.drop_first().len() implies a.drop_first()[i] != sep by {
            assert(a.drop_first()[i] == a[i + 1]);
        }
        lemma_split_step(a.drop_first(), s, sep);
        let r = spec_split(t.drop_first(), sep);
        assert(r =~= seq![a.drop_first()] + spec_split(s, sep));
        assert(r[0] == a.drop_first());
        assert(seq![t[0]] + r[0] =~= a);
        assert(r.drop_first() =~= spec_split(s, sep));
    }
}

/// Splits a character sequence on a separator character.
pub fn split_chars(s: &Vec<char>, sep: char) -> (r: Vec<Vec<char>>)
    ensures
        r.deep_view() == spec_split(s@, sep),
{
    let mut done: Vec<Vec<char>> = Vec::new();
    let mut cur: Vec<char> = Vec::new();
    let mut i: usize = 0;
    proof {
        assert(done.deep_view() =~= Seq::<Seq<char>>::empty());
        assert(cur@ + s@.skip(0) =~= s@);
        assert(spec_split(s@, sep) =~= Seq::<Seq<char>>::empty() + spec_split(s@, sep));
    }
    while i < s.len()
        invariant
            0 <= i <= s@.len(),
            forall|k: int| 0 <= k < cur@.len() ==> cur@[k] != sep,
            spec_split(s@, sep) == done.deep_view() + spec_split(cur@ + s@.skip(i as int), sep),
        decreases s@.len() - i,
    {
        let c = s[i];
        if c == sep {
            proof {
                assert(cur@ + s@.skip(i as int) =~= cur@ + seq![sep] + s@.skip(i + 1));
                lemma_split_step(cur@, s@.skip(i + 1), sep);
                assert(cur.deep_view() =~= cur@);
            }
            let ghost done0 = done.deep_view();
            let ghost cur0 = cur@;
            done.push(cur);
            cur = Vec::new();
            proof {
                assert(done.deep_view() =~= done0 + seq![cur0]);
                assert(cur@ + s@.skip(i + 1) =~= s@.skip(i + 1));
                assert(done0 + (seq![cur0] + spec_split(s@.skip(i + 1), sep))
                    =~= done.deep_view() + spec_split(s@.skip(i + 1), sep));
            }
        } else {
            proof {
                assert(cur@ + s@.skip(i as int) =~= cur@.push(c) + s@.skip(i + 1));
            }
            cur.push(c);
        }
        i += 1;
    }
    proof {
        assert(cur@ + s@.skip(s@.len() as int) =~= cur@);
        lemma_split_no_sep(cur@, sep);
        assert(cur.deep_view() =~= cur@);
    }
    let ghost done0 = done.deep_view();
    let ghost cur0 = cur@;
    done.push(cur);
    proof {
        assert(done.deep_view() =~= done0 + seq![cur0]);
    }
    done
}

/// The index of the first occurrence of `c` in `s`, or `s.len()` if there is none.
pub open spec fn first_index_of(s: Seq<char>, c: char) -> int
    decreases s.len(),
{
    if s.len() == 0 {
        0
    } else if s[0] == c {
        0
    } else {
        1 + first_index_of(s.drop_first(), c)
    }
}

pub proof fn lemma_first_index_of(s: Seq<char>, c: char)
    ensures
        0 <= first_index_of(s, c) <= s.len(),
        forall|i: int| 0 <= i < first_index_of(s, c) ==> s[i] != c,
        first_index_of(s, c) < s.len() ==> s[first_index_of(s, c)] == c,
    decreases s.len(),
{
    if s.len() > 0 && s[0] != c {
        lemma_first_index_of(s.drop_first(), c);
        assert forall|i: int| 0 <= i < first_index_of(s, c) implies s[i] != c by {
            if i > 0 {
                assert(s.drop_first()[i - 1] == s[i]);
            }
        }
    }
}

/// Finds the first occurrence of `c`, returning `s.len()` if there is none.
pub fn find_char(s: &Vec<char>, c: char) -> (r: usize)
    ensures
        r == first_index_of(s@, c),
{
    let mut i: usize = 0;
    while i < s.len()
        invariant
            0 <= i <= s@.len(),
            forall|k: int| 0 <= k < i ==> s@[k] != c,
        decreases s@.len() - i,
    {
        if s[i] == c {
            proof {
                lemma_first_index_of(s@, c);
            }
            return i;
        }
        i += 1;
    }
    proof {
        lemma_first_index_of(s@, c);
    }
    i
}

/// `p` is a prefix of `s`.
pub open spec fn is_prefix(p: Seq<char>, s: Seq<char>) -> bool {
    p.len() <= s.len() && p == s.take(p.len() as int)
}

/// Tests whether `s` starts with `p`.
pub fn starts_with_chars(s: &Vec<char>, p: &Vec<char>) -> (r: bool)
    ensures
        r == is_prefix(p@, s@),
{
    if p.len() > s.len() {
        return false;
    }
    let mut i: usize = 0;
    while i < p.len()
        invariant
            0 <= i <= p@.len() <= s@.len(),
            forall|k: int| 0 <= k < i ==> p@[k] == s@[k],
        decreases p@.len() - i,
    {
        if s[i] != p[i] {
            assert(p@ != s@.take(p@.len() as int));
            return false;
        }
        i += 1;
    }
    proof {
        assert(p@ =~= s@.take(p@.len() as int));
    }
    true
}

/// `sub` occurs contiguously somewhere in `s`.
pub open spec fn contains_seq(s: Seq<char>, sub: Seq<char>) -> bool {
    exists|k: int| 0 <= k <= s.len() - sub.len() && #[trigger] s.subrange(k, k + sub.len()) == sub
}

/// Tests whether `sub` occurs contiguously in `s`.
pub fn contains_chars(s: &Vec<char>, sub: &Vec<char>) -> (r: bool)
    ensures
        r == contains_seq(s@, sub@),
{
    if sub.len() > s.len() {
        return false;
    }
    let last: usize = s.len() - sub.len();
    let mut k: usize = 0;
    loop
        invariant
            0 <= k <= last + 1,
            last == s@.len() - sub@.len(),
            sub@.len() <= s@.len(),
            s@.len() <= usize::MAX,
            forall|k2: int| 0 <= k2 < k ==> #[trigger] s@.subrange(k2, k2 + sub@.len()) != sub@,
        decreases last + 1 - k,
    {
        if k > last {
            return false;
        }
        let mut i: usize = 0;
        let mut hit = true;
        while hit && i < sub.len()
            invariant
                0 <= i <= sub@.len(),
                0 <= k <= last,
                last == s@.len() - sub@.len(),
                sub@.len() <= s@.len(),
                s@.len() <= usize::MAX,
                hit ==> forall|j: int| 0 <= j < i ==> s@[k + j] == sub@[j],
                !hit ==> s@.subrange(k as int, k + sub@.len()) != sub@,
                !hit ==> sub@.len() > 0,
            decreases sub@.len() - i + (if hit { 1int } else { 0int }),
        {
            if s[k + i] != sub[i] {
                proof {
                    assert(s@.subrange(k as int, k + sub@.len())[i as int] != sub@[i as int]);
                }
                hit = false;
            } else {
                i += 1;
            }
        }
        if hit {
            proof {
                assert(s@.subrange(k as int, k + sub@.len()) =~= sub@);
            }
            return true;
        }
        k += 1;
    }
}

/// Copies the characters of `s` between `a` and `b`.
pub fn subvec(s: &Vec<char>, a: usize, b: usize) -> (r: Vec<char>)
    requires
        a <= b <= s@.len(),
    ensures
        r@ == s@.subrange(a as int, b as int),
{
    let mut r: Vec<char> = Vec::new();
    let mut i: usize = a;
    while i < b
        invariant
            a <= i <= b <= s@.len(),
            r@ == s@.subrange(a as int, i as int),
        decreases b - i,
    {
        r.push(s[i]);
        proof {
            assert(r@ =~= s@.subrange(a as int, i + 1));
        }
        i += 1;
    }
    r
}

/// A decimal digit.
pub open spec fn is_digit(c: char) -> bool {
    48 <= c as u32 <= 57
}

/// The value of one decimal digit.
pub open spec fn digit_val(c: char) -> nat {
    (c as u32 - 48) as nat
}

/// The number a sequence of decimal digits denotes.
pub open spec fn digits_val(s: Seq<char>) -> nat
    decreases s.len(),
{
    if s.len() == 0 {
        0
    } else {
        digits_val(s.drop_last()) * 10 + digit_val(s.last())
    }
}

/// Every character of `s` is a decimal digit.
pub open spec fn all_digits(s: Seq<char>) -> bool {
    forall|i: int| 0 <= i < s.len() ==> is_digit(s[i])
}

proof fn lemma_digits_val_take_succ(s: Seq<char>, i: int)
    requires
        0 <= i < s.len(),
    ensures
        digits_val(s.take(i + 1)) == digits_val(s.take(i)) * 10 + digit_val(s[i]),
{
    assert(s.take(i + 1).drop_last() =~= s.take(i));
    assert(s.take(i + 1).last() == s[i]);
}

proof fn lemma_digits_val_monotone(s: Seq<char>, i: int, j: int)
    requires
        0 <= i <= j <= s.len(),
    ensures
        digits_val(s.take(i)) <= digits_val(s.take(j)),
    decreases j - i,
{
    if i < j {
        lemma_digits_val_monotone(s, i, j - 1);
        lemma_digits_val_take_succ(s, j - 1);
    }
}

/// Tests whether every character is a decimal digit.
pub fn all_digits_chars(s: &Vec<char>) -> (r: bool)
    ensures
        r == all_digits(s@),
{
    let mut i: usize = 0;
    while i < s.len()
        invariant
            0 <= i <= s@.len(),
            forall|k: int| 0 <= k < i ==> is_digit(s@[k]),
        decreases s@.len() - i,
    {
        let u = s[i] as u32;
        if u < 48 || u > 57 {
            return false;
        }
        i += 1;
    }
    true
}

/// The value a digit sequence denotes, if it fits the result type.
pub fn digits_to_u64(s: &Vec<char>) -> (r: Option<u64>)
    requires
        all_digits(s@),
    ensures
        r == (if digits_val(s@) <= u64::MAX as nat {
            Some(digits_val(s@) as u64)
        } else {
            None::<u64>
        }),
{
    let mut acc: u64 = 0;
    let mut i: usize = 0;
    proof {
        assert(s@.take(0) =~= Seq::<char>::empty());
    }
    while i < s.len()
        invariant
            0 <= i <= s@.len(),
            all_digits(s@),
            acc == digits_val(s@.take(i as int)),
        decreases s@.len() - i,
    {
        let u = s[i] as u32;
        let d: u64 = (u - 48) as u64;
        proof {
            lemma_digits_val_take_succ(s@, i as int);
        }
        let m = match acc.checked_mul(10) {
            Some(m) => m,
            None => {
                proof {
                    lemma_digits_val_monotone(s@, i + 1, s@.len() as int);
                    assert(s@.take(s@.len() as int) =~= s@);
                }
                return None;
            },
        };
        let v = match m.checked_add(d) {
            Some(v) => v,
            None => {
                proof {
                    lemma_digits_val_monotone(s@, i + 1, s@.len() as int);
                    assert(s@.take(s@.len() as int) =~= s@);
                }
                return None;
            },
        };
        acc = v;
        i += 1;
    }
    proof {
        assert(s@.take(s@.len() as int) =~= s@);
    }
    Some(acc)
}

/// What `str::parse::<u64>` accepts of the values these stores hold: an
/// optional leading plus sign, then decimal digits that fit the type.
pub open spec fn spec_parse_u64(s: Seq<char>) -> Option<u64> {
    let body = if s.len() > 0 && s[0] == '+' {
        s.drop_first()
    } else {
        s
    };
    if body.len() > 0 && all_digits(body) && digits_val(body) <= u64::MAX as nat {
        Some(digits_val(body) as u64)
    } else {
        None
    }
}

/// Decodes an unsigned decimal integer, yielding `None` on any malformed
/// or out-of-range input.
pub fn parse_u64_chars(s: &Vec<char>) -> (r: Option<u64>)
    ensures
        r == spec_parse_u64(s@),
{
    let start: usize = if s.len() > 0 && s[0] == '+' {
        1
    } else {
        0
    };
    let body = subvec(s, start, s.len());
    proof {
        if s@.len() > 0 && s@[0] == '+' {
            assert(body@ =~= s@.drop_first());
        } else {
            assert(body@ =~= s@);
        }
    }
    if body.len() == 0 {
        return None;
    }
    if !all_digits_chars(&body) {
        return None;
    }
    digits_to_u64(&body)
}

/// As [`spec_parse_u64`], narrowed to `u8`.
pub open spec fn spec_parse_u8(s: Seq<char>) -> Option<u8> {
    match spec_parse_u64(s) {
        Some(v) => if v <= u8::MAX as u64 {
            Some(v as u8)
        } else {
            None
        },
        None => None,
    }
}

/// Decodes an unsigned decimal integer that must fit `u8`.
pub fn parse_u8_chars(s: &Vec<char>) -> (r: Option<u8>)
    ensures
        r == spec_parse_u8(s@),
{
    match parse_u64_chars(s) {
        Some(v) => if v <= u8::MAX as u64 {
            Some(v as u8)
        } else {
            None
        },
        None => None,
    }
}

/// As [`spec_parse_u64`], narrowed to `u16`.
pub open spec fn spec_parse_u16(s: Seq<char>) -> Option<u16> {
    match spec_parse_u64(s) {
        Some(v) => if v <= u16::MAX as u64 {
            Some(v as u16)
        } else {
            None
        },
        None => None,
    }
}

/// Decodes an unsigned decimal integer that must fit `u16`.
pub fn parse_u16_chars(s: &Vec<char>) -> (r: Option<u16>)
    ensures
        r == spec_parse_u16(s@),
{
    match parse_u64_chars(s) {
        Some(v) => if v <= u16::MAX as u64 {
            Some(v as u16)
        } else {
            None
        },
        None => None,
    }
}

/// As [`spec_parse_u64`], narrowed to `u32`.
pub open spec fn spec_parse_u32(s: Seq<char>) -> Option<u32> {
    match spec_parse_u64(s) {
        Some(v) => if v <= u32::MAX as u64 {
            Some(v as u32)
        } else {
            None
        },
        None => None,
    }
}

/// Decodes an unsigned decimal integer that must fit `u32`.
pub fn parse_u32_chars(s: &Vec<char>) -> (r: Option<u32>)
    ensures
        r == spec_parse_u32(s@),
{
    match parse_u64_chars(s) {
        Some(v) => if v <= u32::MAX as u64 {
            Some(v as u32)
        } else {
            None
        },
        None => None,
    }
}

/// As [`spec_parse_u64`], narrowed to `usize`.
pub open spec fn spec_parse_usize(s: Seq<char>) -> Option<usize> {
    match spec_parse_u64(s) {
        Some(v) => if v <= usize::MAX as u64 {
            Some(v as usize)
        } else {
            None
        },
        None => None,
    }
}

/// Decodes an unsigned decimal integer that must fit `usize`.
pub fn parse_usize_chars(s: &Vec<char>) -> (r: Option<usize>)
    ensures
        r == spec_parse_usize(s@),
{
    match parse_u64_chars(s) {
        Some(v) => if v <= usize::MAX as u64 {
            Some(v as usize)
        } else {
            None
        },
        None => None,
    }
}

/// Decimal seconds with an optional fractional part, truncated to whole
/// seconds: an optional plus sign, digits, and at most one point followed by
/// digits, with at least one digit overall.  Out-of-range whole parts are
/// rejected rather than rounded.
pub open spec fn spec_parse_time(s: Seq<char>) -> Option<u64> {
    let body = if s.len() > 0 && s[0] == '+' {
        s.drop_first()
    } else {
        s
    };
    let dot = first_index_of(body, '.');
    if dot == body.len() {
        if body.len() > 0 && all_digits(body) && digits_val(body) <= u64::MAX as nat {
            Some(digits_val(body) as u64)
        } else {
            None
        }
    } else {
        let ip = body.take(dot);
        let fp = body.skip(dot + 1);
        if ip.len() + fp.len() > 0 && all_digits(ip) && all_digits(fp) && digits_val(ip)
            <= u64::MAX as nat {
            Some(digits_val(ip) as u64)
        } else {
            None
        }
    }
}

/// Decodes a timestamp given as decimal seconds, truncating any fractional
/// part.
pub fn parse_time_chars(s: &Vec<char>) -> (r: Option<u64>)
    ensures
        r == spec_parse_time(s@),
{
    let start: usize = if s.len() > 0 && s[0] == '+' {
        1
    } else {
        0
    };
    let body = subvec(s, start, s.len());
    proof {
        if s@.len() > 0 && s@[0] == '+' {
            assert(body@ =~= s@.drop_first());
        } else {
            assert(body@ =~= s@);
        }
    }
    let dot = find_char(&body, '.');
    proof {
        lemma_first_index_of(body@, '.');
    }
    if dot == body.len() {
        if body.len() == 0 || !all_digits_chars(&body) {
            return None;
        }
        digits_to_u64(&body)
    } else {
        let ip = subvec(&body, 0, dot);
        let fp = subvec(&body, dot + 1, body.len());
        proof {
            assert(ip@ =~= body@.take(dot as int));
            assert(fp@ =~= body@.skip(dot + 1));
        }
        if ip.len() + fp.len() == 0 {
            return None;
        }
        if !all_digits_chars(&ip) || !all_digits_chars(&fp) {
            return None;
        }
        digits_to_u64(&ip)
    }
}

/// Appends a copy of `src` to `dst`.
pub fn push_all(dst: &mut Vec<char>, src: &Vec<char>)
    ensures
        final(dst)@ == old(dst)@ + src@,
{
    let mut i: usize = 0;
    proof {
        assert(dst@ =~= old(dst)@ + src@.take(0));
    }
    while i < src.len()
        invariant
            0 <= i <= src@.len(),
            dst@ == old(dst)@ + src@.take(i as int),
        decreases src@.len() - i,
    {
        dst.push(src[i]);
        proof {
            assert(dst@ =~= old(dst)@ + src@.take(i + 1));
        }
        i += 1;
    }
    proof {
        assert(old(dst)@ + src@.take(src@.len() as int) =~= old(dst)@ + src@);
    }
}

/// Collects the characters of a string slice.
pub fn chars_of(s: &str) -> (v: Vec<char>)
    ensures
        v@ == s@,
{
    let n = s.unicode_len();
    let mut v: Vec<char> = Vec::new();
    let mut i: usize = 0;
    while i < n
        invariant
            0 <= i <= n == s@.len(),
            v@ == s@.take(i as int),
        decreases n - i,
    {
        let c = s.get_char(i);
        v.push(c);
        proof {
            assert(v@ =~= s@.take(i + 1));
        }
        i += 1;
    }
    proof {
        assert(v@ =~= s@);
    }
    v
}

/// Relies on `String`'s `FromIterator<char>` impl: collecting characters
/// yields the string of exactly those characters, in order.
#[verifier::external_body]
pub fn string_from_chars(v: &Vec<char>) -> (s: String)
    ensures
        s@ == v@,
{
    v.iter().collect()
}

/// Tests a character sequence against a string slice.
pub fn str_eq_chars(v: &Vec<char>, s: &str) -> (r: bool)
    ensures
        r == (v@ == s@),
{
    let n = s.unicode_len();
    if v.len() != n {
        return false;
    }
    let mut i: usize = 0;
    while i < n
        invariant
            0 <= i <= n == s@.len() == v@.len(),
            forall|k: int| 0 <= k < i ==> v@[k] == s@[k],
        decreases n - i,
    {
        if v[i] != s.get_char(i) {
            return false;
        }
        i += 1;
    }
    proof {
        assert(v@ =~= s@);
    }
    true
}

/// Tests two string slices for equality of their characters.
pub fn str_eq(a: &str, b: &str) -> (r: bool)
    ensures
        r == (a@ == b@),
{
    let n = a.unicode_len();
    if b.unicode_len() != n {
        return false;
    }
    let mut i: usize = 0;
    while i < n
        invariant
            0 <= i <= n == a@.len() == b@.len(),
            forall|k: int| 0 <= k < i ==> a@[k] == b@[k],
        decreases n - i,
    {
        if a.get_char(i) != b.get_char(i) {
            return false;
        }
        i += 1;
    }
    proof {
        assert(a@ =~= b@);
    }
    true
}

} // verus!

//! Character-level text handling: reading a string's characters, building
//! strings, trimming, splitting, and reading and writing integers.
use vstd::prelude::*;

verus! {

broadcast use vstd::string::group_string_axioms;

/// The characters of `s`, in order.
pub fn chars_of(s: &str) -> (r: Vec<char>)
    ensures
        r@ == s@,
{
    let mut r: Vec<char> = Vec::new();
    for c in it: s.chars()
        invariant
            r@ == it.seq().take(it.index()),
    {
        r.push(c);
    }
    r
}

} // verus!

verus! {

/// Relies on `String::push`: appends one character to the string.
#[verifier::external_body]
fn push_char(s: &mut String, c: char)
    ensures
        final(s)@ == old(s)@.push(c),
{
    s.push(c);
}

/// Appends the characters `cs` to `s`.
pub fn push_chars(s: &mut String, cs: &Vec<char>)
    ensures
        final(s)@ == old(s)@ + cs@,
{
    let mut i: usize = 0;
    while i < cs.len()
        invariant
            i <= cs.len(),
            s@ == old(s)@ + cs@.take(i as int),
        decreases cs.len() - i,
    {
        push_char(s, cs[i]);
        proof {
            assert(cs@.take(i as int + 1) =~= cs@.take(i as int).push(cs@[i as int]));
        }
        i += 1;
    }
    proof {
        assert(cs@.take(cs.len() as int) =~= cs@);
    }
}

/// Appends the characters of `t` to `s`.
pub fn push_str(s: &mut String, t: &str)
    ensures
        final(s)@ == old(s)@ + t@,
{
    let cs = chars_of(t);
    push_chars(s, &cs);
}

/// The string of the characters `cs`.
pub fn string_of(cs: &Vec<char>) -> (r: String)
    ensures
        r@ == cs@,
{
    let mut r = String::new();
    push_chars(&mut r, cs);
    proof {
        assert(Seq::<char>::empty() + cs@ =~= cs@);
    }
    r
}

/// Whether `c` is white space in the sense of Unicode's `White_Space`.
pub open spec fn is_ws(c: char) -> bool {
    let u = c as u32;
    (9 <= u <= 13) || u == 32 || u == 0x85 || u == 0xA0 || u == 0x1680 || (0x2000 <= u <= 0x200A)
        || u == 0x2028 || u == 0x2029 || u == 0x202F || u == 0x205F || u == 0x3000
}

pub fn is_whitespace(c: char) -> (r: bool)
    ensures
        r == is_ws(c),
{
    let u = c as u32;
    (9 <= u && u <= 13) || u == 32 || u == 0x85 || u == 0xA0 || u == 0x1680 || (0x2000 <= u && u
        <= 0x200A) || u == 0x2028 || u == 0x2029 || u == 0x202F || u == 0x205F || u == 0x3000
}

pub open spec fn trim_start(s: Seq<char>) -> Seq<char>
    decreases s.len(),
{
    if s.len() > 0 && is_ws(s[0]) {
        trim_start(s.drop_first())
    } else {
        s
    }
}

pub open spec fn trim_end(s: Seq<char>) -> Seq<char>
    decreases s.len(),
{
    if s.len() > 0 && is_ws(s.last()) {
        trim_end(s.drop_last())
    } else {
        s
    }
}

/// `s` without white space at either end.
pub open spec fn trim(s: Seq<char>) -> Seq<char> {
    trim_end(trim_start(s))
}

/// The characters of `v` from `lo` up to `hi`.
pub fn slice(v: &Vec<char>, lo: usize, hi: usize) -> (r: Vec<char>)
    requires
        lo <= hi <= v.len(),
    ensures
        r@ == v@.subrange(lo as int, hi as int),
{
    let mut r: Vec<char> = Vec::new();
    let mut i = lo;
    while i < hi
        invariant
            lo <= i <= hi <= v.len(),
            r@ == v@.subrange(lo as int, i as int),
        decreases hi - i,
    {
        r.push(v[i]);
        proof {
            assert(v@.subrange(lo as int, i as int + 1) =~= v@.subrange(lo as int, i as int).push(
                v@[i as int],
            ));
        }
        i += 1;
    }
    r
}

/// `v` without white space at either end.
pub fn trimmed(v: &Vec<char>) -> (r: Vec<char>)
    ensures
        r@ == trim(v@),
{
    let mut lo: usize = 0;
    proof {
        assert(v@.skip(0) =~= v@);
    }
    while lo < v.len() && is_whitespace(v[lo])
        invariant
            lo <= v.len(),
            trim_start(v@) == trim_start(v@.skip(lo as int)),
        decreases v.len() - lo,
    {
        proof {
            assert(v@.skip(lo as int).drop_first() =~= v@.skip(lo as int + 1));
        }
        lo += 1;
    }
    let mut hi: usize = v.len();
    proof {
        assert(v@.skip(lo as int) =~= v@.subrange(lo as int, hi as int));
        assert(trim_start(v@.skip(lo as int)) == v@.skip(lo as int));
    }
    while hi > lo && is_whitespace(v[hi - 1])
        invariant
            lo <= hi <= v.len(),
            trim(v@) == trim_end(v@.subrange(lo as int, hi as int)),
        decreases hi,
    {
        proof {
            assert(v@.subrange(lo as int, hi as int).drop_last() =~= v@.subrange(lo as int, hi - 1));
        }
        hi -= 1;
    }
    slice(v, lo, hi)
}

/// The parts of `s` before and after its first `c`, if it has one.
pub open spec fn split_first(s: Seq<char>, c: char) -> Option<(Seq<char>, Seq<char>)>
    decreases s.len(),
{
    if s.len() == 0 {
        None
    } else if s[0] == c {
        Some((Seq::empty(), s.drop_first()))
    } else {
        match split_first(s.drop_first(), c) {
            Some(p) => Some((seq![s[0]] + p.0, p.1)),
            None => None,
        }
    }
}

proof fn lemma_split_first(s: Seq<char>, c: char, p: int)
    requires
        0 <= p <= s.len(),
        forall|k: int| 0 <= k < p ==> s[k] != c,
        p < s.len() ==> s[p] == c,
    ensures
        split_first(s, c) == if p < s.len() {
            Some((s.take(p), s.skip(p + 1)))
        } else {
            None::<(Seq<char>, Seq<char>)>
        },
    decreases s.len(),
{
    if s.len() > 0 && p > 0 {
        let t = s.drop_first();
        assert forall|k: int| 0 <= k < p - 1 implies t[k] != c by {
            assert(t[k] == s[k + 1]);
        }
        lemma_split_first(t, c, p - 1);
        if p < s.len() {
            assert(seq![s[0]] + t.take(p - 1) =~= s.take(p));
            assert(t.skip(p) =~= s.skip(p + 1));
        }
    } else if s.len() > 0 {
        assert(s.take(0) =~= Seq::<char>::empty());
        assert(s.drop_first() =~= s.skip(1));
    }
}

/// The parts of `v` before and after its first `c`, if it has one.
pub fn split_once(v: &Vec<char>, c: char) -> (r: Option<(Vec<char>, Vec<char>)>)
    ensures
        match split_first(v@, c) {
            Some(p) => r matches Some(q) && q.0@ == p.0 && q.1@ == p.1,
            None => r is None,
        },
{
    let mut p: usize = 0;
    while p < v.len() && v[p] != c
        invariant
            p <= v.len(),
            forall|k: int| 0 <= k < p ==> v@[k] != c,
        decreases v.len() - p,
    {
        p += 1;
    }
    proof {
        lemma_split_first(v@, c, p as int);
    }
    if p < v.len() {
        let a = slice(v, 0, p);
        let b = slice(v, p + 1, v.len());
        proof {
            assert(v@.subrange(0, p as int) =~= v@.take(p as int));
            assert(v@.subrange(p as int + 1, v.len() as int) =~= v@.skip(p as int + 1));
        }
        Some((a, b))
    } else {
        None
    }
}

pub proof fn lemma_split_first_len(s: Seq<char>, c: char)
    ensures
        split_first(s, c) matches Some(p) ==> p.0.len() + p.1.len() + 1 == s.len(),
    decreases s.len(),
{
    if s.len() > 0 && s[0] != c {
        lemma_split_first_len(s.drop_first(), c);
    }
}

/// All the parts of `s` between the occurrences of `c`.
pub open spec fn split_all(s: Seq<char>, c: char) -> Seq<Seq<char>>
    decreases s.len(),
{
    match split_first(s, c) {
        Some(p) => {
            if p.1.len() < s.len() {
                seq![p.0] + split_all(p.1, c)
            } else {
                seq![s]
            }
        },
        None => seq![s],
    }
}

/// `s` with every occurrence of `pat` taken out, from left to right.
pub open spec fn remove_all(s: Seq<char>, pat: Seq<char>) -> Seq<char>
    decreases s.len(),
{
    if pat.len() == 0 || s.len() < pat.len() {
        s
    } else if s.take(pat.len() as int) == pat {
        remove_all(s.skip(pat.len() as int), pat)
    } else {
        seq![s[0]] + remove_all(s.skip(1), pat)
    }
}

/// Whether `pat` occurs in `v` at position `i`.
fn occurs_at(v: &Vec<char>, i: usize, pat: &Vec<char>) -> (r: bool)
    requires
        i <= v.len(),
    ensures
        r == (i + pat.len() <= v.len() && v@.subrange(i as int, i + pat.len()) == pat@),
{
    if pat.len() > v.len() - i {
        return false;
    }
    let mut k: usize = 0;
    while k < pat.len()
        invariant
            k <= pat.len(),
            i + pat.len() <= v.len(),
            forall|m: int| 0 <= m < k ==> v@[i + m] == pat@[m],
        decreases pat.len() - k,
    {
        if v[i + k] != pat[k] {
            proof {
                assert(v@.subrange(i as int, i + pat.len())[k as int] != pat@[k as int]);
            }
            return false;
        }
        k += 1;
    }
    proof {
        assert(v@.subrange(i as int, i + pat.len()) =~= pat@);
    }
    true
}

/// `v` with every occurrence of `pat` taken out, from left to right.
pub fn without(v: &Vec<char>, pat: &Vec<char>) -> (r: Vec<char>)
    ensures
        r@ == remove_all(v@, pat@),
{
    let mut out: Vec<char> = Vec::new();
    let mut i: usize = 0;
    proof {
        assert(v@.skip(0) =~= v@);
    }
    while i < v.len()
        invariant
            i <= v.len(),
            remove_all(v@, pat@) == out@ + remove_all(v@.skip(i as int), pat@),
        decreases v.len() - i,
    {
        let rest = Ghost(v@.skip(i as int));
        if pat.len() > 0 && occurs_at(v, i, pat) {
            proof {
                assert(rest@.take(pat.len() as int) =~= v@.subrange(i as int, i + pat.len()));
                assert(rest@.skip(pat.len() as int) =~= v@.skip(i + pat.len()));
            }
            i += pat.len();
        } else {
            proof {
                if pat.len() > 0 && rest@.len() >= pat.len() {
                    assert(rest@.take(pat.len() as int) =~= v@.subrange(i as int, i + pat.len()));
                }
                assert(rest@.skip(1) =~= v@.skip(i + 1));
                if pat.len() == 0 || rest@.len() < pat.len() {
                    assert(rest@ =~= seq![v@[i as int]] + v@.skip(i + 1));
                    if pat.len() > 0 {
                        assert(v@.skip(i + 1).len() < pat.len());
                    }
                    assert(remove_all(v@.skip(i + 1), pat@) == v@.skip(i + 1));
                }
                assert(remove_all(rest@, pat@) == seq![v@[i as int]] + remove_all(v@.skip(i + 1), pat@));
            }
            let ghost o = out@;
            out.push(v[i]);
            proof {
                assert(o + (seq![v@[i as int]] + remove_all(v@.skip(i + 1), pat@)) =~= out@ + remove_all(
                    v@.skip(i + 1),
                    pat@,
                ));
            }
            i += 1;
        }
    }
    proof {
        assert(v@.skip(v.len() as int) =~= Seq::<char>::empty());
        assert(out@ + Seq::<char>::empty() =~= out@);
    }
    out
}

} // verus!

verus! {

pub open spec fn is_digit(c: char) -> bool {
    48 <= c as u32 <= 57
}

pub open spec fn digit_value(c: char) -> int {
    c as u32 - 48
}

/// The value of the decimal digits `d`.
pub open spec fn digits_value(d: Seq<char>) -> int
    decreases d.len(),
{
    if d.len() == 0 {
        0
    } else {
        digits_value(d.drop_last()) * 10 + digit_value(d.last())
    }
}

pub open spec fn all_digits(d: Seq<char>) -> bool {
    forall|i: int| 0 <= i < d.len() ==> is_digit(#[trigger] d[i])
}

/// The integer that `s` writes: decimal digits, at least one, after an
/// optional `+` or `-`.
pub open spec fn numeral_value(s: Seq<char>) -> Option<int> {
    if s.len() > 0 && (s[0] == '+' || s[0] == '-') {
        let d = s.drop_first();
        if d.len() > 0 && all_digits(d) {
            Some(
                if s[0] == '-' {
                    -digits_value(d)
                } else {
                    digits_value(d)
                },
            )
        } else {
            None
        }
    } else if s.len() > 0 && all_digits(s) {
        Some(digits_value(s))
    } else {
        None
    }
}

/// What `str::parse::<i64>` gives for `s`.
pub open spec fn i64_of(s: Seq<char>) -> Option<int> {
    match numeral_value(s) {
        Some(v) => if i64::MIN <= v <= i64::MAX {
            Some(v)
        } else {
            None
        },
        None => None,
    }
}

/// What `str::parse::<u32>` gives for `s`: no `-` sign is allowed.
pub open spec fn u32_of(s: Seq<char>) -> Option<int> {
    match numeral_value(s) {
        Some(v) => if s[0] != '-' && 0 <= v <= u32::MAX {
            Some(v)
        } else {
            None
        },
        None => None,
    }
}

proof fn lemma_digits_value_nonneg(d: Seq<char>)
    requires
        all_digits(d),
    ensures
        digits_value(d) >= 0,
    decreases d.len(),
{
    if d.len() > 0 {
        assert(is_digit(d[d.len() - 1]));
        lemma_digits_value_nonneg(d.drop_last());
    }
}

const CAP: u128 = 9_223_372_036_854_775_808;

/// The digits of `v` from `start` on, if all are digits and at least one:
/// their value, or `None` where it passes `CAP`.
fn digits_from(v: &Vec<char>, start: usize) -> (r: (bool, Option<u128>))
    requires
        start <= v.len(),
    ensures
        r.0 == (start < v.len() && all_digits(v@.skip(start as int))),
        r.0 && r.1 is Some ==> r.1->0 == digits_value(v@.skip(start as int)) && r.1->0 <= CAP,
        r.0 && r.1 is None ==> digits_value(v@.skip(start as int)) > CAP,
{
    let ghost d = v@.skip(start as int);
    let mut acc: u128 = 0;
    let mut over = false;
    let mut i = start;
    proof {
        assert(d.take(0) =~= Seq::<char>::empty());
    }
    while i < v.len()
        invariant
            start <= i <= v.len(),
            d == v@.skip(start as int),
            all_digits(d.take(i - start)),
            !over ==> acc == digits_value(d.take(i - start)) && acc <= CAP,
            over ==> digits_value(d.take(i - start)) > CAP,
        decreases v.len() - i,
    {
        let c = v[i];
        let u = c as u32;
        if !(48 <= u && u <= 57) {
            proof {
                assert(d[i - start] == c);
            }
            return (false, None);
        }
        proof {
            let k = i - start;
            assert(d.take(k + 1).drop_last() =~= d.take(k));
            assert(d.take(k + 1).last() == c);
            assert forall|m: int| 0 <= m < k + 1 implies is_digit(#[trigger] d.take(k + 1)[m]) by {
                if m < k {
                    assert(d.take(k + 1)[m] == d.take(k)[m]);
                }
            }
            lemma_digits_value_nonneg(d.take(k));
        }
        if !over {
            let next = acc * 10 + (u - 48) as u128;
            if next > CAP {
                over = true;
            } else {
                acc = next;
            }
        }
        i += 1;
    }
    proof {
        assert(d.take(i - start) =~= d);
    }
    if i == start {
        return (false, None);
    }
    if over {
        (true, None)
    } else {
        (true, Some(acc))
    }
}

/// A numeral's sign and size, if `v` is a numeral whose size is at most `CAP`.
fn numeral(v: &Vec<char>) -> (r: Option<(bool, u128)>)
    ensures
        r matches Some(p) ==> p.1 <= CAP && numeral_value(v@) == Some(
            if p.0 {
                -(p.1 as int)
            } else {
                p.1 as int
            },
        ) && (p.0 <==> v@[0] == '-'),
        r is None ==> match numeral_value(v@) {
            Some(x) => x > CAP || x < -CAP,
            None => true,
        },
{
    if v.len() == 0 {
        return None;
    }
    let signed = v[0] == '+' || v[0] == '-';
    let start: usize = if signed {
        1
    } else {
        0
    };
    let (ok, value) = digits_from(v, start);
    proof {
        assert(v@.skip(0) =~= v@);
        assert(v@.skip(1) =~= v@.drop_first());
        if ok {
            lemma_digits_value_nonneg(v@.skip(start as int));
        }
        if !signed && ok {
            assert(v@.skip(0)[0] == v@[0]);
            assert(is_digit(v@[0]));
        }
    }
    if !ok {
        return None;
    }
    match value {
        Some(n) => Some((v[0] == '-', n)),
        None => None,
    }
}

/// `str::parse::<i64>` on the characters `v`.
pub fn parse_i64(v: &Vec<char>) -> (r: Option<i64>)
    ensures
        match i64_of(v@) {
            Some(x) => r == Some(x as i64),
            None => r is None,
        },
{
    match numeral(v) {
        Some((neg, n)) => {
            if neg {
                Some((-(n as i128)) as i64)
            } else if n <= 9_223_372_036_854_775_807 {
                Some(n as i64)
            } else {
                None
            }
        },
        None => None,
    }
}

/// `str::parse::<u32>` on the characters `v`.
pub fn parse_u32(v: &Vec<char>) -> (r: Option<u32>)
    ensures
        match u32_of(v@) {
            Some(x) => r == Some(x as u32),
            None => r is None,
        },
{
    match numeral(v) {
        Some((neg, n)) => {
            if neg || n > 4_294_967_295 {
                None
            } else {
                Some(n as u32)
            }
        },
        None => None,
    }
}

pub open spec fn digit_char(d: int) -> char {
    (d + 48) as char
}

/// The decimal digits of `n`.
pub open spec fn digits_of(n: nat) -> Seq<char>
    decreases n,
{
    if n < 10 {
        seq![digit_char(n as int)]
    } else {
        digits_of(n / 10).push(digit_char((n % 10) as int))
    }
}

/// `n` in decimal, with a `-` when negative.
pub open spec fn decimal(n: int) -> Seq<char> {
    if n < 0 {
        seq!['-'] + digits_of((-n) as nat)
    } else {
        digits_of(n as nat)
    }
}

fn push_digits(s: &mut String, n: u128)
    ensures
        final(s)@ == old(s)@ + digits_of(n as nat),
    decreases n,
{
    if n >= 10 {
        push_digits(s, n / 10);
    }
    let d = (n % 10) as u8;
    let c = (d + 48) as char;
    push_char(s, c);
    proof {
        if n >= 10 {
            assert(old(s)@ + digits_of(n as nat) =~= old(s)@ + digits_of((n / 10) as nat) + seq![c]);
        } else {
            assert(old(s)@ + digits_of(n as nat) =~= old(s)@.push(c));
        }
    }
}

/// Appends `n` in decimal.
pub fn push_decimal(s: &mut String, n: i128)
    requires
        n > i128::MIN,
    ensures
        final(s)@ == old(s)@ + decimal(n as int),
{
    if n < 0 {
        push_char(s, '-');
        push_digits(s, (-n) as u128);
        proof {
            assert(old(s)@ + decimal(n as int) =~= old(s)@.push('-') + digits_of((-n) as nat));
        }
    } else {
        push_digits(s, n as u128);
    }
}

} // verus!

verus! {

/// Whether `a` and `b` hold the same characters.
pub fn same_text(a: &str, b: &str) -> (r: bool)
    ensures
        r == (a@ == b@),
{
    let x = chars_of(a);
    let y = chars_of(b);
    if x.len() != y.len() {
        return false;
    }
    let mut i: usize = 0;
    while i < x.len()
        invariant
            i <= x.len(),
            x.len() == y.len(),
            x@ == a@,
            y@ == b@,
            forall|k: int| 0 <= k < i ==> x@[k] == y@[k],
        decreases x.len() - i,
    {
        if x[i] != y[i] {
            proof {
                assert(x@[i as int] != y@[i as int]);
            }
            return false;
        }
        i += 1;
    }
    proof {
        assert(x@ =~= y@);
    }
    true
}

/// Whether `s` starts with `p`.
pub fn has_prefix(s: &str, p: &str) -> (r: bool)
    ensures
        r == (p@.len() <= s@.len() && s@.take(p@.len() as int) == p@),
{
    let x = chars_of(s);
    let y = chars_of(p);
    if y.len() > x.len() {
        return false;
    }
    let mut i: usize = 0;
    while i < y.len()
        invariant
            i <= y.len() <= x.len(),
            x@ == s@,
            y@ == p@,
            forall|k: int| 0 <= k < i ==> x@[k] == y@[k],
        decreases y.len() - i,
    {
        if x[i] != y[i] {
            proof {
                assert(x@.take(y.len() as int)[i as int] == x@[i as int]);
                assert(x@.take(y.len() as int)[i as int] != y@[i as int]);
            }
            return false;
        }
        i += 1;
    }
    proof {
        assert(x@.take(y.len() as int) =~= y@);
    }
    true
}

/// `str::parse::<i32>` on the characters `v`.
pub open spec fn i32_of(s: Seq<char>) -> Option<int> {
    match numeral_value(s) {
        Some(v) => if i32::MIN <= v <= i32::MAX {
            Some(v)
        } else {
            None
        },
        None => None,
    }
}

pub fn parse_i32(v: &Vec<char>) -> (r: Option<i32>)
    ensures
        match i32_of(v@) {
            Some(x) => r == Some(x as i32),
            None => r is None,
        },
{
    match parse_i64(v) {
        Some(n) => {
            if -2147483648 <= n && n <= 2147483647 {
                Some(n as i32)
            } else {
                None
            }
        },
        None => None,
    }
}

} // verus!

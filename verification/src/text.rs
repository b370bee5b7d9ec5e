//! String building blocks shared by the parsers and message writers.

use vstd::prelude::*;
use vstd::string::StrSliceExecFns;
use vstd::string::StringExecFns;

verus! {

/// Character-wise equality of two string slices.
pub fn str_eq(a: &str, b: &str) -> (r: bool)
    ensures
        r == (a@ == b@),
{
    let n = a.unicode_len();
    let m = b.unicode_len();
    if n != m {
        return false;
    }
    let mut i: usize = 0;
    while i < n
        invariant
            n == a@.len(),
            m == b@.len(),
            n == m,
            i <= n,
            forall|j: int| 0 <= j < i ==> a@[j] == b@[j],
        decreases n - i,
    {
        if a.get_char(i) != b.get_char(i) {
            return false;
        }
        i += 1;
    }
    assert(a@ =~= b@);
    true
}

/// Whether `p` is a prefix of `s`.
pub fn starts_with(s: &str, p: &str) -> (r: bool)
    ensures
        r == p@.is_prefix_of(s@),
{
    let n = s.unicode_len();
    let m = p.unicode_len();
    if m > n {
        return false;
    }
    let mut i: usize = 0;
    while i < m
        invariant
            n == s@.len(),
            m == p@.len(),
            m <= n,
            i <= m,
            forall|j: int| 0 <= j < i ==> s@[j] == p@[j],
        decreases m - i,
    {
        if s.get_char(i) != p.get_char(i) {
            return false;
        }
        i += 1;
    }
    assert(p@ =~= s@.subrange(0, m as int));
    true
}

/// The part of `s` after its first `n` characters.
pub fn skip_chars<'a>(s: &'a str, n: usize) -> (r: &'a str)
    requires
        n <= s@.len(),
    ensures
        r@ == s@.skip(n as int),
{
    let len = s.unicode_len();
    s.substring_char(n, len)
}

/// `a` followed by `b`.
pub fn cat2(a: &str, b: &str) -> (r: String)
    ensures
        r@ == a@ + b@,
{
    let mut s = String::from_str(a);
    s.append(b);
    s
}

/// `a`, `b` and `c` one after the other.
pub fn cat3(a: &str, b: &str, c: &str) -> (r: String)
    ensures
        r@ == a@ + b@ + c@,
{
    let mut s = String::from_str(a);
    s.append(b);
    s.append(c);
    s
}


pub open spec fn is_digit(c: char) -> bool {
    '0' <= c <= '9'
}

pub open spec fn digit_value(c: char) -> nat {
    (c as int - '0' as int) as nat
}

/// The number written by the decimal digits `s`.
pub open spec fn digits_value(s: Seq<char>) -> nat
    decreases s.len(),
{
    if s.len() == 0 {
        0
    } else {
        digits_value(s.drop_last()) * 10 + digit_value(s.last())
    }
}

pub open spec fn all_digits(s: Seq<char>) -> bool {
    forall|i: int| 0 <= i < s.len() ==> is_digit(#[trigger] s[i])
}

/// What `u32::from_str` accepts: an optional `+`, then one or more ASCII
/// digits whose value fits in 32 bits.
pub open spec fn parse_u32_spec(s: Seq<char>) -> Option<u32> {
    let d = if s.len() > 0 && s[0] == '+' {
        s.skip(1)
    } else {
        s
    };
    if d.len() > 0 && all_digits(d) && digits_value(d) <= u32::MAX {
        Some(digits_value(d) as u32)
    } else {
        None
    }
}

proof fn lemma_digits_prefix(s: Seq<char>, i: int)
    requires
        0 <= i <= s.len(),
        all_digits(s),
    ensures
        digits_value(s.take(i)) <= digits_value(s),
    decreases s.len() - i,
{
    if i < s.len() {
        lemma_digits_prefix(s, i + 1);
        assert(s.take(i + 1).drop_last() =~= s.take(i));
        let v = digits_value(s.take(i));
        assert(digits_value(s.take(i + 1)) == v * 10 + digit_value(s[i]));
        assert(v <= v * 10) by (nonlinear_arith);
    } else {
        assert(s.take(i) =~= s);
    }
}

/// Decimal number parsing, as `str::parse::<u32>` does it.
pub fn parse_u32(s: &str) -> (r: Option<u32>)
    ensures
        r == parse_u32_spec(s@),
{
    let n = s.unicode_len();
    let start: usize = if n > 0 && s.get_char(0) == '+' {
        1
    } else {
        0
    };
    let ghost d = if s@.len() > 0 && s@[0] == '+' {
        s@.skip(1)
    } else {
        s@
    };
    assert(d =~= s@.skip(start as int));
    if start >= n {
        return None;
    }
    let mut acc: u64 = 0;
    let mut i: usize = start;
    while i < n
        invariant
            n == s@.len(),
            start <= i <= n,
            d == s@.skip(start as int),
            d == (if s@.len() > 0 && s@[0] == '+' {
                s@.skip(1)
            } else {
                s@
            }),
            all_digits(d.take(i - start)),
            acc == digits_value(d.take(i - start)),
            acc <= u32::MAX,
        decreases n - i,
    {
        let c = s.get_char(i);
        assert(c == d[i - start]);
        if !('0' <= c && c <= '9') {
            assert(!is_digit(d[i - start]));
            assert(!all_digits(d));
            return None;
        }
        let dv = (c as u64) - ('0' as u64);
        assert(d.take(i + 1 - start).drop_last() =~= d.take(i - start));
        assert(all_digits(d.take(i + 1 - start))) by {
            assert forall|k: int| 0 <= k < i + 1 - start implies is_digit(
                #[trigger] d.take(i + 1 - start)[k],
            ) by {
                if k < i - start {
                    assert(d.take(i + 1 - start)[k] == d.take(i - start)[k]);
                }
            }
        }
        assert(acc * 10 + dv <= 0xffff_ffff * 10 + 9) by (nonlinear_arith)
            requires
                acc <= 0xffff_ffff,
                dv <= 9,
        ;
        let next = acc * 10 + dv;
        assert(next == digits_value(d.take(i + 1 - start)));
        if next > 0xffff_ffff {
            proof {
                if all_digits(d) {
                    lemma_digits_prefix(d, i + 1 - start);
                }
            }
            return None;
        }
        acc = next;
        i += 1;
    }
    assert(d.take(n - start) =~= d);
    Some(acc as u32)
}

/// A digit as a one-character string slice.
fn digit_str(d: u64) -> (r: &'static str)
    requires
        d < 10,
    ensures
        r@ == seq![('0' as u64 + d) as char],
{
    proof {
        reveal_strlit("0");
        reveal_strlit("1");
        reveal_strlit("2");
        reveal_strlit("3");
        reveal_strlit("4");
        reveal_strlit("5");
        reveal_strlit("6");
        reveal_strlit("7");
        reveal_strlit("8");
        reveal_strlit("9");
    }
    let r = if d == 0 {
        "0"
    } else if d == 1 {
        "1"
    } else if d == 2 {
        "2"
    } else if d == 3 {
        "3"
    } else if d == 4 {
        "4"
    } else if d == 5 {
        "5"
    } else if d == 6 {
        "6"
    } else if d == 7 {
        "7"
    } else if d == 8 {
        "8"
    } else {
        "9"
    };
    assert(r@ =~= seq![('0' as u64 + d) as char]);
    r
}

/// The decimal writing of `n`.
pub open spec fn decimal(n: nat) -> Seq<char>
    decreases n,
{
    if n < 10 {
        seq![('0' as nat + n) as char]
    } else {
        decimal(n / 10) + seq![('0' as nat + n % 10) as char]
    }
}

/// The decimal writing of `n` is made of digits, and reads back as `n`.
pub proof fn lemma_decimal_digits(n: nat)
    ensures
        decimal(n).len() >= 1,
        all_digits(decimal(n)),
        digits_value(decimal(n)) == n,
    decreases n,
{
    let d = decimal(n);
    if n < 10 {
        let c = ('0' as nat + n) as char;
        assert(d == seq![c]);
        assert(d.drop_last() =~= Seq::<char>::empty());
        assert(digit_value(c) == n);
        assert(digits_value(d.drop_last()) == 0);
        assert(digits_value(d) == digits_value(d.drop_last()) * 10 + digit_value(d.last()));
    } else {
        lemma_decimal_digits(n / 10);
        let c = ('0' as nat + n % 10) as char;
        assert(d == decimal(n / 10) + seq![c]);
        assert(d.drop_last() =~= decimal(n / 10));
        assert(d.last() == c);
        assert(digit_value(c) == n % 10);
        assert((n / 10) * 10 + n % 10 == n) by (nonlinear_arith);
        assert(digits_value(d) == digits_value(d.drop_last()) * 10 + digit_value(d.last()));
        assert forall|i: int| 0 <= i < d.len() implies is_digit(#[trigger] d[i]) by {
            if i < d.len() - 1 {
                assert(d[i] == decimal(n / 10)[i]);
            }
        }
    }
}

/// A number within 32 bits reads back from its decimal writing.
pub proof fn lemma_parse_decimal(n: u32)
    ensures
        parse_u32_spec(decimal(n as nat)) == Some(n),
{
    lemma_decimal_digits(n as nat);
    let d = decimal(n as nat);
    assert(is_digit(d[0]));
}

/// The decimal writing of `n`, as `n.to_string()` gives it.
pub fn u64_to_decimal(n: u64) -> (r: String)
    ensures
        r@ == decimal(n as nat),
    decreases n,
{
    if n < 10 {
        let s = String::from_str(digit_str(n));
        s
    } else {
        let mut s = u64_to_decimal(n / 10);
        s.append(digit_str(n % 10));
        s
    }
}

/// The decimal writing of `n`, with a minus sign when negative.
pub open spec fn signed_decimal(n: int) -> Seq<char> {
    if n < 0 {
        seq!['-'] + decimal((-n) as nat)
    } else {
        decimal(n as nat)
    }
}

/// The decimal writing of `n`, as `n.to_string()` gives it.
pub fn i64_to_decimal(n: i64) -> (r: String)
    ensures
        r@ == signed_decimal(n as int),
{
    if n < 0 {
        let m: u64 = if n == i64::MIN {
            0x8000_0000_0000_0000u64
        } else {
            (-n) as u64
        };
        let mut s = String::from_str("-");
        proof {
            reveal_strlit("-");
        }
        let d = u64_to_decimal(m);
        s.append(d.as_str());
        s
    } else {
        u64_to_decimal(n as u64)
    }
}


/// The characters of `s`.
pub fn chars_of(s: &str) -> (v: Vec<char>)
    ensures
        v@ == s@,
{
    let mut v: Vec<char> = Vec::new();
    for c in it: s.chars()
        invariant
            v@ == it.seq().take(it.index()),
    {
        v.push(c);
    }
    v
}

/// The number of non-overlapping occurrences of `n` in `h`, found from
/// left to right (as `str::matches` finds them).
pub open spec fn count_matches(h: Seq<char>, n: Seq<char>) -> nat
    decreases h.len(),
{
    if n.len() == 0 || h.len() < n.len() {
        0
    } else if n.is_prefix_of(h) {
        1 + count_matches(h.skip(n.len() as int), n)
    } else {
        count_matches(h.skip(1), n)
    }
}

pub proof fn lemma_count_bound(h: Seq<char>, n: Seq<char>)
    requires
        n.len() > 0,
    ensures
        count_matches(h, n) * n.len() <= h.len(),
    decreases h.len(),
{
    if h.len() < n.len() {
        assert(count_matches(h, n) == 0);
        assert(0 * n.len() == 0) by (nonlinear_arith);
    } else if n.is_prefix_of(h) {
        lemma_count_bound(h.skip(n.len() as int), n);
        assert((1 + count_matches(h.skip(n.len() as int), n)) * n.len() == n.len() + count_matches(
            h.skip(n.len() as int),
            n,
        ) * n.len()) by (nonlinear_arith);
    } else {
        lemma_count_bound(h.skip(1), n);
        assert(count_matches(h, n) == count_matches(h.skip(1), n));
    }
}

/// The number of non-overlapping occurrences of `n` in `h`.
pub fn count_occurrences(h: &str, n: &str) -> (r: usize)
    requires
        n@.len() > 0,
    ensures
        r == count_matches(h@, n@),
{
    let hv = chars_of(h);
    let nv = chars_of(n);
    let hl = hv.len();
    let m = nv.len();
    let mut i: usize = 0;
    let mut c: usize = 0;
    proof {
        lemma_count_bound(h@, n@);
        assert(h@.skip(0) =~= h@);
    }
    while i < hl
        invariant
            hv@ == h@,
            nv@ == n@,
            hl == h@.len(),
            m == n@.len(),
            m > 0,
            i <= hl,
            count_matches(h@, n@) == c + count_matches(h@.skip(i as int), n@),
        decreases hl - i,
    {
        let ghost rest = h@.skip(i as int);
        if hl - i < m {
            assert(count_matches(rest, n@) == 0);
            return c;
        }
        let mut j: usize = 0;
        let mut same = true;
        while j < m
            invariant
                hv@ == h@,
                nv@ == n@,
                hl == h@.len(),
                m == n@.len(),
                i + m <= hl,
                j <= m,
                rest == h@.skip(i as int),
                same == forall|k: int| 0 <= k < j ==> rest[k] == n@[k],
            decreases m - j,
        {
            assert(rest[j as int] == hv@[i + j]);
            if hv[i + j] != nv[j] {
                same = false;
            }
            j += 1;
        }
        if same {
            assert(n@.is_prefix_of(rest)) by {
                assert(n@ =~= rest.subrange(0, m as int));
            }
            assert(rest.skip(m as int) =~= h@.skip(i + m));
            proof {
                lemma_count_bound(h@, n@);
                let ch = count_matches(h@, n@);
                assert(ch * m <= hl);
                assert(ch <= hl) by (nonlinear_arith)
                    requires
                        ch * m <= hl,
                        m > 0,
                ;
                assert(count_matches(rest, n@) >= 1);
            }
            c = c + 1;
            i = i + m;
        } else {
            assert(!n@.is_prefix_of(rest)) by {
                let k = choose|k: int| 0 <= k < m && rest[k] != n@[k];
                if n@.is_prefix_of(rest) {
                    assert(rest.subrange(0, m as int)[k] == rest[k]);
                }
            }
            assert(rest.skip(1) =~= h@.skip(i + 1));
            i = i + 1;
        }
    }
    assert(h@.skip(i as int).len() == 0);
    c
}

/// The lines `ls` joined by `sep`.
pub open spec fn join(ls: Seq<Seq<char>>, sep: Seq<char>) -> Seq<char>
    decreases ls.len(),
{
    if ls.len() == 0 {
        seq![]
    } else if ls.len() == 1 {
        ls[0]
    } else {
        join(ls.drop_last(), sep) + sep + ls.last()
    }
}

/// The strings `ls` joined by `sep`.
pub fn join_strings(ls: &Vec<String>, sep: &str) -> (r: String)
    ensures
        r@ == join(Seq::new(ls@.len(), |i: int| ls@[i]@), sep@),
{
    let ghost v = Seq::new(ls@.len(), |i: int| ls@[i]@);
    let mut out = String::new();
    let n = ls.len();
    let mut i: usize = 0;
    while i < n
        invariant
            n == ls@.len(),
            v == Seq::new(ls@.len(), |i: int| ls@[i]@),
            i <= n,
            out@ == join(v.take(i as int), sep@),
        decreases n - i,
    {
        assert(v.take((i + 1) as int).drop_last() =~= v.take(i as int));
        if i > 0 {
            out.append(sep);
        }
        out.append(ls[i].as_str());
        i += 1;
    }
    assert(v.take(n as int) =~= v);
    out
}

} // verus!

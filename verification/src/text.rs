//! Character-level helpers shared by the annotation parser and the leaf
//! composers: string equality, decimal integer parsing, and the shape of
//! floating-point literals (whose values the library carries as text).

use vstd::prelude::*;

verus! {

use vstd::string::StrSliceExecFns;

/// Whether `c` is a decimal digit.
pub open spec fn is_digit(c: char) -> bool {
    '0' <= c && c <= '9'
}

/// Numeric value of a decimal digit.
pub open spec fn digit_val(c: char) -> int {
    c as int - '0' as int
}

/// Whether every character of `s` is a decimal digit.
pub open spec fn all_digits(s: Seq<char>) -> bool {
    forall|i: int| 0 <= i < s.len() ==> is_digit(#[trigger] s[i])
}

/// Value of a digit string read in base ten.
pub open spec fn mag_of(s: Seq<char>) -> int
    decreases s.len(),
{
    if s.len() == 0 {
        0
    } else {
        mag_of(s.drop_last()) * 10 + digit_val(s.last())
    }
}

/// The integer denoted by `s` under the leaf grammar: an optional sign
/// (`+` or `-`) followed by one or more decimal digits. `None` when `s` has
/// another shape.
pub open spec fn spec_parse_int(s: Seq<char>) -> Option<int> {
    if s.len() >= 1 && (s[0] == '-' || s[0] == '+') {
        if s.len() >= 2 && all_digits(s.skip(1)) {
            if s[0] == '-' {
                Some(-mag_of(s.skip(1)))
            } else {
                Some(mag_of(s.skip(1)))
            }
        } else {
            None
        }
    } else {
        if s.len() >= 1 && all_digits(s) {
            Some(mag_of(s))
        } else {
            None
        }
    }
}

/// A digit string denotes a nonnegative value.
pub proof fn lemma_mag_nonneg(s: Seq<char>)
    requires
        all_digits(s),
    ensures
        mag_of(s) >= 0,
    decreases s.len(),
{
    if s.len() > 0 {
        assert(all_digits(s.drop_last()));
        lemma_mag_nonneg(s.drop_last());
    }
}

/// String equality, decided character by character.
pub fn str_eq(a: &str, b: &str) -> (r: bool)
    ensures
        r == (a@ == b@),
{
    let alen: usize = a.unicode_len();
    let blen: usize = b.unicode_len();
    if alen != blen {
        return false;
    }
    let mut i: usize = 0;
    while i < alen
        invariant
            i <= alen,
            alen == a@.len(),
            blen == b@.len(),
            alen == blen,
            forall|j: int| 0 <= j < i ==> a@[j] == b@[j],
        decreases alen - i,
    {
        let ca: char = a.get_char(i);
        let cb: char = b.get_char(i);
        if ca != cb {
            assert(a@[i as int] != b@[i as int]);
            return false;
        }
        i = i + 1;
    }
    proof {
        assert(a@ =~= b@);
    }
    true
}

/// Position of the first `'.'` in `s`, if any.
pub open spec fn first_dot(s: Seq<char>) -> Option<int>
    decreases s.len(),
{
    if s.len() == 0 {
        None
    } else if s[0] == '.' {
        Some(0)
    } else {
        match first_dot(s.skip(1)) {
            None => None,
            Some(k) => Some(k + 1),
        }
    }
}

/// Whether `c` marks an exponent part.
pub open spec fn is_exp_mark(c: char) -> bool {
    c == 'e' || c == 'E'
}

/// Position of the first exponent mark in `s`, if any.
pub open spec fn first_exp(s: Seq<char>) -> Option<int>
    decreases s.len(),
{
    if s.len() == 0 {
        None
    } else if is_exp_mark(s[0]) {
        Some(0)
    } else {
        match first_exp(s.skip(1)) {
            None => None,
            Some(k) => Some(k + 1),
        }
    }
}

/// A mantissa: decimal digits with at most one dot, and at least one digit
/// on one side of it.
pub open spec fn is_mantissa_text(t: Seq<char>) -> bool {
    match first_dot(t) {
        None => t.len() >= 1 && all_digits(t),
        Some(k) => all_digits(t.subrange(0, k)) && all_digits(t.skip(k + 1)) && (k >= 1 || t.len()
            - k - 1 >= 1),
    }
}

/// An exponent part, after the `e`/`E`: an optional sign and then one or
/// more digits.
pub open spec fn is_exponent_text(t: Seq<char>) -> bool {
    let u = if t.len() >= 1 && (t[0] == '+' || t[0] == '-') {
        t.skip(1)
    } else {
        t
    };
    u.len() >= 1 && all_digits(u)
}

/// The shape accepted for a floating-point leaf: an optional sign, a
/// mantissa (digits with at most one dot), and an optional exponent part.
/// This covers the finite decimal forms of a float literal; the library
/// never interprets such text numerically, it only checks the shape.
pub open spec fn is_float_text(s: Seq<char>) -> bool {
    let body = if s.len() >= 1 && (s[0] == '-' || s[0] == '+') {
        s.skip(1)
    } else {
        s
    };
    match first_exp(body) {
        None => is_mantissa_text(body),
        Some(k) => is_mantissa_text(body.subrange(0, k)) && is_exponent_text(body.skip(k + 1)),
    }
}

pub proof fn lemma_first_dot_found(s: Seq<char>, k: int)
    requires
        0 <= k < s.len(),
        s[k] == '.',
        forall|j: int| 0 <= j < k ==> s[j] != '.',
    ensures
        first_dot(s) == Some(k),
    decreases k,
{
    if k > 0 {
        lemma_first_dot_found(s.skip(1), k - 1);
    }
}

pub proof fn lemma_first_dot_missing(s: Seq<char>)
    requires
        forall|j: int| 0 <= j < s.len() ==> s[j] != '.',
    ensures
        first_dot(s) is None,
    decreases s.len(),
{
    if s.len() > 0 {
        lemma_first_dot_missing(s.skip(1));
    }
}

pub proof fn lemma_first_exp_found(s: Seq<char>, k: int)
    requires
        0 <= k < s.len(),
        is_exp_mark(s[k]),
        forall|j: int| 0 <= j < k ==> !is_exp_mark(#[trigger] s[j]),
    ensures
        first_exp(s) == Some(k),
    decreases k,
{
    if k > 0 {
        lemma_first_exp_found(s.skip(1), k - 1);
    }
}

pub proof fn lemma_first_exp_missing(s: Seq<char>)
    requires
        forall|j: int| 0 <= j < s.len() ==> !is_exp_mark(#[trigger] s[j]),
    ensures
        first_exp(s) is None,
    decreases s.len(),
{
    if s.len() > 0 {
        lemma_first_exp_missing(s.skip(1));
    }
}

/// Whether the characters of `s` at positions `from..to` are all digits.
pub fn digits_in_range(s: &str, from: usize, to: usize) -> (r: bool)
    requires
        from <= to <= s@.len(),
    ensures
        r == all_digits(s@.subrange(from as int, to as int)),
{
    let mut i: usize = from;
    while i < to
        invariant
            from <= i <= to <= s@.len(),
            forall|j: int| from <= j < i ==> is_digit(#[trigger] s@[j]),
        decreases to - i,
    {
        let c: char = s.get_char(i);
        if c < '0' || c > '9' {
            assert(!is_digit(s@[i as int]));
            assert(s@.subrange(from as int, to as int)[i - from] == s@[i as int]);
            return false;
        }
        i = i + 1;
    }
    proof {
        let sub = s@.subrange(from as int, to as int);
        assert(forall|j: int| 0 <= j < sub.len() ==> sub[j] == s@[from + j]);
    }
    true
}

/// Whether the characters of `s` at positions `from..to` form a mantissa.
fn mantissa_in_range(s: &str, from: usize, to: usize) -> (r: bool)
    requires
        from <= to <= s@.len(),
    ensures
        r == is_mantissa_text(s@.subrange(from as int, to as int)),
{
    let ghost m = s@.subrange(from as int, to as int);
    proof {
        assert(forall|j: int| 0 <= j < m.len() ==> m[j] == s@[from + j]);
    }
    let mut i: usize = from;
    let mut dot: usize = to;
    let mut found: bool = false;
    while i < to
        invariant
            from <= i <= to <= s@.len(),
            m == s@.subrange(from as int, to as int),
            forall|j: int| 0 <= j < m.len() ==> m[j] == s@[from + j],
            !found ==> forall|j: int| from <= j < i ==> s@[j] != '.',
            found ==> from <= dot < i && s@[dot as int] == '.' && (forall|j: int|
                from <= j < dot ==> s@[j] != '.'),
        decreases to - i,
    {
        let c: char = s.get_char(i);
        if c == '.' && !found {
            dot = i;
            found = true;
        }
        i = i + 1;
    }
    if !found {
        proof {
            lemma_first_dot_missing(m);
        }
        from < to && digits_in_range(s, from, to)
    } else {
        proof {
            lemma_first_dot_found(m, dot - from);
        }
        let head_ok: bool = digits_in_range(s, from, dot);
        let tail_ok: bool = digits_in_range(s, dot + 1, to);
        proof {
            assert(s@.subrange(from as int, dot as int) =~= m.subrange(0, dot - from));
            assert(s@.subrange(dot + 1, to as int) =~= m.skip(dot - from + 1));
        }
        head_ok && tail_ok && (dot > from || dot + 1 < to)
    }
}

/// Whether `s` has the shape of `is_float_text`.
pub fn check_float_text(s: &str) -> (r: bool)
    ensures
        r == is_float_text(s@),
{
    let len: usize = s.unicode_len();
    if len == 0 {
        return false;
    }
    let c0: char = s.get_char(0);
    let signed: bool = c0 == '-' || c0 == '+';
    let start: usize = if signed {
        1
    } else {
        0
    };
    let ghost body: Seq<char> = if signed {
        s@.skip(1)
    } else {
        s@
    };
    proof {
        assert(forall|j: int| 0 <= j < body.len() ==> body[j] == s@[j + start]);
    }
    let mut i: usize = start;
    let mut epos: usize = len;
    let mut efound: bool = false;
    while i < len
        invariant
            start <= i <= len,
            len == s@.len(),
            start == if signed {
                1int
            } else {
                0int
            },
            body == if signed {
                s@.skip(1)
            } else {
                s@
            },
            forall|j: int| 0 <= j < body.len() ==> body[j] == s@[j + start],
            !efound ==> forall|j: int| start <= j < i ==> !is_exp_mark(#[trigger] s@[j]),
            efound ==> start <= epos < i && is_exp_mark(s@[epos as int]) && (forall|j: int|
                start <= j < epos ==> !is_exp_mark(#[trigger] s@[j])),
        decreases len - i,
    {
        let c: char = s.get_char(i);
        if (c == 'e' || c == 'E') && !efound {
            epos = i;
            efound = true;
        }
        i = i + 1;
    }
    let mend: usize = if efound {
        epos
    } else {
        len
    };
    proof {
        if efound {
            lemma_first_exp_found(body, epos - start);
        } else {
            lemma_first_exp_missing(body);
        }
    }
    let m_ok: bool = mantissa_in_range(s, start, mend);
    proof {
        if efound {
            assert(s@.subrange(start as int, mend as int) =~= body.subrange(0, epos - start));
        } else {
            assert(s@.subrange(start as int, mend as int) =~= body);
        }
    }
    if !efound {
        return m_ok;
    }
    if !m_ok {
        return false;
    }
    let mut es: usize = epos + 1;
    if es < len {
        let ce: char = s.get_char(es);
        if ce == '+' || ce == '-' {
            es = es + 1;
        }
    }
    let ghost expt = body.skip(epos + 1 - start);
    proof {
        assert(expt =~= s@.subrange(epos + 1, len as int));
        if epos + 1 < len && (s@[epos + 1] == '+' || s@[epos + 1] == '-') {
            assert(expt.skip(1) =~= s@.subrange(es as int, len as int));
        } else {
            assert(expt =~= s@.subrange(es as int, len as int));
        }
    }
    let e_ok: bool = es < len && digits_in_range(s, es, len);
    e_ok
}

/// Parse `s` as an optionally signed decimal integer. Returns the value
/// whenever it lies in the widest range any leaf kind can ask for,
/// `[i64::MIN, u64::MAX]`; returns `None` outside it or when `s` does not
/// match the grammar of `spec_parse_int`.
pub fn parse_int_wide(s: &str) -> (r: Option<i128>)
    ensures
        match spec_parse_int(s@) {
            Some(n) => {
                if i64::MIN as int <= n <= u64::MAX as int {
                    r == Some(n as i128) && r->0 as int == n
                } else {
                    r is None
                }
            },
            None => r is None,
        },
{
    let len: usize = s.unicode_len();
    if len == 0 {
        return None;
    }
    let c0: char = s.get_char(0);
    let neg: bool = c0 == '-';
    let signed: bool = neg || c0 == '+';
    let start: usize = if signed {
        1
    } else {
        0
    };
    if signed && len == 1 {
        return None;
    }
    let ghost body: Seq<char> = if signed {
        s@.skip(1)
    } else {
        s@
    };
    let mut i: usize = start;
    let mut acc: i128 = 0;
    let mut sat: bool = false;
    while i < len
        invariant
            start <= i <= len,
            len == s@.len(),
            start == if signed {
                1int
            } else {
                0int
            },
            signed == (s@.len() >= 1 && (s@[0] == '-' || s@[0] == '+')),
            neg == (s@.len() >= 1 && s@[0] == '-'),
            body == if signed {
                s@.skip(1)
            } else {
                s@
            },
            all_digits(s@.subrange(start as int, i as int)),
            !sat ==> acc as int == mag_of(s@.subrange(start as int, i as int)),
            !sat ==> 0 <= acc as int <= u64::MAX as int,
            sat ==> mag_of(s@.subrange(start as int, i as int)) > u64::MAX as int,
        decreases len - i,
    {
        let c: char = s.get_char(i);
        if c < '0' || c > '9' {
            assert(!is_digit(s@[i as int]));
            assert(!all_digits(body)) by {
                let bi: int = if signed {
                    i - 1
                } else {
                    i as int
                };
                assert(body[bi] == s@[i as int]);
            }
            return None;
        }
        let d: i128 = (c as u32 as i128) - 48;
        proof {
            let pre = s@.subrange(start as int, i as int);
            let post = s@.subrange(start as int, i as int + 1);
            assert(post.drop_last() =~= pre);
            assert(post.last() == s@[i as int]);
            assert(mag_of(post) == mag_of(pre) * 10 + digit_val(s@[i as int]));
            assert(all_digits(post)) by {
                assert(forall|j: int|
                    0 <= j < post.len() ==> post[j] == s@[start + j] && (j < pre.len() ==> post[j]
                        == pre[j]));
            }
        }
        if sat {
            proof {
                let pre = s@.subrange(start as int, i as int);
                let post = s@.subrange(start as int, i as int + 1);
                assert(mag_of(post) >= mag_of(pre) * 10) by {
                    assert(digit_val(s@[i as int]) >= 0);
                }
                assert(mag_of(pre) * 10 > u64::MAX as int);
            }
        } else {
            let next: i128 = acc * 10 + d;
            if next > u64::MAX as i128 {
                sat = true;
            }
            acc = next;
        }
        i = i + 1;
    }
    proof {
        assert(s@.subrange(start as int, len as int) =~= body);
    }
    if sat {
        proof {
            if neg {
                assert(spec_parse_int(s@) == Some(-mag_of(body)));
                assert(-mag_of(body) < i64::MIN as int);
            } else {
                assert(spec_parse_int(s@) == Some(mag_of(body)));
            }
        }
        return None;
    }
    if neg {
        if acc > -(i64::MIN as i128) {
            proof {
                assert(spec_parse_int(s@) == Some(-mag_of(body)));
            }
            return None;
        }
        proof {
            assert(spec_parse_int(s@) == Some(-mag_of(body)));
        }
        Some(-acc)
    } else {
        proof {
            assert(spec_parse_int(s@) == Some(mag_of(body)));
        }
        Some(acc)
    }
}

} // verus!

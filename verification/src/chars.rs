use vstd::prelude::*;
use crate::text::push_char;

verus! {

broadcast use vstd::std_specs::vec::group_vec_axioms;

/// Whether a character has the Unicode `White_Space` property (what `char::is_whitespace`
/// tests).
pub open spec fn is_ws(c: char) -> bool {
    ||| ('\u{9}' <= c && c <= '\u{d}')
    ||| c == ' '
    ||| c == '\u{85}'
    ||| c == '\u{a0}'
    ||| c == '\u{1680}'
    ||| ('\u{2000}' <= c && c <= '\u{200a}')
    ||| c == '\u{2028}'
    ||| c == '\u{2029}'
    ||| c == '\u{202f}'
    ||| c == '\u{205f}'
    ||| c == '\u{3000}'
}

/// The characters without their leading white space.
pub open spec fn trim_start(s: Seq<char>) -> Seq<char>
    decreases s.len(),
{
    if s.len() > 0 && is_ws(s[0]) {
        trim_start(s.drop_first())
    } else {
        s
    }
}

/// The characters without their trailing white space.
pub open spec fn trim_end(s: Seq<char>) -> Seq<char>
    decreases s.len(),
{
    if s.len() > 0 && is_ws(s.last()) {
        trim_end(s.drop_last())
    } else {
        s
    }
}

/// The characters without leading and trailing white space.
pub open spec fn trim(s: Seq<char>) -> Seq<char> {
    trim_end(trim_start(s))
}

/// The characters without every leading `c`.
pub open spec fn trim_start_char(s: Seq<char>, c: char) -> Seq<char>
    decreases s.len(),
{
    if s.len() > 0 && s[0] == c {
        trim_start_char(s.drop_first(), c)
    } else {
        s
    }
}

/// The characters without every trailing `c`.
pub open spec fn trim_end_char(s: Seq<char>, c: char) -> Seq<char>
    decreases s.len(),
{
    if s.len() > 0 && s.last() == c {
        trim_end_char(s.drop_last(), c)
    } else {
        s
    }
}

/// Whether `pat` occurs in `s` at index `i`.
pub open spec fn occurs_at(s: Seq<char>, pat: Seq<char>, i: int) -> bool {
    0 <= i && i + pat.len() <= s.len() && s.subrange(i, i + pat.len()) == pat
}

/// The first index at or after `from` where `pat` occurs in `s`.
pub open spec fn find_from(s: Seq<char>, pat: Seq<char>, from: int) -> Option<int>
    decreases s.len() + 1 - from,
{
    if from < 0 || from + pat.len() > s.len() {
        None
    } else if occurs_at(s, pat, from) {
        Some(from)
    } else {
        find_from(s, pat, from + 1)
    }
}

/// The pieces of `s` between the occurrences of `sep`, in order (one more than there are
/// separators).
pub open spec fn split_char(s: Seq<char>, sep: char) -> Seq<Seq<char>>
    decreases s.len(),
{
    if s.len() == 0 {
        seq![Seq::empty()]
    } else {
        let rest = split_char(s.drop_last(), sep);
        if s.last() == sep {
            rest.push(Seq::empty())
        } else {
            rest.update(rest.len() - 1, rest.last().push(s.last()))
        }
    }
}

/// What follows the last white-space character of `s` (all of `s` when there is none).
pub open spec fn last_word(s: Seq<char>) -> Seq<char>
    decreases s.len(),
{
    if s.len() == 0 {
        s
    } else if is_ws(s.last()) {
        Seq::empty()
    } else {
        last_word(s.drop_last()).push(s.last())
    }
}

/// The value of a sequence of ASCII digits.
pub open spec fn digits_value(s: Seq<char>) -> int
    decreases s.len(),
{
    if s.len() == 0 {
        0
    } else {
        digits_value(s.drop_last()) * 10 + (s.last() as int - '0' as int)
    }
}

/// Whether every character is an ASCII digit.
pub open spec fn all_digits(s: Seq<char>) -> bool {
    forall|i: int| 0 <= i < s.len() ==> '0' <= #[trigger] s[i] && s[i] <= '9'
}

/// The signed decimal integer `s` spells, as `str::parse::<i64>` reads it: an optional `+`
/// or `-`, then one or more ASCII digits, the value within range.
pub open spec fn parse_i64(s: Seq<char>) -> Option<i64> {
    let ds = digits_part(s);
    let v = if is_negative(s) { -digits_value(ds) } else { digits_value(ds) };
    if ds.len() > 0 && all_digits(ds) && i64::MIN <= v <= i64::MAX {
        Some(v as i64)
    } else {
        None
    }
}

/// Whether a number's text starts with a minus sign.
pub open spec fn is_negative(s: Seq<char>) -> bool {
    s.len() > 0 && s[0] == '-'
}

/// A number's text after its sign, if any.
pub open spec fn digits_part(s: Seq<char>) -> Seq<char> {
    if s.len() > 0 && (s[0] == '-' || s[0] == '+') {
        s.drop_first()
    } else {
        s
    }
}

/// Whether a character has the Unicode `White_Space` property.
pub fn char_is_ws(c: char) -> (r: bool)
    ensures
        r == is_ws(c),
{
    ('\u{9}' <= c && c <= '\u{d}') || c == ' ' || c == '\u{85}' || c == '\u{a0}' || c == '\u{1680}'
        || ('\u{2000}' <= c && c <= '\u{200a}') || c == '\u{2028}' || c == '\u{2029}' || c
        == '\u{202f}' || c == '\u{205f}' || c == '\u{3000}'
}

/// The characters of a string slice.
pub fn chars_of(s: &str) -> (r: Vec<char>)
    ensures
        r@ == s@,
{
    let mut out: Vec<char> = Vec::new();
    for c in it: s.chars()
        invariant
            out@ == it.seq().take(it.index() as int),
    {
        out.push(c);
    }
    assert(out@ =~= s@);
    out
}

/// A string holding the characters.
pub fn string_from(cs: &[char]) -> (r: String)
    ensures
        r@ == cs@,
{
    let mut out = String::new();
    let mut i: usize = 0;
    while i < cs.len()
        invariant
            i <= cs.len(),
            out@ == cs@.take(i as int),
        decreases cs.len() - i,
    {
        push_char(&mut out, cs[i]);
        proof {
            assert(cs@.take(i + 1) =~= cs@.take(i as int).push(cs@[i as int]));
        }
        i = i + 1;
    }
    assert(cs@.take(i as int) =~= cs@);
    out
}

/// A copy of the characters from `lo` up to `hi`.
pub fn sub_chars(cs: &[char], lo: usize, hi: usize) -> (r: Vec<char>)
    requires
        lo <= hi <= cs.len(),
    ensures
        r@ == cs@.subrange(lo as int, hi as int),
{
    let mut out: Vec<char> = Vec::new();
    let mut i: usize = lo;
    while i < hi
        invariant
            lo <= i <= hi,
            hi <= cs.len(),
            out@ == cs@.subrange(lo as int, i as int),
        decreases hi - i,
    {
        out.push(cs[i]);
        proof {
            assert(cs@.subrange(lo as int, i + 1) =~= cs@.subrange(lo as int, i as int).push(cs@[i as int]));
        }
        i = i + 1;
    }
    out
}

/// Index of the first character that is not white space (the length when there is none).
fn first_non_ws(cs: &[char]) -> (r: usize)
    ensures
        r <= cs.len(),
        trim_start(cs@) == cs@.subrange(r as int, cs.len() as int),
{
    let mut i: usize = 0;
    proof {
        assert(cs@.subrange(0, cs.len() as int) =~= cs@);
    }
    while i < cs.len() && char_is_ws(cs[i])
        invariant
            i <= cs.len(),
            trim_start(cs@) == trim_start(cs@.subrange(i as int, cs.len() as int)),
        decreases cs.len() - i,
    {
        proof {
            let t = cs@.subrange(i as int, cs.len() as int);
            assert(t.drop_first() =~= cs@.subrange(i + 1, cs.len() as int));
        }
        i = i + 1;
    }
    i
}

/// The characters without leading and trailing white space.
pub fn trim_chars(cs: &[char]) -> (r: Vec<char>)
    ensures
        r@ == trim(cs@),
{
    let lo = first_non_ws(cs);
    let ghost t = cs@.subrange(lo as int, cs.len() as int);
    let mut hi: usize = cs.len();
    proof {
        assert(cs@.subrange(lo as int, hi as int) =~= t);
    }
    while hi > lo && char_is_ws(cs[hi - 1])
        invariant
            lo <= hi <= cs.len(),
            trim_end(t) == trim_end(cs@.subrange(lo as int, hi as int)),
        decreases hi,
    {
        proof {
            let u = cs@.subrange(lo as int, hi as int);
            assert(u.drop_last() =~= cs@.subrange(lo as int, hi - 1));
        }
        hi = hi - 1;
    }
    sub_chars(cs, lo, hi)
}

/// The characters without every leading `c`.
pub fn trim_start_char_of(cs: &[char], c: char) -> (r: Vec<char>)
    ensures
        r@ == trim_start_char(cs@, c),
{
    let mut i: usize = 0;
    proof {
        assert(cs@.subrange(0, cs.len() as int) =~= cs@);
    }
    while i < cs.len() && cs[i] == c
        invariant
            i <= cs.len(),
            trim_start_char(cs@, c) == trim_start_char(cs@.subrange(i as int, cs.len() as int), c),
        decreases cs.len() - i,
    {
        proof {
            let t = cs@.subrange(i as int, cs.len() as int);
            assert(t.drop_first() =~= cs@.subrange(i + 1, cs.len() as int));
        }
        i = i + 1;
    }
    sub_chars(cs, i, cs.len())
}

/// The characters without every trailing `c`.
pub fn trim_end_char_of(cs: &[char], c: char) -> (r: Vec<char>)
    ensures
        r@ == trim_end_char(cs@, c),
{
    let mut hi: usize = cs.len();
    proof {
        assert(cs@.subrange(0, hi as int) =~= cs@);
    }
    while hi > 0 && cs[hi - 1] == c
        invariant
            hi <= cs.len(),
            trim_end_char(cs@, c) == trim_end_char(cs@.subrange(0, hi as int), c),
        decreases hi,
    {
        proof {
            let u = cs@.subrange(0, hi as int);
            assert(u.drop_last() =~= cs@.subrange(0, hi - 1));
        }
        hi = hi - 1;
    }
    sub_chars(cs, 0, hi)
}

/// The first index where `pat` occurs in `cs`.
pub fn find_chars(cs: &[char], pat: &[char]) -> (r: Option<usize>)
    ensures
        match r {
            Some(i) => find_from(cs@, pat@, 0) == Some(i as int),
            None => find_from(cs@, pat@, 0) is None,
        },
{
    if pat.len() > cs.len() {
        return None;
    }
    let last = cs.len() - pat.len();
    let mut i: usize = 0;
    while i <= last
        invariant
            pat.len() <= cs.len(),
            last == cs.len() - pat.len(),
            i <= last + 1,
            find_from(cs@, pat@, 0) == find_from(cs@, pat@, i as int),
        decreases last + 1 - i,
    {
        let mut k: usize = 0;
        let mut same = true;
        proof {
            assert(cs@.subrange(i as int, i as int) =~= pat@.take(0));
        }
        while k < pat.len()
            invariant
                k <= pat.len(),
                i + pat.len() <= cs.len(),
                same == (cs@.subrange(i as int, i + k) == pat@.take(k as int)),
            decreases pat.len() - k,
        {
            if same && cs[i + k] != pat[k] {
                same = false;
            }
            proof {
                if same {
                    assert(cs@.subrange(i as int, i + k + 1) =~= cs@.subrange(i as int, i + k).push(
                        cs@[i + k],
                    ));
                    assert(pat@.take(k + 1) =~= pat@.take(k as int).push(pat@[k as int]));
                } else {
                    if cs@.subrange(i as int, i + k + 1) == pat@.take(k + 1) {
                        if cs@.subrange(i as int, i + k) == pat@.take(k as int) {
                            assert(cs@.subrange(i as int, i + k + 1)[k as int] == pat@.take(
                                k + 1,
                            )[k as int]);
                        } else {
                            assert(cs@.subrange(i as int, i + k) =~= cs@.subrange(
                                i as int,
                                i + k + 1,
                            ).take(k as int));
                            assert(pat@.take(k as int) =~= pat@.take(k + 1).take(k as int));
                        }
                    }
                }
            }
            k = k + 1;
        }
        proof {
            assert(pat@.take(k as int) =~= pat@);
        }
        if same {
            return Some(i);
        }
        i = i + 1;
    }
    proof {
        assert(find_from(cs@, pat@, i as int) is None);
    }
    None
}

/// The pieces of the characters between the occurrences of `sep`.
pub fn split_chars(cs: &[char], sep: char) -> (r: Vec<Vec<char>>)
    ensures
        r@.len() == split_char(cs@, sep).len(),
        forall|i: int| 0 <= i < r@.len() ==> #[trigger] r@[i]@ == split_char(cs@, sep)[i],
{
    let mut out: Vec<Vec<char>> = Vec::new();
    let mut cur: Vec<char> = Vec::new();
    let mut i: usize = 0;
    proof {
        assert(cs@.take(0) =~= Seq::<char>::empty());
    }
    while i < cs.len()
        invariant
            i <= cs.len(),
            out@.len() + 1 == split_char(cs@.take(i as int), sep).len(),
            forall|k: int| 0 <= k < out@.len() ==> #[trigger] out@[k]@ == split_char(cs@.take(i as int), sep)[k],
            cur@ == split_char(cs@.take(i as int), sep).last(),
        decreases cs.len() - i,
    {
        proof {
            assert(cs@.take(i + 1).drop_last() =~= cs@.take(i as int));
        }
        if cs[i] == sep {
            let done = cur;
            cur = Vec::new();
            out.push(done);
        } else {
            cur.push(cs[i]);
        }
        i = i + 1;
    }
    proof {
        assert(cs@.take(i as int) =~= cs@);
    }
    out.push(cur);
    out
}

/// What follows the last white-space character.
pub fn last_word_of(cs: &[char]) -> (r: Vec<char>)
    ensures
        r@ == last_word(cs@),
{
    let mut lo: usize = cs.len();
    proof {
        assert(cs@.subrange(cs.len() as int, cs.len() as int) =~= Seq::<char>::empty());
        assert(cs@.take(cs.len() as int) =~= cs@);
    }
    while lo > 0 && !char_is_ws(cs[lo - 1])
        invariant
            lo <= cs.len(),
            last_word(cs@) == last_word(cs@.take(lo as int)) + cs@.subrange(lo as int, cs.len() as int),
        decreases lo,
    {
        proof {
            assert(cs@.take(lo as int).drop_last() =~= cs@.take(lo - 1));
            assert(cs@.subrange(lo - 1, cs.len() as int) =~= seq![cs@[lo - 1]] + cs@.subrange(
                lo as int,
                cs.len() as int,
            ));
            assert(last_word(cs@.take(lo - 1)).push(cs@[lo - 1]) + cs@.subrange(lo as int, cs.len() as int)
                =~= last_word(cs@.take(lo - 1)) + cs@.subrange(lo - 1, cs.len() as int));
        }
        lo = lo - 1;
    }
    proof {
        if lo > 0 {
            assert(cs@.take(lo as int).last() == cs@[lo - 1]);
        }
        assert(last_word(cs@.take(lo as int)) =~= Seq::<char>::empty());
    }
    let r = sub_chars(cs, lo, cs.len());
    proof {
        assert(last_word(cs@) =~= r@);
    }
    r
}

/// The signed decimal integer the characters spell, as `str::parse::<i64>` reads it.
pub fn parse_i64_of(cs: &[char]) -> (r: Option<i64>)
    ensures
        r == parse_i64(cs@),
{
    let n = cs.len();
    if n == 0 {
        return None;
    }
    let neg = cs[0] == '-';
    let start: usize = if cs[0] == '-' || cs[0] == '+' { 1 } else { 0 };
    let ghost ds = digits_part(cs@);
    proof {
        if start == 1 {
            assert(cs@.drop_first() =~= cs@.subrange(start as int, n as int));
        } else {
            assert(cs@ =~= cs@.subrange(start as int, n as int));
        }
    }
    if start >= n {
        return None;
    }
    let mut m: u128 = 0;
    let mut i: usize = start;
    proof {
        assert(cs@.subrange(start as int, start as int) =~= Seq::<char>::empty());
    }
    while i < n
        invariant
            start <= i <= n,
            n == cs.len(),
            ds == cs@.subrange(start as int, n as int),
            ds == digits_part(cs@),
            all_digits(cs@.subrange(start as int, i as int)),
            m == digits_value(cs@.subrange(start as int, i as int)),
            m <= 9223372036854775808u128,
        decreases n - i,
    {
        let c = cs[i];
        let ghost pre = cs@.subrange(start as int, i + 1);
        proof {
            assert(pre.drop_last() =~= cs@.subrange(start as int, i as int));
            assert(pre == ds.take(pre.len() as int));
        }
        if c < '0' || c > '9' {
            proof {
                assert(ds[i - start] == c);
                assert(!all_digits(ds));
                assert(parse_i64(cs@) is None);
            }
            return None;
        }
        let d: u128 = (c as u32 - '0' as u32) as u128;
        assert(d == pre.last() as int - '0' as int);
        m = m * 10 + d;
        assert(m == digits_value(pre));
        proof {
            assert(all_digits(pre)) by {
                assert forall|k: int| 0 <= k < pre.len() implies '0' <= #[trigger] pre[k] && pre[k] <= '9' by {
                    if k < pre.len() - 1 {
                        assert(pre[k] == cs@.subrange(start as int, i as int)[k]);
                    }
                }
            }
        }
        if m > 9223372036854775808u128 {
            proof {
                if all_digits(ds) {
                    lemma_digits_grow(pre, ds);
                    assert(digits_value(ds) > 9223372036854775808);
                }
                assert(parse_i64(cs@) is None);
            }
            return None;
        }
        i = i + 1;
    }
    proof {
        assert(cs@.subrange(start as int, i as int) =~= ds);
    }
    if neg {
        Some((0 - m as i128) as i64)
    } else {
        if m == 9223372036854775808u128 {
            None
        } else {
            Some(m as i64)
        }
    }
}

/// Where `find_from` finds `pat`, it occurs.
pub proof fn lemma_find_from_occurs(s: Seq<char>, pat: Seq<char>, from: int)
    ensures
        find_from(s, pat, from) matches Some(i) ==> occurs_at(s, pat, i) && from <= i,
    decreases s.len() + 1 - from,
{
    if from < 0 || from + pat.len() > s.len() {
    } else if occurs_at(s, pat, from) {
    } else {
        lemma_find_from_occurs(s, pat, from + 1);
    }
}

/// A longer run of digits has at least the value of its prefix.
pub proof fn lemma_digits_grow(p: Seq<char>, s: Seq<char>)
    requires
        p.len() <= s.len(),
        p == s.take(p.len() as int),
        all_digits(s),
    ensures
        digits_value(s) >= digits_value(p),
    decreases s.len() - p.len(),
{
    if p.len() < s.len() {
        let q = s.take(p.len() as int + 1);
        assert(q.drop_last() =~= p);
        assert(q.last() == s[p.len() as int]);
        assert('0' <= q.last() <= '9');
        assert(all_digits(p)) by {
            assert forall|i: int| 0 <= i < p.len() implies '0' <= #[trigger] p[i] && p[i] <= '9' by {
                assert(p[i] == s[i]);
            }
        }
        lemma_digits_nonneg(p);
        assert(digits_value(q) == digits_value(p) * 10 + (q.last() as int - '0' as int));
        assert(digits_value(q) >= digits_value(p));
        lemma_digits_grow(q, s);
    } else {
        assert(s.take(s.len() as int) =~= s);
    }
}

/// A run of digits has a value of at least zero.
pub proof fn lemma_digits_nonneg(s: Seq<char>)
    requires
        all_digits(s),
    ensures
        digits_value(s) >= 0,
    decreases s.len(),
{
    if s.len() > 0 {
        assert(all_digits(s.drop_last())) by {
            assert forall|i: int| 0 <= i < s.drop_last().len() implies '0' <= #[trigger] s.drop_last()[i]
                && s.drop_last()[i] <= '9' by {
                assert(s.drop_last()[i] == s[i]);
            }
        }
        lemma_digits_nonneg(s.drop_last());
    }
}

} // verus!

//! Character-level ground work: the line model of an input, decimal digit
//! runs, substring search, and small comparisons against literal tokens.

use vstd::prelude::*;

verus! {

/// The input split at every line feed; a final segment is always present,
/// so an input without a trailing line feed still ends in a line.
pub open spec fn split_lines(s: Seq<char>) -> Seq<Seq<char>>
    decreases s.len(),
{
    if s.len() == 0 {
        seq![Seq::empty()]
    } else if s[0] == '\n' {
        seq![Seq::<char>::empty()] + split_lines(s.drop_first())
    } else {
        let rest = split_lines(s.drop_first());
        seq![seq![s[0]] + rest[0]] + rest.subrange(1, rest.len() as int)
    }
}

pub proof fn lemma_split_lines_nonempty(s: Seq<char>)
    ensures
        split_lines(s).len() >= 1,
    decreases s.len(),
{
    if s.len() > 0 {
        lemma_split_lines_nonempty(s.drop_first());
    }
}

/// Closing the last line with a line feed only appends one empty line.
pub proof fn lemma_split_lines_push_newline(s: Seq<char>)
    ensures
        split_lines(s + seq!['\n']) == split_lines(s).push(Seq::<char>::empty()),
    decreases s.len(),
{
    let e = Seq::<char>::empty();
    let t = s + seq!['\n'];
    assert(t.len() == s.len() + 1);
    if s.len() == 0 {
        assert(t =~= seq!['\n']);
        assert(t[0] == '\n');
        assert(t.drop_first() =~= e);
        assert(split_lines(t) =~~= seq![e] + split_lines(e));
        assert(split_lines(e) =~~= seq![e]);
        assert(split_lines(s) =~~= seq![e]);
        assert(split_lines(t) =~~= split_lines(s).push(e));
    } else {
        lemma_split_lines_push_newline(s.drop_first());
        assert(t.drop_first() =~= s.drop_first() + seq!['\n']);
        assert(t[0] == s[0]);
        lemma_split_lines_nonempty(s.drop_first());
        let rest = split_lines(s.drop_first());
        let rest2 = split_lines(t.drop_first());
        assert(rest2 == rest.push(e));
        if s[0] == '\n' {
            assert(split_lines(t) =~~= seq![e] + rest2);
            assert(split_lines(s) =~~= seq![e] + rest);
            assert((seq![e] + rest2) =~~= (seq![e] + rest).push(e));
        } else {
            assert(rest2[0] == rest[0]);
            assert(split_lines(t) =~~= seq![seq![t[0]] + rest2[0]] + rest2.subrange(
                1,
                rest2.len() as int,
            ));
            assert(split_lines(s) =~~= seq![seq![s[0]] + rest[0]] + rest.subrange(
                1,
                rest.len() as int,
            ));
            assert(rest2.subrange(1, rest2.len() as int) =~~= rest.subrange(
                1,
                rest.len() as int,
            ).push(e));
            assert(split_lines(t) =~~= split_lines(s).push(e));
        }
    }
}

/// Drop one trailing carriage return, so both line-terminator styles read
/// alike.
pub open spec fn strip_cr(l: Seq<char>) -> Seq<char> {
    if l.len() > 0 && l.last() == '\r' {
        l.drop_last()
    } else {
        l
    }
}

/// The characters of an input, in order.
pub fn chars_of(s: &str) -> (r: Vec<char>)
    ensures
        r@ == s@,
{
    let n = s.unicode_len();
    let mut r: Vec<char> = Vec::new();
    let mut i: usize = 0;
    while i < n
        invariant
            n == s@.len(),
            i <= n,
            r@ == s@.take(i as int),
        decreases n - i,
    {
        let c = s.get_char(i);
        r.push(c);
        i = i + 1;
        assert(r@ =~= s@.take(i as int));
    }
    assert(r@ =~= s@);
    r
}

/// Split the input at every line feed.
pub fn split_lines_exec(v: &Vec<char>) -> (r: Vec<Vec<char>>)
    ensures
        r.deep_view() == split_lines(v@),
        r@.len() == split_lines(v@).len(),
        forall|k: int| 0 <= k < r@.len() ==> (#[trigger] r@[k])@ == split_lines(v@)[k],
{
    let n = v.len();
    let mut done: Vec<Vec<char>> = Vec::new();
    let mut cur: Vec<char> = Vec::new();
    let mut i: usize = 0;
    proof {
        assert(v@.skip(0) =~= v@);
        lemma_split_lines_nonempty(v@);
        let t = split_lines(v@);
        assert(done.deep_view() =~~= Seq::<Seq<char>>::empty());
        assert(cur@ + t[0] =~= t[0]);
        assert(done.deep_view() + seq![cur@ + t[0]] + t.subrange(1, t.len() as int) =~~= t);
    }
    while i < n
        invariant
            n == v@.len(),
            i <= n,
            split_lines(v@) == done.deep_view() + seq![cur@ + split_lines(v@.skip(i as int))[0]]
                + split_lines(v@.skip(i as int)).subrange(
                1,
                split_lines(v@.skip(i as int)).len() as int,
            ),
        decreases n - i,
    {
        let ghost tail = v@.skip(i as int);
        let ghost tail2 = v@.skip(i as int + 1);
        let ghost t = split_lines(tail);
        let ghost t2 = split_lines(tail2);
        let ghost d0 = done.deep_view();
        let ghost c0 = cur@;
        proof {
            assert(tail.len() > 0);
            assert(tail.drop_first() =~= tail2);
            assert(tail[0] == v@[i as int]);
            lemma_split_lines_nonempty(tail2);
        }
        let c = v[i];
        if c == '\n' {
            done.push(cur);
            cur = Vec::new();
            proof {
                assert(t =~~= seq![Seq::<char>::empty()] + t2);
                assert(t[0] == Seq::<char>::empty());
                assert(c0 + t[0] =~= c0);
                assert(t.subrange(1, t.len() as int) =~~= t2);
                assert(done.deep_view() =~~= d0.push(c0));
                assert(cur@ + t2[0] =~= t2[0]);
                assert(d0.push(c0) + seq![t2[0]] + t2.subrange(1, t2.len() as int) =~~= d0 + seq![
                    c0,
                ] + t2);
                assert(d0 + seq![c0 + t[0]] + t.subrange(1, t.len() as int) =~~= d0 + seq![c0]
                    + t2);
            }
        } else {
            cur.push(c);
            proof {
                assert(t =~~= seq![seq![tail[0]] + t2[0]] + t2.subrange(1, t2.len() as int));
                assert(t[0] == seq![tail[0]] + t2[0]);
                assert(c0 + t[0] =~= cur@ + t2[0]);
                assert(t.subrange(1, t.len() as int) =~~= t2.subrange(1, t2.len() as int));
                assert(d0 + seq![c0 + t[0]] + t.subrange(1, t.len() as int) =~~= d0 + seq![cur@
                    + t2[0]] + t2.subrange(1, t2.len() as int));
            }
        }
        i = i + 1;
    }
    let ghost d0 = done.deep_view();
    let ghost c0 = cur@;
    proof {
        assert(v@.skip(n as int) =~= Seq::<char>::empty());
        assert(split_lines(v@.skip(n as int)) =~~= seq![Seq::<char>::empty()]);
        assert(c0 + split_lines(v@.skip(n as int))[0] =~= c0);
        assert(split_lines(v@) =~~= d0.push(c0));
    }
    done.push(cur);
    proof {
        assert(done.deep_view() =~~= d0.push(c0));
        assert forall|k: int| 0 <= k < done@.len() implies (#[trigger] done@[k])@ == split_lines(
            v@,
        )[k] by {
            assert(done.deep_view()[k] == done@[k].deep_view());
            assert(done@[k].deep_view() =~= done@[k]@);
        }
    }
    done
}

/// Decimal digits.
pub open spec fn is_digit(c: char) -> bool {
    48 <= c as u32 <= 57
}

pub open spec fn digit_val(c: char) -> int {
    c as u32 - 48
}

pub open spec fn all_digits(s: Seq<char>) -> bool {
    forall|i: int| 0 <= i < s.len() ==> is_digit(#[trigger] s[i])
}

/// The number a digit run denotes.
pub open spec fn dec_value(s: Seq<char>) -> int
    decreases s.len(),
{
    if s.len() == 0 {
        0
    } else {
        dec_value(s.drop_last()) * 10 + digit_val(s.last())
    }
}

pub proof fn lemma_dec_value_nonneg(s: Seq<char>)
    requires
        all_digits(s),
    ensures
        dec_value(s) >= 0,
    decreases s.len(),
{
    if s.len() > 0 {
        assert(all_digits(s.drop_last()));
        lemma_dec_value_nonneg(s.drop_last());
    }
}

/// What a whole digit run accepted as a machine number means: digits only,
/// not empty, and within range.
pub open spec fn parse_u64_spec(s: Seq<char>) -> Option<u64> {
    if s.len() > 0 && all_digits(s) && dec_value(s) <= u64::MAX {
        Some(dec_value(s) as u64)
    } else {
        None
    }
}

/// Read the digit run `v[start..end]` as a `u64`.
pub fn parse_u64_range(v: &Vec<char>, start: usize, end: usize) -> (r: Option<u64>)
    requires
        start <= end <= v@.len(),
    ensures
        r == parse_u64_spec(v@.subrange(start as int, end as int)),
{
    let ghost s = v@.subrange(start as int, end as int);
    if start == end {
        return None;
    }
    let mut val: u64 = 0;
    let mut i: usize = start;
    while i < end
        invariant
            start <= i <= end <= v@.len(),
            s == v@.subrange(start as int, end as int),
            all_digits(s.take(i - start)),
            val == dec_value(s.take(i - start)),
        decreases end - i,
    {
        let c = v[i];
        let u = c as u32;
        if u < 48 || u > 57 {
            proof {
                assert(s[i - start] == c);
                assert(!is_digit(c));
            }
            return None;
        }
        let d = (u - 48) as u64;
        proof {
            assert(s[i - start] == c);
            assert(is_digit(c));
            assert(digit_val(c) == d);
            assert(s.take(i - start + 1).drop_last() =~= s.take(i - start));
            assert(s.take(i - start + 1).last() == c);
        }
        if val > u64::MAX / 10 || (val == u64::MAX / 10 && d > u64::MAX % 10) {
            proof {
                let pre = s.take(i - start + 1);
                assert(dec_value(pre) == val * 10 + d > u64::MAX);
                if all_digits(s) {
                    lemma_dec_value_grows(s, i - start + 1);
                }
            }
            return None;
        }
        val = val * 10 + d;
        i = i + 1;
        proof {
            assert(all_digits(s.take(i - start)));
        }
    }
    proof {
        assert(s.take(end - start) =~= s);
    }
    Some(val)
}

/// A digit run never gets smaller when digits follow it.
pub proof fn lemma_dec_value_grows(s: Seq<char>, k: int)
    requires
        0 <= k <= s.len(),
        all_digits(s),
    ensures
        dec_value(s) >= dec_value(s.take(k)),
    decreases s.len() - k,
{
    if k < s.len() {
        assert(s.take(k + 1).drop_last() =~= s.take(k));
        assert(is_digit(s.take(k + 1).last()));
        lemma_dec_value_nonneg(s.take(k));
        assert(dec_value(s.take(k + 1)) >= dec_value(s.take(k)));
        lemma_dec_value_grows(s, k + 1);
        assert(s.take(s.len() as int) =~= s);
    } else {
        assert(s.take(k) =~= s);
    }
}

/// The first position of `c` at or after `i`, or the length when absent.
pub open spec fn find_from(s: Seq<char>, i: int, c: char) -> int
    decreases s.len() - i,
{
    if i < 0 || i >= s.len() {
        s.len() as int
    } else if s[i] == c {
        i
    } else {
        find_from(s, i + 1, c)
    }
}

pub proof fn lemma_find_from(s: Seq<char>, i: int, c: char)
    requires
        0 <= i <= s.len(),
    ensures
        i <= find_from(s, i, c) <= s.len(),
        find_from(s, i, c) < s.len() ==> s[find_from(s, i, c)] == c,
        forall|j: int| i <= j < find_from(s, i, c) ==> s[j] != c,
    decreases s.len() - i,
{
    if i < s.len() && s[i] != c {
        lemma_find_from(s, i + 1, c);
    }
}

/// Find `c` inside `v[start..end]`; the result is relative to the whole
/// vector, `end` when absent.
pub fn find_char(v: &Vec<char>, start: usize, end: usize, c: char) -> (r: usize)
    requires
        start <= end <= v@.len(),
    ensures
        r - start == find_from(v@.subrange(start as int, end as int), 0, c),
        start <= r <= end,
    decreases end - start,
{
    let ghost s = v@.subrange(start as int, end as int);
    let mut i: usize = start;
    while i < end
        invariant
            start <= i <= end <= v@.len(),
            s == v@.subrange(start as int, end as int),
            find_from(s, 0, c) == find_from(s, i - start, c),
        decreases end - i,
    {
        if v[i] == c {
            proof {
                assert(s[i - start] == c);
            }
            return i;
        }
        proof {
            assert(s[i - start] != c);
        }
        i = i + 1;
    }
    i
}

/// `p` begins `s`.
pub open spec fn starts_with(s: Seq<char>, p: Seq<char>) -> bool {
    p.len() <= s.len() && s.take(p.len() as int) == p
}

/// `v[start..end]` equals the token `lit`.
pub fn range_eq_str(v: &Vec<char>, start: usize, end: usize, lit: &str) -> (r: bool)
    requires
        start <= end <= v@.len(),
    ensures
        r == (v@.subrange(start as int, end as int) == lit@),
{
    let ghost s = v@.subrange(start as int, end as int);
    let n = lit.unicode_len();
    if n != end - start {
        return false;
    }
    let mut i: usize = 0;
    while i < n
        invariant
            n == lit@.len(),
            n == end - start,
            start <= end <= v@.len(),
            i <= n,
            s == v@.subrange(start as int, end as int),
            forall|j: int| 0 <= j < i ==> s[j] == lit@[j],
        decreases n - i,
    {
        let c = lit.get_char(i);
        if v[start + i] != c {
            proof {
                assert(s[i as int] != lit@[i as int]);
            }
            return false;
        }
        i = i + 1;
    }
    proof {
        assert(s =~= lit@);
    }
    true
}

/// The token `lit` begins `v[start..end]`.
pub fn range_starts_with_str(v: &Vec<char>, start: usize, end: usize, lit: &str) -> (r: bool)
    requires
        start <= end <= v@.len(),
    ensures
        r == starts_with(v@.subrange(start as int, end as int), lit@),
{
    let ghost s = v@.subrange(start as int, end as int);
    let n = lit.unicode_len();
    if n > end - start {
        return false;
    }
    let r = range_eq_str(v, start, start + n, lit);
    proof {
        assert(v@.subrange(start as int, start + n as int) =~= s.take(n as int));
    }
    r
}

/// `n` occurs somewhere inside `h`.
pub open spec fn contains_seq(h: Seq<char>, n: Seq<char>) -> bool
    decreases h.len(),
{
    starts_with(h, n) || (h.len() > 0 && contains_seq(h.drop_first(), n))
}

pub proof fn lemma_contains_seq_at(h: Seq<char>, n: Seq<char>, i: int)
    requires
        0 <= i,
        i + n.len() <= h.len(),
        h.subrange(i, i + n.len() as int) == n,
    ensures
        contains_seq(h, n),
    decreases i,
{
    if i == 0 {
        assert(h.take(n.len() as int) =~= n);
    } else {
        assert(h.drop_first().subrange(i - 1, i - 1 + n.len() as int) =~= h.subrange(
            i,
            i + n.len() as int,
        ));
        lemma_contains_seq_at(h.drop_first(), n, i - 1);
    }
}

pub proof fn lemma_contains_seq_witness(h: Seq<char>, n: Seq<char>) -> (i: int)
    requires
        contains_seq(h, n),
    ensures
        0 <= i,
        i + n.len() <= h.len(),
        h.subrange(i, i + n.len() as int) == n,
    decreases h.len(),
{
    if starts_with(h, n) {
        assert(h.subrange(0, n.len() as int) =~= h.take(n.len() as int));
        0
    } else {
        let j = lemma_contains_seq_witness(h.drop_first(), n);
        assert(h.subrange(j + 1, j + 1 + n.len() as int) =~= h.drop_first().subrange(
            j,
            j + n.len() as int,
        ));
        j + 1
    }
}

/// Whether the token `lit` occurs inside `v[start..end]`.
pub fn range_contains_str(v: &Vec<char>, start: usize, end: usize, lit: &str) -> (r: bool)
    requires
        start <= end <= v@.len(),
    ensures
        r == contains_seq(v@.subrange(start as int, end as int), lit@),
{
    let ghost s = v@.subrange(start as int, end as int);
    let n = lit.unicode_len();
    if n > end - start {
        proof {
            if contains_seq(s, lit@) {
                let i = lemma_contains_seq_witness(s, lit@);
            }
        }
        return false;
    }
    if n == 0 {
        proof {
            assert(s.take(0) =~= lit@);
            assert(starts_with(s, lit@));
        }
        return true;
    }
    let last = end - n;
    let mut i: usize = start;
    while i <= last
        invariant
            start <= i,
            i <= last + 1,
            last == end - n,
            n == lit@.len(),
            1 <= n <= end - start,
            start <= end <= v@.len(),
            s == v@.subrange(start as int, end as int),
            forall|j: int|
                0 <= j < i - start ==> #[trigger] s.subrange(j, j + n as int) != lit@,
        decreases last + 1 - i,
    {
        let hit = range_eq_str(v, i, i + n, lit);
        proof {
            assert(v@.subrange(i as int, i + n as int) =~= s.subrange(
                i - start,
                i - start + n as int,
            ));
        }
        if hit {
            proof {
                lemma_contains_seq_at(s, lit@, i - start);
            }
            return true;
        }
        i = i + 1;
    }
    proof {
        if contains_seq(s, lit@) {
            let j = lemma_contains_seq_witness(s, lit@);
            assert(s.subrange(j, j + n as int) == lit@);
            assert(false);
        }
    }
    false
}

/// The whitespace that may surround a token on its line.
pub open spec fn is_space(c: char) -> bool {
    c == ' ' || c == '\t' || c == '\r'
}

pub open spec fn trim_front(s: Seq<char>) -> Seq<char>
    decreases s.len(),
{
    if s.len() > 0 && is_space(s[0]) {
        trim_front(s.drop_first())
    } else {
        s
    }
}

pub open spec fn trim_back(s: Seq<char>) -> Seq<char>
    decreases s.len(),
{
    if s.len() > 0 && is_space(s.last()) {
        trim_back(s.drop_last())
    } else {
        s
    }
}

/// The line without its surrounding whitespace.
pub open spec fn trim(s: Seq<char>) -> Seq<char> {
    trim_back(trim_front(s))
}

pub proof fn lemma_trim_front_skip(s: Seq<char>, k: int)
    requires
        0 <= k <= s.len(),
        forall|j: int| 0 <= j < k ==> is_space(#[trigger] s[j]),
        k < s.len() ==> !is_space(s[k]),
    ensures
        trim_front(s) == s.skip(k),
    decreases k,
{
    if k == 0 {
        assert(s.skip(0) =~= s);
    } else {
        assert(is_space(s[0]));
        lemma_trim_front_skip(s.drop_first(), k - 1);
        assert(s.drop_first().skip(k - 1) =~= s.skip(k));
    }
}

pub proof fn lemma_trim_back_take(s: Seq<char>, k: int)
    requires
        0 <= k <= s.len(),
        forall|j: int| k <= j < s.len() ==> is_space(#[trigger] s[j]),
        k > 0 ==> !is_space(s[k - 1]),
    ensures
        trim_back(s) == s.take(k),
    decreases s.len() - k,
{
    if k == s.len() {
        assert(s.take(k) =~= s);
    } else {
        assert(is_space(s.last()));
        lemma_trim_back_take(s.drop_last(), k);
        assert(s.drop_last().take(k) =~= s.take(k));
    }
}

/// The bounds of the trimmed middle of `v[start..end]`, relative to the
/// whole vector.
pub fn trim_bounds(v: &Vec<char>, start: usize, end: usize) -> (r: (usize, usize))
    requires
        start <= end <= v@.len(),
    ensures
        start <= r.0 <= r.1 <= end,
        trim(v@.subrange(start as int, end as int)) == v@.subrange(r.0 as int, r.1 as int),
{
    let ghost s = v@.subrange(start as int, end as int);
    let mut lo: usize = start;
    while lo < end && (v[lo] == ' ' || v[lo] == '\t' || v[lo] == '\r')
        invariant
            start <= lo <= end <= v@.len(),
            s == v@.subrange(start as int, end as int),
            forall|j: int| 0 <= j < lo - start ==> is_space(#[trigger] s[j]),
        decreases end - lo,
    {
        proof {
            assert(s[lo - start] == v@[lo as int]);
        }
        lo = lo + 1;
    }
    proof {
        if lo < end {
            assert(s[lo - start] == v@[lo as int]);
        }
        lemma_trim_front_skip(s, lo - start);
    }
    let mut hi: usize = end;
    while hi > lo && (v[hi - 1] == ' ' || v[hi - 1] == '\t' || v[hi - 1] == '\r')
        invariant
            start <= lo <= hi <= end <= v@.len(),
            s == v@.subrange(start as int, end as int),
            forall|j: int| hi - start <= j < s.len() ==> is_space(#[trigger] s[j]),
        decreases hi,
    {
        proof {
            assert(s[hi - 1 - start] == v@[hi - 1]);
        }
        hi = hi - 1;
    }
    proof {
        let f = s.skip(lo - start);
        if hi > lo {
            assert(s[hi - 1 - start] == v@[hi - 1]);
            assert(!is_space(f[hi - lo - 1]));
        }
        assert(forall|j: int| hi - lo <= j < f.len() ==> is_space(#[trigger] f[j]));
        lemma_trim_back_take(f, hi - lo);
        assert(f.take(hi - lo) =~= v@.subrange(hi as int, hi as int).add(
            v@.subrange(lo as int, hi as int),
        ));
        assert(v@.subrange(hi as int, hi as int).add(v@.subrange(lo as int, hi as int)) =~= v@.subrange(
            lo as int,
            hi as int,
        ));
    }
    (lo, hi)
}

/// Relies on `String::push`: it appends exactly the one character.
#[verifier::external_body]
pub fn push_char(s: &mut String, c: char)
    ensures
        final(s)@ == old(s)@.push(c),
{
    s.push(c);
}

/// Copy `v[start..end]` into an owned string.
pub fn chars_to_string(v: &Vec<char>, start: usize, end: usize) -> (r: String)
    requires
        start <= end <= v@.len(),
    ensures
        r@ == v@.subrange(start as int, end as int),
{
    let ghost s = v@.subrange(start as int, end as int);
    let mut r = String::new();
    let mut i: usize = start;
    while i < end
        invariant
            start <= i <= end <= v@.len(),
            s == v@.subrange(start as int, end as int),
            r@ == s.take(i - start),
        decreases end - i,
    {
        push_char(&mut r, v[i]);
        i = i + 1;
        proof {
            assert(s.take(i - start) =~= s.take(i - start - 1).push(s[i - start - 1]));
        }
    }
    proof {
        assert(s.take(end - start) =~= s);
    }
    r
}

} // verus!

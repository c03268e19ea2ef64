use vstd::prelude::*;

verus! {

/// The characters with the Unicode `White_Space` property.
pub open spec fn is_white_space(c: char) -> bool {
    let u = c as u32;
    ||| 0x09 <= u <= 0x0d
    ||| u == 0x20
    ||| u == 0x85
    ||| u == 0xa0
    ||| u == 0x1680
    ||| 0x2000 <= u <= 0x200a
    ||| u == 0x2028
    ||| u == 0x2029
    ||| u == 0x202f
    ||| u == 0x205f
    ||| u == 0x3000
}

/// `s` without its leading white space.
pub open spec fn trim_start(s: Seq<char>) -> Seq<char>
    decreases s.len(),
{
    if s.len() > 0 && is_white_space(s[0]) {
        trim_start(s.drop_first())
    } else {
        s
    }
}

/// `s` without its trailing white space.
pub open spec fn trim_end(s: Seq<char>) -> Seq<char>
    decreases s.len(),
{
    if s.len() > 0 && is_white_space(s.last()) {
        trim_end(s.drop_last())
    } else {
        s
    }
}

/// `s` without leading and trailing white space.
pub open spec fn trim(s: Seq<char>) -> Seq<char> {
    trim_end(trim_start(s))
}

/// `s` begins with `p`.
pub open spec fn starts_with(s: Seq<char>, p: Seq<char>) -> bool {
    p.len() <= s.len() && s.take(p.len() as int) == p
}

/// `s` ends with `p`.
pub open spec fn ends_with(s: Seq<char>, p: Seq<char>) -> bool {
    p.len() <= s.len() && s.skip(s.len() - p.len()) == p
}

/// `s` with every repetition of the non-empty pattern `p` at its end removed.
pub open spec fn trim_end_matches(s: Seq<char>, p: Seq<char>) -> Seq<char>
    decreases s.len(),
{
    if p.len() > 0 && ends_with(s, p) {
        trim_end_matches(s.take(s.len() - p.len()), p)
    } else {
        s
    }
}

/// The pieces of `s` between occurrences of `sep`; there is always at least one.
pub open spec fn split_on(s: Seq<char>, sep: char) -> Seq<Seq<char>>
    decreases s.len(),
{
    if s.len() == 0 {
        seq![Seq::<char>::empty()]
    } else {
        let rest = split_on(s.drop_last(), sep);
        if s.last() == sep {
            rest.push(Seq::<char>::empty())
        } else {
            rest.update(rest.len() - 1, rest.last().push(s.last()))
        }
    }
}

/// The value of a decimal digit.
pub open spec fn digit_value(c: char) -> int {
    (c as u32) - ('0' as u32)
}

/// `c` is one of `0` to `9`.
pub open spec fn is_decimal_digit(c: char) -> bool {
    '0' <= c <= '9'
}

/// The number written by the decimal digits `s`.
pub open spec fn decimal_value(s: Seq<char>) -> nat
    decreases s.len(),
{
    if s.len() == 0 {
        0
    } else {
        (decimal_value(s.drop_last()) * 10 + digit_value(s.last())) as nat
    }
}

/// The digits of a number written with an optional leading `+`.
pub open spec fn unsigned_digits(s: Seq<char>) -> Seq<char> {
    if s.len() > 1 && s[0] == '+' {
        s.drop_first()
    } else {
        s
    }
}

/// How text is read as a byte: an optional `+`, then one or more decimal digits whose
/// value is at most 255.
pub open spec fn parse_decimal_u8(s: Seq<char>) -> Option<u8> {
    let digits = unsigned_digits(s);
    if digits.len() > 0 && (forall|i: int| 0 <= i < digits.len() ==> is_decimal_digit(#[trigger] digits[i]))
        && decimal_value(digits) <= 255 {
        Some(decimal_value(digits) as u8)
    } else {
        None
    }
}

proof fn lemma_split_on_nonempty(s: Seq<char>, sep: char)
    ensures
        split_on(s, sep).len() >= 1,
    decreases s.len(),
{
    if s.len() > 0 {
        lemma_split_on_nonempty(s.drop_last(), sep);
    }
}

/// Splitting text made of `x`, a separator and `y` gives the pieces of `x` followed by those
/// of `y`.
pub proof fn lemma_split_on_concat(x: Seq<char>, y: Seq<char>, sep: char)
    ensures
        split_on(x.push(sep) + y, sep) == split_on(x, sep) + split_on(y, sep),
    decreases y.len(),
{
    lemma_split_on_nonempty(x, sep);
    if y.len() == 0 {
        assert(x.push(sep) + y =~= x.push(sep));
        assert(x.push(sep).drop_last() =~= x);
        assert(split_on(x.push(sep), sep) =~= split_on(x, sep) + split_on(y, sep));
    } else {
        let y0 = y.drop_last();
        lemma_split_on_concat(x, y0, sep);
        lemma_split_on_nonempty(y0, sep);
        assert((x.push(sep) + y).drop_last() =~= x.push(sep) + y0);
        assert((x.push(sep) + y).last() == y.last());
        let a = split_on(x, sep);
        let b = split_on(y0, sep);
        if y.last() == sep {
            assert((a + b).push(Seq::<char>::empty()) =~= a + b.push(Seq::<char>::empty()));
        } else {
            assert((a + b).update((a + b).len() - 1, (a + b).last().push(y.last())) =~= a + b.update(
                b.len() - 1,
                b.last().push(y.last()),
            ));
        }
    }
}

/// Text without the separator is a single piece.
pub proof fn lemma_split_on_without_sep(y: Seq<char>, sep: char)
    requires
        forall|i: int| 0 <= i < y.len() ==> y[i] != sep,
    ensures
        split_on(y, sep) == seq![y],
    decreases y.len(),
{
    if y.len() > 0 {
        lemma_split_on_without_sep(y.drop_last(), sep);
        assert(y.drop_last().push(y.last()) =~= y);
        assert(split_on(y, sep) =~~= seq![y]);
    } else {
        assert(y =~= Seq::<char>::empty());
        assert(split_on(y, sep) =~~= seq![y]);
    }
}

/// Text that neither starts nor ends with white space is its own trim.
pub proof fn lemma_trim_unchanged(s: Seq<char>)
    requires
        s.len() > 0,
        !is_white_space(s[0]),
        !is_white_space(s.last()),
    ensures
        trim(s) == s,
{
}

proof fn lemma_trim_start_shape(s: Seq<char>)
    ensures
        trim_start(s).len() <= s.len(),
        trim_start(s) == s.skip(s.len() - trim_start(s).len()),
        trim_start(s).len() > 0 ==> !is_white_space(trim_start(s)[0]),
    decreases s.len(),
{
    if s.len() > 0 && is_white_space(s[0]) {
        lemma_trim_start_shape(s.drop_first());
        let t = trim_start(s.drop_first());
        assert(s.drop_first().skip(s.drop_first().len() - t.len()) =~= s.skip(s.len() - t.len()));
    } else {
        assert(s.skip(0) =~= s);
    }
}

proof fn lemma_trim_end_shape(s: Seq<char>)
    ensures
        trim_end(s).len() <= s.len(),
        trim_end(s) == s.take(trim_end(s).len() as int),
        trim_end(s).len() > 0 ==> !is_white_space(trim_end(s).last()),
    decreases s.len(),
{
    if s.len() > 0 && is_white_space(s.last()) {
        lemma_trim_end_shape(s.drop_last());
        let t = trim_end(s.drop_last());
        assert(s.drop_last().take(t.len() as int) =~= s.take(t.len() as int));
    } else {
        assert(s.take(s.len() as int) =~= s);
    }
}

/// Trimming twice is trimming once.
pub proof fn lemma_trim_idempotent(s: Seq<char>)
    ensures
        trim(trim(s)) == trim(s),
{
    let u = trim_start(s);
    lemma_trim_start_shape(s);
    lemma_trim_end_shape(u);
    let v = trim_end(u);
    if v.len() > 0 {
        assert(v[0] == u[0]);
        lemma_trim_unchanged(v);
    }
}

/// Trimmed text neither starts nor ends with white space.
pub proof fn lemma_trimmed_ends(v: Seq<char>)
    requires
        trim(v) == v,
        v.len() > 0,
    ensures
        !is_white_space(v[0]),
        !is_white_space(v.last()),
{
    lemma_trim_start_shape(v);
    lemma_trim_end_shape(trim_start(v));
    assert(v[0] == trim_start(v)[0]);
}

proof fn lemma_decimal_value_grows(s: Seq<char>, c: char)
    requires
        is_decimal_digit(c),
    ensures
        decimal_value(s.push(c)) == decimal_value(s) * 10 + digit_value(c),
        decimal_value(s.push(c)) >= decimal_value(s),
{
    assert(s.push(c).drop_last() =~= s);
}

/// The characters of `s`, one by one.
pub fn chars_of(s: &str) -> (v: Vec<char>)
    ensures
        v@ == s@,
{
    let mut v: Vec<char> = Vec::new();
    for c in it: s.chars()
        invariant
            v@ == it.seq().take(it.index() as int),
            it.seq() == s@,
    {
        v.push(c);
    }
    v
}

/// Whether `c` has the Unicode `White_Space` property.
pub fn is_white_space_char(c: char) -> (r: bool)
    ensures
        r == is_white_space(c),
{
    let u = c as u32;
    (0x09 <= u && u <= 0x0d) || u == 0x20 || u == 0x85 || u == 0xa0 || u == 0x1680 || (0x2000 <= u
        && u <= 0x200a) || u == 0x2028 || u == 0x2029 || u == 0x202f || u == 0x205f || u == 0x3000
}

/// The bounds of the text `cs[lo..hi]` once white space is taken off both ends.
pub fn trim_range(cs: &Vec<char>, lo: usize, hi: usize) -> (r: (usize, usize))
    requires
        lo <= hi <= cs@.len(),
    ensures
        lo <= r.0 <= r.1 <= hi,
        cs@.subrange(r.0 as int, r.1 as int) == trim(cs@.subrange(lo as int, hi as int)),
{
    let mut a = lo;
    while a < hi && is_white_space_char(cs[a])
        invariant
            lo <= a <= hi <= cs@.len(),
            trim_start(cs@.subrange(lo as int, hi as int)) == trim_start(
                cs@.subrange(a as int, hi as int),
            ),
        decreases hi - a,
    {
        assert(cs@.subrange(a as int, hi as int).drop_first() =~= cs@.subrange(a + 1, hi as int));
        a = a + 1;
    }
    let mut b = hi;
    while b > a && is_white_space_char(cs[b - 1])
        invariant
            lo <= a <= b <= hi <= cs@.len(),
            trim_start(cs@.subrange(lo as int, hi as int)) == cs@.subrange(a as int, hi as int),
            trim(cs@.subrange(lo as int, hi as int)) == trim_end(cs@.subrange(a as int, b as int)),
        decreases b - a,
    {
        assert(cs@.subrange(a as int, b as int).drop_last() =~= cs@.subrange(a as int, b - 1));
        b = b - 1;
    }
    (a, b)
}

/// Whether the text `cs[lo..hi]` begins with `pat`.
pub fn has_prefix(cs: &Vec<char>, lo: usize, hi: usize, pat: &[char]) -> (r: bool)
    requires
        lo <= hi <= cs@.len(),
    ensures
        r == starts_with(cs@.subrange(lo as int, hi as int), pat@),
{
    let ghost s = cs@.subrange(lo as int, hi as int);
    if pat.len() > hi - lo {
        return false;
    }
    let mut i: usize = 0;
    while i < pat.len()
        invariant
            i <= pat@.len() <= hi - lo,
            lo <= hi <= cs@.len(),
            s == cs@.subrange(lo as int, hi as int),
            forall|j: int| 0 <= j < i ==> s[j] == pat@[j],
        decreases pat@.len() - i,
    {
        if cs[lo + i] != pat[i] {
            assert(s.take(pat@.len() as int)[i as int] != pat@[i as int]);
            return false;
        }
        i = i + 1;
    }
    assert(s.take(pat@.len() as int) =~= pat@);
    true
}

/// Whether the text `cs[lo..hi]` ends with `pat`.
pub fn has_suffix(cs: &Vec<char>, lo: usize, hi: usize, pat: &[char]) -> (r: bool)
    requires
        lo <= hi <= cs@.len(),
    ensures
        r == ends_with(cs@.subrange(lo as int, hi as int), pat@),
{
    let ghost s = cs@.subrange(lo as int, hi as int);
    if pat.len() > hi - lo {
        return false;
    }
    let start = hi - pat.len();
    let mut i: usize = 0;
    while i < pat.len()
        invariant
            i <= pat@.len() <= hi - lo,
            start == hi - pat@.len(),
            lo <= hi <= cs@.len(),
            s == cs@.subrange(lo as int, hi as int),
            forall|j: int| 0 <= j < i ==> cs@[start + j] == pat@[j],
        decreases pat@.len() - i,
    {
        if cs[start + i] != pat[i] {
            assert(s.skip(s.len() - pat@.len())[i as int] != pat@[i as int]);
            return false;
        }
        i = i + 1;
    }
    assert(s.skip(s.len() - pat@.len()) =~= pat@);
    true
}

/// The end of the text `cs[lo..hi]` once every repetition of the non-empty `pat` at its end
/// is taken off.
pub fn trim_end_pattern(cs: &Vec<char>, lo: usize, hi: usize, pat: &[char]) -> (end: usize)
    requires
        lo <= hi <= cs@.len(),
        pat@.len() > 0,
    ensures
        lo <= end <= hi,
        cs@.subrange(lo as int, end as int) == trim_end_matches(cs@.subrange(lo as int, hi as int), pat@),
{
    let mut end = hi;
    while has_suffix(cs, lo, end, pat)
        invariant
            lo <= end <= hi <= cs@.len(),
            pat@.len() > 0,
            trim_end_matches(cs@.subrange(lo as int, hi as int), pat@) == trim_end_matches(
                cs@.subrange(lo as int, end as int),
                pat@,
            ),
        decreases end,
    {
        let ghost t = cs@.subrange(lo as int, end as int);
        assert(t.take(t.len() - pat@.len()) =~= cs@.subrange(lo as int, end - pat@.len()));
        end = end - pat.len();
    }
    end
}

/// The bounds of the pieces of `cs[lo..hi]` between occurrences of `sep`.
pub fn split_ranges(cs: &Vec<char>, lo: usize, hi: usize, sep: char) -> (parts: Vec<(usize, usize)>)
    requires
        lo <= hi <= cs@.len(),
    ensures
        parts@.len() == split_on(cs@.subrange(lo as int, hi as int), sep).len(),
        forall|k: int|
            0 <= k < parts@.len() ==> {
                &&& lo <= (#[trigger] parts@[k]).0 <= parts@[k].1 <= hi
                &&& cs@.subrange(parts@[k].0 as int, parts@[k].1 as int) == split_on(
                    cs@.subrange(lo as int, hi as int),
                    sep,
                )[k]
            },
{
    let mut parts: Vec<(usize, usize)> = Vec::new();
    let mut cur = lo;
    let mut i = lo;
    while i < hi
        invariant
            lo <= cur <= i <= hi <= cs@.len(),
            parts@.len() + 1 == split_on(cs@.subrange(lo as int, i as int), sep).len(),
            forall|k: int|
                0 <= k < parts@.len() ==> {
                    &&& lo <= (#[trigger] parts@[k]).0 <= parts@[k].1 <= i
                    &&& cs@.subrange(parts@[k].0 as int, parts@[k].1 as int) == split_on(
                        cs@.subrange(lo as int, i as int),
                        sep,
                    )[k]
                },
            cs@.subrange(cur as int, i as int) == split_on(cs@.subrange(lo as int, i as int), sep).last(),
        decreases hi - i,
    {
        let ghost prev = split_on(cs@.subrange(lo as int, i as int), sep);
        let ghost prev_parts = parts@;
        proof {
            lemma_split_on_nonempty(cs@.subrange(lo as int, i as int), sep);
            assert(cs@.subrange(lo as int, i + 1).drop_last() =~= cs@.subrange(lo as int, i as int));
        }
        if cs[i] == sep {
            parts.push((cur, i));
            cur = i + 1;
            proof {
                let next = split_on(cs@.subrange(lo as int, i + 1), sep);
                assert(next == prev.push(Seq::<char>::empty()));
                assert(cs@.subrange(cur as int, i + 1) =~= Seq::<char>::empty());
                assert forall|k: int| 0 <= k < parts@.len() implies {
                    &&& lo <= (#[trigger] parts@[k]).0 <= parts@[k].1 <= i + 1
                    &&& cs@.subrange(parts@[k].0 as int, parts@[k].1 as int) == next[k]
                } by {
                    if k < parts@.len() - 1 {
                        assert(parts@[k] == prev_parts[k]);
                    }
                }
            }
        } else {
            proof {
                let next = split_on(cs@.subrange(lo as int, i + 1), sep);
                assert(next == prev.update(prev.len() - 1, prev.last().push(cs@[i as int])));
                assert(cs@.subrange(cur as int, i + 1) =~= prev.last().push(cs@[i as int]));
            }
        }
        i = i + 1;
    }
    parts.push((cur, hi));
    proof {
        let fin = split_on(cs@.subrange(lo as int, hi as int), sep);
        assert forall|k: int| 0 <= k < parts@.len() implies {
            &&& lo <= (#[trigger] parts@[k]).0 <= parts@[k].1 <= hi
            &&& cs@.subrange(parts@[k].0 as int, parts@[k].1 as int) == fin[k]
        } by {}
    }
    parts
}

/// Reads the text `cs[lo..hi]` as a byte: an optional `+`, then decimal digits.
pub fn parse_u8_range(cs: &Vec<char>, lo: usize, hi: usize) -> (r: Option<u8>)
    requires
        lo <= hi <= cs@.len(),
    ensures
        r == parse_decimal_u8(cs@.subrange(lo as int, hi as int)),
{
    let ghost s = cs@.subrange(lo as int, hi as int);
    let start = if hi - lo > 1 && cs[lo] == '+' {
        lo + 1
    } else {
        lo
    };
    let ghost digits = cs@.subrange(start as int, hi as int);
    assert(digits =~= unsigned_digits(s));
    if start == hi {
        return None;
    }
    // the value read so far, held at 256 once it passes 255
    let mut acc: u32 = 0;
    let mut i = start;
    while i < hi
        invariant
            lo <= start <= i <= hi <= cs@.len(),
            digits == cs@.subrange(start as int, hi as int),
            s == cs@.subrange(lo as int, hi as int),
            digits == unsigned_digits(s),
            forall|j: int| start <= j < i ==> is_decimal_digit(#[trigger] cs@[j]),
            acc <= 256,
            acc == if decimal_value(cs@.subrange(start as int, i as int)) <= 255 {
                decimal_value(cs@.subrange(start as int, i as int))
            } else {
                256
            },
        decreases hi - i,
    {
        let c = cs[i];
        if !('0' <= c && c <= '9') {
            assert(!is_decimal_digit(unsigned_digits(s)[i - start]));
            return None;
        }
        let d = (c as u32) - ('0' as u32);
        proof {
            lemma_decimal_value_grows(cs@.subrange(start as int, i as int), c);
            assert(cs@.subrange(start as int, i as int).push(c) =~= cs@.subrange(start as int, i + 1));
        }
        if acc > 255 {
            acc = 256;
        } else {
            let v = acc * 10 + d;
            acc = if v > 255 {
                256
            } else {
                v
            };
        }
        i = i + 1;
    }
    assert(cs@.subrange(start as int, hi as int) == digits);
    assert forall|j: int| 0 <= j < digits.len() implies is_decimal_digit(#[trigger] digits[j]) by {
        assert(digits[j] == cs@[start + j]);
    }
    if acc > 255 {
        None
    } else {
        Some(acc as u8)
    }
}

} // verus!

use vstd::prelude::*;

verus! {

/// The characters of a string slice.
pub fn str_chars(s: &str) -> (v: Vec<char>)
    ensures
        v@ == s@,
{
    let mut v: Vec<char> = Vec::new();
    for c in it: s.chars()
        invariant
            v@ == it.seq().take(it.index() as int),
            it.seq() == s@,
    {
        v.push(c);
        assert(v@ =~= it.seq().take(it.index() as int + 1));
    }
    assert(v@ =~= s@);
    v
}

/// Whether a string slice and a string hold the same characters.
pub fn str_eq_string(a: &str, b: &String) -> (r: bool)
    ensures
        r == (a@ == b@),
{
    let owned = a.to_owned();
    owned == *b
}

/// `String::push` of std: appends the character at the end of the string.
#[verifier::external_body]
fn push_char(s: &mut String, c: char)
    ensures
        final(s)@ == old(s)@.push(c),
{
    s.push(c);
}

/// A string holding the characters of `chars[start..end]`.
pub fn string_of(chars: &Vec<char>, start: usize, end: usize) -> (s: String)
    requires
        start <= end <= chars@.len(),
    ensures
        s@ == chars@.subrange(start as int, end as int),
{
    let mut s = String::new();
    let mut i = start;
    while i < end
        invariant
            start <= i <= end <= chars@.len(),
            s@ == chars@.subrange(start as int, i as int),
        decreases end - i,
    {
        push_char(&mut s, chars[i]);
        assert(s@ =~= chars@.subrange(start as int, i + 1));
        i += 1;
    }
    s
}

/// A string holding all of `chars`.
pub fn string_from(chars: &Vec<char>) -> (s: String)
    ensures
        s@ == chars@,
{
    let s = string_of(chars, 0, chars.len());
    assert(chars@.subrange(0, chars@.len() as int) =~= chars@);
    s
}

/// Appends the characters of `text` to `out`.
pub fn append_str(out: &mut Vec<char>, text: &str)
    ensures
        final(out)@ == old(out)@ + text@,
{
    let chars = str_chars(text);
    append_chars(out, &chars);
}

/// Appends `more` to `out`.
pub fn append_chars(out: &mut Vec<char>, more: &Vec<char>)
    ensures
        final(out)@ == old(out)@ + more@,
{
    let ghost start = out@;
    let mut i: usize = 0;
    while i < more.len()
        invariant
            i <= more@.len(),
            out@ == start + more@.subrange(0, i as int),
        decreases more.len() - i,
    {
        out.push(more[i]);
        assert(out@ =~= start + more@.subrange(0, i + 1));
        i += 1;
    }
    assert(more@.subrange(0, more@.len() as int) =~= more@);
}

/// Whether `c` is white space in the sense of Unicode's `White_Space` property.
pub open spec fn is_space(c: char) -> bool {
    ||| ('\u{9}' <= c <= '\u{d}')
    ||| c == ' ' || c == '\u{85}' || c == '\u{a0}' || c == '\u{1680}'
    ||| ('\u{2000}' <= c <= '\u{200a}')
    ||| c == '\u{2028}' || c == '\u{2029}' || c == '\u{202f}' || c == '\u{205f}' || c == '\u{3000}'
}

/// Whether `c` is white space, as [`is_space`] says.
pub fn char_is_space(c: char) -> (b: bool)
    ensures
        b == is_space(c),
{
    ('\u{9}' <= c && c <= '\u{d}') || c == ' ' || c == '\u{85}' || c == '\u{a0}' || c == '\u{1680}'
        || ('\u{2000}' <= c && c <= '\u{200a}') || c == '\u{2028}' || c == '\u{2029}' || c == '\u{202f}'
        || c == '\u{205f}' || c == '\u{3000}'
}

/// The number of white-space characters at the start of `s`.
pub open spec fn leading_space(s: Seq<char>) -> nat
    decreases s.len(),
{
    if s.len() > 0 && is_space(s[0]) { 1 + leading_space(s.drop_first()) } else { 0 }
}

/// The number of white-space characters at the end of `s`.
pub open spec fn trailing_space(s: Seq<char>) -> nat
    decreases s.len(),
{
    if s.len() > 0 && is_space(s.last()) { 1 + trailing_space(s.drop_last()) } else { 0 }
}

/// `s` without white space at either end.
pub open spec fn trimmed(s: Seq<char>) -> Seq<char> {
    let front = leading_space(s) as int;
    if front == s.len() { Seq::empty() } else { s.subrange(front, s.len() - trailing_space(s)) }
}

proof fn lemma_leading_space(s: Seq<char>, i: int)
    requires
        0 <= i <= s.len(),
        forall|j: int| 0 <= j < i ==> is_space(#[trigger] s[j]),
    ensures
        leading_space(s) == i + leading_space(s.subrange(i, s.len() as int)),
        leading_space(s) <= s.len(),
    decreases i,
{
    if i > 0 {
        assert(s.drop_first().subrange(i - 1, s.drop_first().len() as int) =~= s.subrange(i, s.len() as int));
        lemma_leading_space(s.drop_first(), i - 1);
    } else {
        assert(s.subrange(0, s.len() as int) =~= s);
        lemma_leading_bound(s);
    }
}

proof fn lemma_leading_bound(s: Seq<char>)
    ensures
        leading_space(s) <= s.len(),
    decreases s.len(),
{
    if s.len() > 0 {
        lemma_leading_bound(s.drop_first());
    }
}

proof fn lemma_trailing_space(s: Seq<char>, i: int)
    requires
        0 <= i <= s.len(),
        forall|j: int| i <= j < s.len() ==> is_space(#[trigger] s[j]),
    ensures
        trailing_space(s) == (s.len() - i) + trailing_space(s.subrange(0, i)),
    decreases s.len() - i,
{
    if i < s.len() {
        assert(s.drop_last().subrange(0, i) =~= s.subrange(0, i));
        lemma_trailing_space(s.drop_last(), i);
    } else {
        assert(s.subrange(0, i) =~= s);
    }
}

/// The bounds `[start, end)` of `chars[from..to]` without white space at either end.
pub fn trim_range(chars: &Vec<char>, from: usize, to: usize) -> (r: (usize, usize))
    requires
        from <= to <= chars@.len(),
    ensures
        from <= r.0 <= r.1 <= to,
        chars@.subrange(r.0 as int, r.1 as int) == trimmed(chars@.subrange(from as int, to as int)),
{
    let ghost s = chars@.subrange(from as int, to as int);
    let mut start = from;
    while start < to && char_is_space(chars[start])
        invariant
            from <= start <= to <= chars@.len(),
            forall|j: int| from <= j < start ==> is_space(#[trigger] chars@[j]),
        decreases to - start,
    {
        start += 1;
    }
    proof {
        assert forall|j: int| 0 <= j < start - from implies is_space(#[trigger] s[j]) by {
            assert(s[j] == chars@[from + j]);
        }
        lemma_leading_space(s, start - from);
        assert(s.subrange(start - from, s.len() as int) =~= chars@.subrange(start as int, to as int));
    }
    if start == to {
        proof {
            assert(leading_space(chars@.subrange(start as int, to as int)) == 0);
        }
        return (to, to);
    }
    proof {
        assert(chars@.subrange(start as int, to as int)[0] == chars@[start as int]);
        assert(!is_space(chars@[start as int]));
    }
    let mut end = to;
    while end > start && char_is_space(chars[end - 1])
        invariant
            from <= start < to,
            start <= end <= to <= chars@.len(),
            !is_space(chars@[start as int]),
            forall|j: int| end <= j < to ==> is_space(#[trigger] chars@[j]),
        decreases end - start,
    {
        end -= 1;
    }
    proof {
        assert forall|j: int| end - from <= j < s.len() implies is_space(#[trigger] s[j]) by {
            assert(s[j] == chars@[from + j]);
        }
        lemma_trailing_space(s, end - from);
        let t = s.subrange(0, end - from);
        assert(t.len() > 0);
        assert(t.last() == chars@[end - 1]);
        assert(trailing_space(t) == 0);
        assert(chars@.subrange(start as int, end as int) =~= s.subrange(start - from, end - from));
    }
    (start, end)
}

/// The pieces of `s` between the occurrences of `sep`, in order; there is always at least one.
pub open spec fn split_on(s: Seq<char>, sep: char) -> Seq<Seq<char>>
    decreases s.len(),
{
    if s.len() == 0 {
        seq![Seq::empty()]
    } else {
        let p = split_on(s.drop_last(), sep);
        if s.last() == sep { p.push(Seq::empty()) } else { p.update(p.len() - 1, p.last().push(s.last())) }
    }
}

pub proof fn lemma_split_on_len(s: Seq<char>, sep: char)
    ensures
        split_on(s, sep).len() >= 1,
    decreases s.len(),
{
    if s.len() > 0 {
        lemma_split_on_len(s.drop_last(), sep);
    }
}

/// `line` without one `'\r'` at its end.
pub open spec fn without_cr(line: Seq<char>) -> Seq<char> {
    if line.len() > 0 && line.last() == '\r' { line.drop_last() } else { line }
}

/// The lines of `s` as `str::lines` gives them: the pieces between line feeds, a final empty
/// piece left out, and one carriage return removed from the end of each.
pub open spec fn lines_of(s: Seq<char>) -> Seq<Seq<char>> {
    let p = split_on(s, '\n');
    let q = if p.last().len() == 0 { p.drop_last() } else { p };
    q.map_values(|l: Seq<char>| without_cr(l))
}

/// The pieces of `chars[from..to]` between the occurrences of `sep`, each as `[start, end)`
/// bounds, as [`split_on`] says.
pub fn split_ranges(chars: &Vec<char>, from: usize, to: usize, sep: char) -> (r: Vec<(usize, usize)>)
    requires
        from <= to <= chars@.len(),
    ensures
        r@.len() == split_on(chars@.subrange(from as int, to as int), sep).len(),
        forall|k: int| 0 <= k < r@.len() ==> from <= (#[trigger] r@[k]).0 <= r@[k].1 <= to
            && chars@.subrange(r@[k].0 as int, r@[k].1 as int) == split_on(chars@.subrange(from as int, to as int), sep)[k],
{
    let mut pieces: Vec<(usize, usize)> = Vec::new();
    let mut start = from;
    let mut i = from;
    proof {
        assert(chars@.subrange(from as int, from as int) =~= Seq::<char>::empty());
    }
    while i < to
        invariant
            from <= start <= i <= to <= chars@.len(),
            split_on(chars@.subrange(from as int, i as int), sep).len() == pieces@.len() + 1,
            forall|k: int| 0 <= k < pieces@.len() ==> from <= (#[trigger] pieces@[k]).0 <= pieces@[k].1 <= i
                && chars@.subrange(pieces@[k].0 as int, pieces@[k].1 as int) == split_on(chars@.subrange(from as int, i as int), sep)[k],
            split_on(chars@.subrange(from as int, i as int), sep).last() == chars@.subrange(start as int, i as int),
        decreases to - i,
    {
        let ghost prefix = chars@.subrange(from as int, i as int);
        let ghost next = chars@.subrange(from as int, i + 1);
        assert(next.drop_last() =~= prefix);
        assert(next.last() == chars@[i as int]);
        proof { lemma_split_on_len(prefix, sep); }
        if chars[i] == sep {
            pieces.push((start, i));
            start = i + 1;
            assert(chars@.subrange(start as int, i + 1) =~= Seq::<char>::empty());
        } else {
            assert(chars@.subrange(start as int, i + 1) =~= chars@.subrange(start as int, i as int).push(chars@[i as int]));
        }
        i += 1;
    }
    pieces.push((start, to));
    pieces
}

/// The lines of `chars[from..to]`, each as `[start, end)` bounds, as [`lines_of`] says.
pub fn line_ranges(chars: &Vec<char>, from: usize, to: usize) -> (r: Vec<(usize, usize)>)
    requires
        from <= to <= chars@.len(),
    ensures
        r@.len() == lines_of(chars@.subrange(from as int, to as int)).len(),
        forall|k: int| 0 <= k < r@.len() ==> from <= (#[trigger] r@[k]).0 <= r@[k].1 <= to
            && chars@.subrange(r@[k].0 as int, r@[k].1 as int) == lines_of(chars@.subrange(from as int, to as int))[k],
{
    let ghost s = chars@.subrange(from as int, to as int);
    let pieces = split_ranges(chars, from, to, '\n');
    proof { lemma_split_on_len(s, '\n'); }
    let n = pieces.len();
    let last = pieces[n - 1];
    let count = if last.0 == last.1 { n - 1 } else { n };
    let ghost p = split_on(s, '\n');
    let ghost q = if p.last().len() == 0 { p.drop_last() } else { p };
    assert(chars@.subrange(last.0 as int, last.1 as int) == p[n - 1]);
    assert(count == q.len());
    let mut r: Vec<(usize, usize)> = Vec::new();
    let mut k: usize = 0;
    while k < count
        invariant
            from <= to <= chars@.len(),
            count == q.len(),
            count <= n == pieces@.len() == p.len(),
            q.len() <= p.len(),
            forall|j: int| 0 <= j < q.len() ==> #[trigger] q[j] == p[j],
            forall|j: int| 0 <= j < n ==> from <= (#[trigger] pieces@[j]).0 <= pieces@[j].1 <= to
                && chars@.subrange(pieces@[j].0 as int, pieces@[j].1 as int) == p[j],
            k <= count,
            r@.len() == k,
            forall|j: int| 0 <= j < k ==> from <= (#[trigger] r@[j]).0 <= r@[j].1 <= to
                && chars@.subrange(r@[j].0 as int, r@[j].1 as int) == without_cr(q[j]),
        decreases count - k,
    {
        let (a, b) = pieces[k];
        assert(chars@.subrange(a as int, b as int) == q[k as int]);
        if b > a && chars[b - 1] == '\r' {
            assert(chars@.subrange(a as int, b - 1) =~= chars@.subrange(a as int, b as int).drop_last());
            r.push((a, b - 1));
        } else {
            r.push((a, b));
        }
        k += 1;
    }
    assert(lines_of(s) =~= q.map_values(|l: Seq<char>| without_cr(l)));
    r
}

/// The index of the first occurrence of `needle` in `s` at or after `from`, if any.
pub open spec fn occurs_at(s: Seq<char>, needle: Seq<char>, i: int) -> bool {
    0 <= i && i + needle.len() <= s.len() && s.subrange(i, i + needle.len()) == needle
}

/// The first index at or after `from` where `needle` occurs in `chars[..to]`, if any.
pub fn find_from(chars: &Vec<char>, needle: &Vec<char>, from: usize, to: usize) -> (r: Option<usize>)
    requires
        from <= to <= chars@.len(),
    ensures
        match r {
            Some(i) => from <= i && occurs_at(chars@.subrange(0, to as int), needle@, i as int)
                && forall|j: int| from <= j < i ==> !occurs_at(chars@.subrange(0, to as int), needle@, j),
            None => forall|j: int| from <= j ==> !occurs_at(chars@.subrange(0, to as int), needle@, j),
        },
{
    let ghost s = chars@.subrange(0, to as int);
    if needle.len() > to {
        return None;
    }
    let last = to - needle.len();
    let mut i = from;
    while i <= last
        invariant
            from <= i,
            last + needle@.len() == to,
            to <= chars@.len(),
            s == chars@.subrange(0, to as int),
            forall|j: int| from <= j < i ==> !occurs_at(s, needle@, j),
        decreases last + 1 - i,
    {
        let mut k: usize = 0;
        while k < needle.len() && chars[i + k] == needle[k]
            invariant
                i <= last,
                last + needle@.len() == to,
                to <= chars@.len(),
                k <= needle@.len(),
                forall|m: int| 0 <= m < k ==> chars@[i + m] == needle@[m],
            decreases needle.len() - k,
        {
            k += 1;
        }
        if k == needle.len() {
            assert(s.subrange(i as int, i + needle@.len()) =~= needle@);
            return Some(i);
        }
        assert(s.subrange(i as int, i + needle@.len())[k as int] == chars@[i + k]);
        i += 1;
    }
    None
}

/// The value of a string of decimal digits.
pub open spec fn digits_value(s: Seq<char>) -> int
    decreases s.len(),
{
    if s.len() == 0 { 0 } else { digits_value(s.drop_last()) * 10 + (s.last() as int - '0' as int) }
}

/// Whether every character is a decimal digit.
pub open spec fn all_digits(s: Seq<char>) -> bool {
    forall|i: int| 0 <= i < s.len() ==> '0' <= #[trigger] s[i] <= '9'
}

/// The integer that `str::parse::<i64>` reads: an optional sign, then at least one decimal
/// digit, with the value in range.
pub open spec fn parsed_i64(s: Seq<char>) -> Option<i64> {
    let negative = s.len() > 0 && s[0] == '-';
    let body = if s.len() > 0 && (s[0] == '-' || s[0] == '+') { s.drop_first() } else { s };
    let v = if negative { -digits_value(body) } else { digits_value(body) };
    if body.len() > 0 && all_digits(body) && i64::MIN <= v <= i64::MAX { Some(v as i64) } else { None }
}

/// The integer that `str::parse::<usize>` reads: an optional `+`, then at least one decimal
/// digit, with the value in range.
pub open spec fn parsed_usize(s: Seq<char>) -> Option<usize> {
    let body = if s.len() > 0 && s[0] == '+' { s.drop_first() } else { s };
    let v = digits_value(body);
    if body.len() > 0 && all_digits(body) && v <= usize::MAX { Some(v as usize) } else { None }
}

proof fn lemma_digits_nonneg(s: Seq<char>)
    requires
        all_digits(s),
    ensures
        digits_value(s) >= 0,
    decreases s.len(),
{
    if s.len() > 0 {
        assert(all_digits(s.drop_last())) by {
            assert forall|i: int| 0 <= i < s.drop_last().len() implies '0' <= #[trigger] s.drop_last()[i] <= '9' by {
                assert(s.drop_last()[i] == s[i]);
            }
        }
        lemma_digits_nonneg(s.drop_last());
    }
}

proof fn lemma_digits_grow(s: Seq<char>, i: int)
    requires
        0 <= i <= s.len(),
        all_digits(s),
    ensures
        digits_value(s.subrange(0, i)) <= digits_value(s),
    decreases s.len() - i,
{
    if i < s.len() {
        assert(s.drop_last().subrange(0, i) =~= s.subrange(0, i));
        assert(all_digits(s.drop_last())) by {
            assert forall|j: int| 0 <= j < s.drop_last().len() implies '0' <= #[trigger] s.drop_last()[j] <= '9' by {
                assert(s.drop_last()[j] == s[j]);
            }
        }
        lemma_digits_grow(s.drop_last(), i);
        lemma_digits_nonneg(s.drop_last());
        assert(s[s.len() - 1] == s.last());
    } else {
        assert(s.subrange(0, i) =~= s);
    }
}

/// The value of the digits `chars[from..to]`, if they are all digits and the value is at most
/// `limit`; `None` otherwise.
fn digits_up_to(chars: &Vec<char>, from: usize, to: usize, limit: u64) -> (r: Option<u64>)
    requires
        from <= to <= chars@.len(),
        limit >= 9,
    ensures
        match r {
            Some(v) => all_digits(chars@.subrange(from as int, to as int))
                && v == digits_value(chars@.subrange(from as int, to as int)) && v <= limit,
            None => !all_digits(chars@.subrange(from as int, to as int))
                || digits_value(chars@.subrange(from as int, to as int)) > limit,
        },
{
    let ghost s = chars@.subrange(from as int, to as int);
    let mut value: u64 = 0;
    let mut i = from;
    proof { assert(s.subrange(0, 0) =~= Seq::<char>::empty()); }
    while i < to
        invariant
            from <= i <= to <= chars@.len(),
            s == chars@.subrange(from as int, to as int),
            all_digits(s.subrange(0, i - from)),
            value == digits_value(s.subrange(0, i - from)),
            value <= limit,
            limit >= 9,
        decreases to - i,
    {
        let c = chars[i];
        let ghost t = s.subrange(0, i + 1 - from);
        assert(t.drop_last() =~= s.subrange(0, i - from));
        assert(t.last() == c);
        if c < '0' || c > '9' {
            assert(!all_digits(s)) by {
                assert(s[i - from] == c);
            }
            return None;
        }
        let d = (c as u32 - '0' as u32) as u64;
        assert(all_digits(t)) by {
            assert forall|j: int| 0 <= j < t.len() implies '0' <= #[trigger] t[j] <= '9' by {
                if j < t.len() - 1 {
                    assert(t[j] == s.subrange(0, i - from)[j]);
                }
            }
        }
        if value > (limit - d) / 10 {
            proof {
                assert(value * 10 + d > limit) by (nonlinear_arith)
                    requires value > (limit - d) / 10, d <= 9, d <= limit;
                if all_digits(s) {
                    lemma_digits_grow(s, i + 1 - from);
                }
            }
            return None;
        }
        proof {
            assert(value * 10 + d <= limit) by (nonlinear_arith)
                requires value <= (limit - d) / 10, d <= limit;
        }
        value = value * 10 + d;
        i += 1;
    }
    assert(s.subrange(0, to - from) =~= s);
    Some(value)
}

/// Reads `chars[from..to]` as `str::parse::<i64>` does, as [`parsed_i64`] says.
pub fn parse_i64(chars: &Vec<char>, from: usize, to: usize) -> (r: Option<i64>)
    requires
        from <= to <= chars@.len(),
    ensures
        r == parsed_i64(chars@.subrange(from as int, to as int)),
{
    let ghost s = chars@.subrange(from as int, to as int);
    let negative = from < to && chars[from] == '-';
    let signed = from < to && (chars[from] == '-' || chars[from] == '+');
    let start = if signed { from + 1 } else { from };
    proof {
        if signed {
            assert(s.drop_first() =~= chars@.subrange(start as int, to as int));
        }
    }
    if start == to {
        return None;
    }
    let limit: u64 = if negative { 9223372036854775808 } else { 9223372036854775807 };
    match digits_up_to(chars, start, to, limit) {
        None => {
            proof {
                if all_digits(chars@.subrange(start as int, to as int)) {
                    lemma_digits_nonneg(chars@.subrange(start as int, to as int));
                }
            }
            None
        },
        Some(v) => {
            if negative {
                if v == 9223372036854775808 {
                    Some(i64::MIN)
                } else {
                    Some(-(v as i64))
                }
            } else {
                Some(v as i64)
            }
        },
    }
}

/// Reads `chars[from..to]` as `str::parse::<usize>` does, as [`parsed_usize`] says.
pub fn parse_usize(chars: &Vec<char>, from: usize, to: usize) -> (r: Option<usize>)
    requires
        from <= to <= chars@.len(),
    ensures
        r == parsed_usize(chars@.subrange(from as int, to as int)),
{
    let ghost s = chars@.subrange(from as int, to as int);
    let start = if from < to && chars[from] == '+' { from + 1 } else { from };
    proof {
        if start > from {
            assert(s.drop_first() =~= chars@.subrange(start as int, to as int));
        }
    }
    if start == to {
        return None;
    }
    let limit: u64 = if usize::MAX as u64 <= u64::MAX { usize::MAX as u64 } else { u64::MAX };
    match digits_up_to(chars, start, to, limit) {
        None => None,
        Some(v) => Some(v as usize),
    }
}

/// The decimal digits of `v`, without leading zeros (a single `0` for zero).
pub open spec fn decimal(v: nat) -> Seq<char>
    decreases v,
{
    if v < 10 {
        seq![(v + '0' as nat) as char]
    } else {
        decimal(v / 10).push(((v % 10) + '0' as nat) as char)
    }
}

/// How `i64::to_string` writes `v`: a `-` for a negative value, then the decimal digits.
pub open spec fn signed_decimal(v: i64) -> Seq<char> {
    if v < 0 { seq!['-'] + decimal((-v) as nat) } else { decimal(v as nat) }
}

/// Appends the decimal digits of `v`, as [`decimal`] says.
pub fn append_decimal(out: &mut Vec<char>, v: u64)
    ensures
        final(out)@ == old(out)@ + decimal(v as nat),
    decreases v,
{
    if v < 10 {
        let c = char_of_digit(v);
        out.push(c);
        assert(decimal(v as nat) =~= seq![c]);
    } else {
        append_decimal(out, v / 10);
        let c = char_of_digit(v % 10);
        out.push(c);
    }
}

fn char_of_digit(d: u64) -> (c: char)
    requires
        d < 10,
    ensures
        c == (d + '0' as nat) as char,
{
    if d == 0 { '0' } else if d == 1 { '1' } else if d == 2 { '2' } else if d == 3 { '3' } else if d == 4 { '4' }
    else if d == 5 { '5' } else if d == 6 { '6' } else if d == 7 { '7' } else if d == 8 { '8' } else { '9' }
}

/// Appends `v` as `i64::to_string` writes it, as [`signed_decimal`] says.
pub fn append_i64(out: &mut Vec<char>, v: i64)
    ensures
        final(out)@ == old(out)@ + signed_decimal(v),
{
    if v < 0 {
        out.push('-');
        let magnitude: u64 = if v == i64::MIN { 9223372036854775808 } else { (-v) as u64 };
        let ghost mid = out@;
        append_decimal(out, magnitude);
        assert(out@ =~= old(out)@ + signed_decimal(v));
    } else {
        append_decimal(out, v as u64);
    }
}

/// `v` as `i64::to_string` writes it.
pub fn i64_to_string(v: i64) -> (s: String)
    ensures
        s@ == signed_decimal(v),
{
    let mut out: Vec<char> = Vec::new();
    append_i64(&mut out, v);
    assert(out@ =~= signed_decimal(v));
    string_from(&out)
}

proof fn lemma_decimal(n: nat)
    ensures
        decimal(n).len() > 0,
        all_digits(decimal(n)),
        digits_value(decimal(n)) == n,
    decreases n,
{
    if n < 10 {
        let c = (n + '0' as nat) as char;
        assert(c as int == n + 48);
        assert(decimal(n).drop_last() =~= Seq::<char>::empty());
        assert(digits_value(decimal(n)) == digits_value(Seq::<char>::empty()) * 10 + (c as int - '0' as int));
    } else {
        lemma_decimal(n / 10);
        let c = ((n % 10) + '0' as nat) as char;
        assert(c as int == n % 10 + 48);
        assert(decimal(n).drop_last() =~= decimal(n / 10));
        assert(decimal(n).last() == c);
        assert((n / 10) * 10 + n % 10 == n) by (nonlinear_arith);
        assert(digits_value(decimal(n)) == digits_value(decimal(n / 10)) * 10 + (c as int - '0' as int));
        assert forall|i: int| 0 <= i < decimal(n).len() implies '0' <= #[trigger] decimal(n)[i] <= '9' by {
            if i < decimal(n).len() - 1 {
                assert(decimal(n)[i] == decimal(n / 10)[i]);
            }
        }
    }
}

/// Reading back a written integer gives the integer: `str::parse::<i64>` of
/// `i64::to_string(v)` is `v`.
pub proof fn law_parse_after_print_i64(v: i64)
    ensures
        parsed_i64(signed_decimal(v)) == Some(v),
{
    if v < 0 {
        let d = decimal((-v) as nat);
        lemma_decimal((-v) as nat);
        let s = seq!['-'] + d;
        assert(s.drop_first() =~= d);
        assert(s[0] == '-');
    } else {
        let d = decimal(v as nat);
        lemma_decimal(v as nat);
        assert('0' <= d[0] <= '9');
    }
}

/// Reading back a written index gives the index: `str::parse::<usize>` of
/// `usize::to_string(n)` is `n`.
pub proof fn law_parse_after_print_usize(n: usize)
    ensures
        parsed_usize(decimal(n as nat)) == Some(n),
{
    let d = decimal(n as nat);
    lemma_decimal(n as nat);
    assert('0' <= d[0] <= '9');
}

} // verus!

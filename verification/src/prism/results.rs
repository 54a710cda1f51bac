use vstd::prelude::*;
use crate::text::{
    find_from, line_ranges, lines_of, occurs_at, split_on, split_ranges, str_chars, string_of, trim_range, trimmed,
};

verus! {

/// Why the output of the model checker cannot be read.
#[derive(Clone, Copy, PartialEq, Eq, Debug)]
pub enum OutputError {
    /// A result line has no `:` after its state number.
    MissingColon,
    /// A result line has no `=` before its value.
    MissingEquals,
    /// The valuation of a result line is not enclosed in one character on each side.
    MalformedValuation,
    /// A value that should be an integer is not one.
    NotAnInteger,
    /// A value that should be `true` or `false` is neither.
    NotABoolean,
    /// A valuation has no value for a variable that is read.
    MissingValue,
    /// The variable that chooses between `min` and `max` is neither 0 nor 1.
    UnknownFunctionChoice,
}

/// A valuation of the model's variables for which the checked property holds, with the
/// value the model checker gives it.
pub struct FeasibleCombination {
    pub variables: Vec<String>,
    pub value: String,
}

/// The mathematical value of a [`FeasibleCombination`].
pub ghost struct CombinationView {
    pub variables: Seq<Seq<char>>,
    pub value: Seq<char>,
}

impl View for FeasibleCombination {
    type V = CombinationView;

    open spec fn view(&self) -> CombinationView {
        CombinationView { variables: self.variables@.map_values(|s: String| s@), value: self.value@ }
    }
}

/// The first index of `c` in `s`, if it occurs.
pub open spec fn first_index(s: Seq<char>, c: char) -> Option<int>
    decreases s.len(),
{
    if s.len() == 0 {
        None
    } else if s[0] == c {
        Some(0)
    } else {
        match first_index(s.drop_first(), c) {
            Some(k) => Some(k + 1),
            None => None,
        }
    }
}

proof fn lemma_first_index(s: Seq<char>, c: char, i: int)
    requires
        0 <= i <= s.len(),
        forall|j: int| 0 <= j < i ==> s[j] != c,
    ensures
        i < s.len() && s[i] == c ==> first_index(s, c) == Some(i),
        i == s.len() ==> first_index(s, c) is None,
    decreases i,
{
    if i > 0 {
        lemma_first_index(s.drop_first(), c, i - 1);
    }
}

/// The first index of `c` in `chars[from..to]`, counted from `from`, as [`first_index`] says.
pub(crate) fn find_char(chars: &Vec<char>, from: usize, to: usize, c: char) -> (r: Option<usize>)
    requires
        from <= to <= chars@.len(),
    ensures
        r matches Some(x) ==> from <= x < to && first_index(chars@.subrange(from as int, to as int), c) == Some(x - from),
        r is None ==> first_index(chars@.subrange(from as int, to as int), c) is None,
{
    let ghost s = chars@.subrange(from as int, to as int);
    let mut i = from;
    while i < to
        invariant
            from <= i <= to <= chars@.len(),
            s == chars@.subrange(from as int, to as int),
            forall|j: int| 0 <= j < i - from ==> s[j] != c,
        decreases to - i,
    {
        if chars[i] == c {
            proof { lemma_first_index(s, c, i - from); }
            return Some(i);
        }
        i += 1;
    }
    proof { lemma_first_index(s, c, s.len() as int); }
    None
}

/// Where the results for the initial states begin in the output of the model checker.
pub open spec fn results_start() -> Seq<char> {
    "Results (non-zero only) for filter \"init\":\n"@
}

/// Where the results for the initial states end.
pub open spec fn results_end() -> Seq<char> {
    "Range of values over initial states: "@
}

/// Whether `i` is the first place at or after `from` where `needle` occurs in `s`.
pub open spec fn first_occurrence(s: Seq<char>, needle: Seq<char>, from: int, i: int) -> bool {
    from <= i && occurs_at(s, needle, i) && forall|j: int| from <= j < i ==> !occurs_at(s, needle, j)
}

/// The results part of the output: what stands between the first start marker and the first
/// end marker after it, without white space at either end.
pub open spec fn isolated(s: Seq<char>) -> Option<Seq<char>> {
    if exists|i: int| first_occurrence(s, results_start(), 0, i) {
        let i = choose|i: int| first_occurrence(s, results_start(), 0, i);
        let start = i + results_start().len();
        if exists|j: int| first_occurrence(s, results_end(), start, j) {
            let j = choose|j: int| first_occurrence(s, results_end(), start, j);
            Some(trimmed(s.subrange(start, j)))
        } else {
            None
        }
    } else {
        None
    }
}

proof fn lemma_first_occurrence_unique(s: Seq<char>, needle: Seq<char>, from: int, i: int, k: int)
    requires
        first_occurrence(s, needle, from, i),
        first_occurrence(s, needle, from, k),
    ensures
        i == k,
{
    if i < k {
        assert(!occurs_at(s, needle, i));
    } else if k < i {
        assert(!occurs_at(s, needle, k));
    }
}

/// The results part of the output of the model checker, as [`isolated`] says.
pub fn isolate_results(stdout: &str) -> (r: Option<String>)
    ensures
        match isolated(stdout@) {
            Some(x) => r matches Some(y) && y@ == x,
            None => r is None,
        },
{
    let chars = str_chars(stdout);
    let n = chars.len();
    assert(chars@.subrange(0, n as int) =~= chars@);
    let start_marker = str_chars("Results (non-zero only) for filter \"init\":\n");
    let end_marker = str_chars("Range of values over initial states: ");
    let i = match find_from(&chars, &start_marker, 0, n) {
        Some(i) => i,
        None => {
            assert(!exists|i: int| first_occurrence(stdout@, results_start(), 0, i));
            return None;
        },
    };
    assert(first_occurrence(stdout@, results_start(), 0, i as int));
    proof {
        let c = choose|k: int| first_occurrence(stdout@, results_start(), 0, k);
        lemma_first_occurrence_unique(stdout@, results_start(), 0, i as int, c);
    }
    let start = i + start_marker.len();
    let j = match find_from(&chars, &end_marker, start, n) {
        Some(j) => j,
        None => {
            assert(!exists|j: int| first_occurrence(stdout@, results_end(), start as int, j));
            return None;
        },
    };
    assert(first_occurrence(stdout@, results_end(), start as int, j as int));
    proof {
        let c = choose|k: int| first_occurrence(stdout@, results_end(), start as int, k);
        lemma_first_occurrence_unique(stdout@, results_end(), start as int, j as int, c);
    }
    let (a, b) = trim_range(&chars, start, j);
    Some(string_of(&chars, a, b))
}

/// Whether `c` is written with one byte in UTF-8.
pub open spec fn is_ascii_char(c: char) -> bool {
    (c as u32) < 128
}

/// What a result line `state:(valuation)=value` gives: the comma-separated pieces of the text
/// after the `:` (without white space at either end and without its first and last
/// character), and the text after the first `=`.
pub open spec fn combination_of(entry: Seq<char>) -> Result<CombinationView, OutputError> {
    match first_index(entry, ':') {
        None => Err(OutputError::MissingColon),
        Some(i) => {
            let info = entry.subrange(i + 1, entry.len() as int);
            match first_index(info, '=') {
                None => Err(OutputError::MissingEquals),
                Some(j) => {
                    let t = trimmed(info);
                    if t.len() >= 2 && is_ascii_char(t[0]) && is_ascii_char(t.last()) {
                        Ok(CombinationView {
                            variables: split_on(t.subrange(1, t.len() - 1), ','),
                            value: info.subrange(j + 1, info.len() as int),
                        })
                    } else {
                        Err(OutputError::MalformedValuation)
                    }
                },
            }
        },
    }
}

/// Reads the result line `chars[from..to]`, as [`combination_of`] says.
fn combination_in(chars: &Vec<char>, from: usize, to: usize) -> (r: Result<FeasibleCombination, OutputError>)
    requires
        from <= to <= chars@.len(),
    ensures
        match combination_of(chars@.subrange(from as int, to as int)) {
            Ok(c) => r matches Ok(x) && x@ == c,
            Err(e) => r == Err::<FeasibleCombination, OutputError>(e),
        },
{
    let ghost entry = chars@.subrange(from as int, to as int);
    let colon = match find_char(chars, from, to, ':') {
        Some(k) => k,
        None => return Err(OutputError::MissingColon),
    };
    let info_start = colon + 1;
    let ghost info = chars@.subrange(info_start as int, to as int);
    assert(entry.subrange(colon - from + 1, entry.len() as int) =~= info);
    let equals = match find_char(chars, info_start, to, '=') {
        Some(k) => k,
        None => return Err(OutputError::MissingEquals),
    };
    let (a, b) = trim_range(chars, info_start, to);
    if b - a < 2 || (chars[a] as u32) >= 128 || (chars[b - 1] as u32) >= 128 {
        proof {
            let t = trimmed(info);
            assert(t =~= chars@.subrange(a as int, b as int));
            if b - a >= 2 {
                assert(t[0] == chars@[a as int]);
                assert(t.last() == chars@[b - 1]);
            }
        }
        return Err(OutputError::MalformedValuation);
    }
    proof {
        let t = trimmed(info);
        assert(t[0] == chars@[a as int]);
        assert(t.last() == chars@[b - 1]);
        assert(t.subrange(1, t.len() - 1) =~= chars@.subrange(a + 1, b - 1));
    }
    let pieces = split_ranges(chars, a + 1, b - 1, ',');
    let mut variables: Vec<String> = Vec::new();
    let mut k: usize = 0;
    while k < pieces.len()
        invariant
            a + 1 <= b - 1 <= chars@.len(),
            k <= pieces@.len(),
            variables@.len() == k,
            pieces@.len() == split_on(chars@.subrange(a + 1, b - 1), ',').len(),
            forall|m: int| 0 <= m < pieces@.len() ==> a + 1 <= (#[trigger] pieces@[m]).0 <= pieces@[m].1 <= b - 1
                && chars@.subrange(pieces@[m].0 as int, pieces@[m].1 as int) == split_on(chars@.subrange(a + 1, b - 1), ',')[m],
            forall|m: int| 0 <= m < k ==> (#[trigger] variables@[m])@ == split_on(chars@.subrange(a + 1, b - 1), ',')[m],
        decreases pieces.len() - k,
    {
        let (p, q) = pieces[k];
        variables.push(string_of(chars, p, q));
        k += 1;
    }
    let value = string_of(chars, equals + 1, to);
    let r = FeasibleCombination { variables, value };
    assert(r@.variables =~= split_on(chars@.subrange(a + 1, b - 1), ','));
    assert(r@.value =~= info.subrange(equals - info_start + 1, info.len() as int));
    Ok(r)
}

/// Reads one result line, as [`combination_of`] says. A line that cannot be read (one
/// without `:`, or without `=` after it) is reported as an error, by design, so that the
/// caller decides whether to stop; the library itself never stops the program.
pub fn to_feasible_combination(entry: &str) -> (r: Result<FeasibleCombination, OutputError>)
    ensures
        match combination_of(entry@) {
            Ok(c) => r matches Ok(x) && x@ == c,
            Err(e) => r == Err::<FeasibleCombination, OutputError>(e),
        },
{
    let chars = str_chars(entry);
    assert(chars@.subrange(0, chars@.len() as int) =~= chars@);
    combination_in(&chars, 0, chars.len())
}

/// The combinations of a results part: none where it reads `(all zero)`, else one per line;
/// the first line that cannot be read gives the error.
pub open spec fn combinations_of(results: Seq<char>) -> Result<Seq<CombinationView>, OutputError> {
    if results == "(all zero)"@ {
        Ok(Seq::empty())
    } else {
        combinations_of_lines(lines_of(results))
    }
}

/// The combinations of result lines, from first to last.
pub open spec fn combinations_of_lines(lines: Seq<Seq<char>>) -> Result<Seq<CombinationView>, OutputError>
    decreases lines.len(),
{
    if lines.len() == 0 {
        Ok(Seq::empty())
    } else {
        match combinations_of_lines(lines.drop_last()) {
            Err(e) => Err(e),
            Ok(done) => match combination_of(lines.last()) {
                Err(e) => Err(e),
                Ok(c) => Ok(done.push(c)),
            },
        }
    }
}

proof fn lemma_combinations_err(lines: Seq<Seq<char>>, n: int)
    requires
        0 <= n <= lines.len(),
        combinations_of_lines(lines.subrange(0, n)) is Err,
    ensures
        combinations_of_lines(lines) == combinations_of_lines(lines.subrange(0, n)),
    decreases lines.len() - n,
{
    if n < lines.len() {
        assert(lines.subrange(0, n + 1).drop_last() =~= lines.subrange(0, n));
        lemma_combinations_err(lines, n + 1);
    } else {
        assert(lines.subrange(0, n) =~= lines);
    }
}

proof fn lemma_combinations_per_line(lines: Seq<Seq<char>>)
    ensures
        match combinations_of_lines(lines) {
            Ok(cs) => cs.len() == lines.len()
                && forall|k: int| 0 <= k < lines.len() ==> combination_of(#[trigger] lines[k]) == Ok::<CombinationView, OutputError>(cs[k]),
            Err(e) => exists|k: int| 0 <= k < lines.len() && combination_of(#[trigger] lines[k]) == Err::<CombinationView, OutputError>(e)
                && forall|j: int| 0 <= j < k ==> combination_of(#[trigger] lines[j]) is Ok,
        },
    decreases lines.len(),
{
    if lines.len() > 0 {
        let rest = lines.drop_last();
        lemma_combinations_per_line(rest);
        match combinations_of_lines(rest) {
            Ok(done) => {
                assert forall|j: int| 0 <= j < rest.len() implies combination_of(#[trigger] lines[j]) is Ok by {
                    assert(lines[j] == rest[j]);
                    assert(combination_of(rest[j]) == Ok::<CombinationView, OutputError>(done[j]));
                }
                match combination_of(lines.last()) {
                    Ok(c) => {
                        let cs = done.push(c);
                        assert forall|k: int| 0 <= k < lines.len() implies
                            combination_of(#[trigger] lines[k]) == Ok::<CombinationView, OutputError>(cs[k]) by {
                            if k < rest.len() {
                                assert(lines[k] == rest[k]);
                                assert(combination_of(rest[k]) == Ok::<CombinationView, OutputError>(done[k]));
                            }
                        }
                    },
                    Err(e) => {
                        assert(combination_of(lines[lines.len() - 1]) == Err::<CombinationView, OutputError>(e));
                    },
                }
            },
            Err(e) => {
                let k = choose|k: int| 0 <= k < rest.len() && combination_of(#[trigger] rest[k]) == Err::<CombinationView, OutputError>(e)
                    && forall|j: int| 0 <= j < k ==> combination_of(#[trigger] rest[j]) is Ok;
                assert(lines[k] == rest[k]);
                assert forall|j: int| 0 <= j < k implies combination_of(#[trigger] lines[j]) is Ok by {
                    assert(lines[j] == rest[j]);
                    assert(combination_of(rest[j]) is Ok);
                }
            },
        }
    }
}

/// The results part gives one combination per line, in order: the combination that the line
/// reads as, where every line can be read; else the error of the first line that cannot be.
/// A part that reads `(all zero)` gives none.
pub proof fn law_one_combination_per_line(results: Seq<char>)
    ensures
        results == "(all zero)"@ ==> combinations_of(results) == Ok::<Seq<CombinationView>, OutputError>(Seq::empty()),
        results != "(all zero)"@ ==> match combinations_of(results) {
            Ok(cs) => cs.len() == lines_of(results).len()
                && forall|k: int| 0 <= k < cs.len() ==>
                    combination_of(#[trigger] lines_of(results)[k]) == Ok::<CombinationView, OutputError>(cs[k]),
            Err(e) => exists|k: int| 0 <= k < lines_of(results).len()
                && combination_of(#[trigger] lines_of(results)[k]) == Err::<CombinationView, OutputError>(e)
                && forall|j: int| 0 <= j < k ==> combination_of(#[trigger] lines_of(results)[j]) is Ok,
        },
{
    lemma_combinations_per_line(lines_of(results));
}

/// The views of a list of combinations.
pub open spec fn combination_views(s: Seq<FeasibleCombination>) -> Seq<CombinationView> {
    s.map_values(|c: FeasibleCombination| c@)
}

/// Reads the results part of the output, as [`combinations_of`] says.
pub fn parse_results(results: &str) -> (r: Result<Vec<FeasibleCombination>, OutputError>)
    ensures
        match combinations_of(results@) {
            Ok(cs) => r matches Ok(x) && combination_views(x@) == cs,
            Err(e) => r == Err::<Vec<FeasibleCombination>, OutputError>(e),
        },
{
    let chars = str_chars(results);
    let all_zero = str_chars("(all zero)");
    if chars.len() == all_zero.len() {
        let mut same = true;
        let mut i: usize = 0;
        while i < chars.len()
            invariant
                chars@.len() == all_zero@.len(),
                i <= chars@.len(),
                same == (forall|j: int| 0 <= j < i ==> chars@[j] == all_zero@[j]),
            decreases chars.len() - i,
        {
            if chars[i] != all_zero[i] {
                same = false;
            }
            i += 1;
        }
        if same {
            assert(chars@ =~= all_zero@);
            return Ok(Vec::new());
        }
    }
    assert(results@ != "(all zero)"@);
    let n = chars.len();
    assert(chars@.subrange(0, n as int) =~= chars@);
    let lines = line_ranges(&chars, 0, n);
    let ghost ls = lines_of(results@);
    let mut out: Vec<FeasibleCombination> = Vec::new();
    let mut k: usize = 0;
    assert(ls.subrange(0, 0) =~= Seq::<Seq<char>>::empty());
    assert(combination_views(out@) =~= Seq::<CombinationView>::empty());
    while k < lines.len()
        invariant
            n == chars@.len(),
            chars@ == results@,
            results@ != "(all zero)"@,
            ls == lines_of(results@),
            lines@.len() == ls.len(),
            forall|m: int| 0 <= m < lines@.len() ==> 0 <= (#[trigger] lines@[m]).0 <= lines@[m].1 <= n
                && chars@.subrange(lines@[m].0 as int, lines@[m].1 as int) == ls[m],
            k <= lines@.len(),
            combinations_of_lines(ls.subrange(0, k as int)) == Ok::<Seq<CombinationView>, OutputError>(combination_views(out@)),
        decreases lines.len() - k,
    {
        let (a, b) = lines[k];
        assert(ls.subrange(0, k + 1).drop_last() =~= ls.subrange(0, k as int));
        assert(ls.subrange(0, k + 1).last() == ls[k as int]);
        assert(chars@.subrange(a as int, b as int) == ls[k as int]);
        let ghost before = out@;
        match combination_in(&chars, a, b) {
            Ok(c) => {
                let ghost cv = c@;
                out.push(c);
                assert(combination_views(out@) =~= combination_views(before).push(cv));
            },
            Err(e) => {
                proof {
                    assert(combination_of(ls[k as int]) == Err::<CombinationView, OutputError>(e));
                    assert(combinations_of_lines(ls.subrange(0, k + 1)) == Err::<Seq<CombinationView>, OutputError>(e));
                    lemma_combinations_err(ls, k + 1);
                }
                return Err(e);
            },
        }
        k += 1;
    }
    assert(ls.subrange(0, lines@.len() as int) =~= ls);
    Ok(out)
}

} // verus!

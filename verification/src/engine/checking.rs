use vstd::prelude::*;
use crate::engine::tasks::CheckingResult;
use crate::prism::results::{first_index, first_occurrence};
use crate::text::{find_from, occurs_at, str_chars, string_from, string_of, trim_range, trimmed};
use crate::engine::synthesis::controller::clone_strings;
use crate::engine::synthesis::files::{append_joined, joined};

verus! {

/// Whether a probability bound is checked over the minimising or the maximising resolution of
/// non-determinism.
#[derive(Clone, Copy, PartialEq, Eq, Debug)]
pub enum NonDeterminismKind {
    Minimise,
    Maximise,
}

/// The comparison of a probability bound.
#[derive(Clone, Copy, PartialEq, Eq, Debug)]
pub enum BoundOperator {
    LessThan,
    LessOrEqual,
    GreaterThan,
    GreaterOrEqual,
}

/// Why the model checker cannot check the properties, or its output cannot be read.
#[derive(Clone, Copy, PartialEq, Eq, Debug)]
pub enum CheckingError {
    /// A property of the form `Pmin < t`.
    MinimumBelow,
    /// A property of the form `Pmin <= t`.
    MinimumAtMost,
    /// A property of the form `Pmax > t`.
    MaximumAbove,
    /// A property of the form `Pmax >= t`.
    MaximumAtLeast,
    /// The output is not made of one section per property and one more.
    SectionCount { expected: usize, found: usize },
    /// The section of a property holds no `Result: `.
    MissingResult { section: usize },
}

/// How a probability bound is handed to the model checker: a lower bound on the minimum, or
/// an upper bound on the maximum, is checked without `min`/`max` (the model checker then
/// considers every resolution); the other combinations cannot be checked.
pub open spec fn relaxed(nd: Option<NonDeterminismKind>, op: BoundOperator) -> Result<Option<NonDeterminismKind>, CheckingError> {
    match (nd, op) {
        (Some(NonDeterminismKind::Minimise), BoundOperator::GreaterThan) => Ok(None),
        (Some(NonDeterminismKind::Minimise), BoundOperator::GreaterOrEqual) => Ok(None),
        (Some(NonDeterminismKind::Maximise), BoundOperator::LessThan) => Ok(None),
        (Some(NonDeterminismKind::Maximise), BoundOperator::LessOrEqual) => Ok(None),
        (Some(NonDeterminismKind::Minimise), BoundOperator::LessThan) => Err(CheckingError::MinimumBelow),
        (Some(NonDeterminismKind::Minimise), BoundOperator::LessOrEqual) => Err(CheckingError::MinimumAtMost),
        (Some(NonDeterminismKind::Maximise), BoundOperator::GreaterThan) => Err(CheckingError::MaximumAbove),
        (Some(NonDeterminismKind::Maximise), BoundOperator::GreaterOrEqual) => Err(CheckingError::MaximumAtLeast),
        (None, _) => Ok(None),
    }
}

/// Whether a bound asks the probability to be at least (or above) the threshold.
pub open spec fn bounds_from_below(op: BoundOperator) -> bool {
    op == BoundOperator::GreaterThan || op == BoundOperator::GreaterOrEqual
}

/// Which bounds on a minimised or maximised probability can be checked: a bound from below on
/// the minimum (`Pmin > t`, `Pmin >= t`) holds exactly where it holds for every resolution of
/// the choices, and so does a bound from above on the maximum (`Pmax < t`, `Pmax <= t`); both
/// are checked as plain bounds, with no minimising or maximising left. The opposite
/// combinations are refused, each with the error that names it. A bound without `min` or
/// `max` is checked as it is.
pub proof fn law_relaxed_bounds(nd: Option<NonDeterminismKind>, op: BoundOperator)
    ensures
        nd is None ==> relaxed(nd, op) == Ok::<Option<NonDeterminismKind>, CheckingError>(None),
        nd == Some(NonDeterminismKind::Minimise) ==> (bounds_from_below(op)
            <==> relaxed(nd, op) == Ok::<Option<NonDeterminismKind>, CheckingError>(None)),
        nd == Some(NonDeterminismKind::Maximise) ==> (!bounds_from_below(op)
            <==> relaxed(nd, op) == Ok::<Option<NonDeterminismKind>, CheckingError>(None)),
        relaxed(nd, op) is Ok ==> relaxed(nd, op) == Ok::<Option<NonDeterminismKind>, CheckingError>(None),
        relaxed(nd, op) matches Err(e) ==> match e {
            CheckingError::MinimumBelow => nd == Some(NonDeterminismKind::Minimise) && op == BoundOperator::LessThan,
            CheckingError::MinimumAtMost => nd == Some(NonDeterminismKind::Minimise) && op == BoundOperator::LessOrEqual,
            CheckingError::MaximumAbove => nd == Some(NonDeterminismKind::Maximise) && op == BoundOperator::GreaterThan,
            CheckingError::MaximumAtLeast => nd == Some(NonDeterminismKind::Maximise) && op == BoundOperator::GreaterOrEqual,
            _ => false,
        },
{
}

/// The non-determinism with which a probability bound is checked, as [`relaxed`] says.
pub fn relaxed_non_determinism(nd: Option<NonDeterminismKind>, op: BoundOperator) -> (r: Result<Option<NonDeterminismKind>, CheckingError>)
    ensures
        r == relaxed(nd, op),
{
    match (nd, op) {
        (Some(NonDeterminismKind::Minimise), BoundOperator::GreaterThan) => Ok(None),
        (Some(NonDeterminismKind::Minimise), BoundOperator::GreaterOrEqual) => Ok(None),
        (Some(NonDeterminismKind::Maximise), BoundOperator::LessThan) => Ok(None),
        (Some(NonDeterminismKind::Maximise), BoundOperator::LessOrEqual) => Ok(None),
        (Some(NonDeterminismKind::Minimise), BoundOperator::LessThan) => Err(CheckingError::MinimumBelow),
        (Some(NonDeterminismKind::Minimise), BoundOperator::LessOrEqual) => Err(CheckingError::MinimumAtMost),
        (Some(NonDeterminismKind::Maximise), BoundOperator::GreaterThan) => Err(CheckingError::MaximumAbove),
        (Some(NonDeterminismKind::Maximise), BoundOperator::GreaterOrEqual) => Err(CheckingError::MaximumAtLeast),
        (None, _) => Ok(None),
    }
}

/// The properties file handed to the model checker: the property texts joined with `;` and a
/// line feed, and one more of these after the last.
pub open spec fn checking_properties_text(properties: Seq<Seq<char>>) -> Seq<char> {
    joined(properties.push(Seq::empty()), ";\n"@)
}

/// The properties file as [`checking_properties_text`] says.
pub fn properties_source(properties: &Vec<String>) -> (r: String)
    ensures
        r@ == checking_properties_text(properties@.map_values(|s: String| s@)),
{
    let mut all = clone_strings(properties);
    let ghost before = all@.map_values(|s: String| s@);
    all.push(String::new());
    assert(all@.map_values(|s: String| s@) =~= before.push(Seq::<char>::empty()));
    let mut out: Vec<char> = Vec::new();
    append_joined(&mut out, &all, ";\n");
    assert(out@ =~= checking_properties_text(properties@.map_values(|s: String| s@)));
    string_from(&out)
}

/// The line of dashes between the sections of the model checker's output.
pub open spec fn section_separator() -> Seq<char> {
    Seq::new(69, |i: int| '-')
}

/// The pieces of `s` between the occurrences of `sep` (found from left to right, without
/// overlap), as `str::split` gives them.
pub open spec fn split_str(s: Seq<char>, sep: Seq<char>) -> Seq<Seq<char>>
    decreases s.len(),
{
    if sep.len() > 0 && exists|i: int| first_occurrence(s, sep, 0, i) {
        let i = choose|i: int| first_occurrence(s, sep, 0, i);
        seq![s.subrange(0, i)] + split_str(s.subrange(i + sep.len(), s.len() as int), sep)
    } else {
        seq![s]
    }
}

/// The view of a checking result.
pub ghost enum CheckingView {
    Bool(bool),
    Value(Seq<char>),
}

/// The views of checking results.
pub open spec fn checking_views(s: Seq<CheckingResult>) -> Seq<CheckingView> {
    s.map_values(|c: CheckingResult| match c {
        CheckingResult::Bool(b) => CheckingView::Bool(b),
        CheckingResult::Value(v) => CheckingView::Value(v@),
    })
}

/// Whether `i` is the last place where `needle` occurs in `s`.
pub open spec fn last_occurrence(s: Seq<char>, needle: Seq<char>, i: int) -> bool {
    occurs_at(s, needle, i) && forall|j: int| i < j ==> !occurs_at(s, needle, j)
}

/// The result that a section reports: after the last `Result: `, without white space at
/// either end, up to the first space; `true` and `false` are truth values, anything else is
/// kept as written.
pub open spec fn section_result(section: Seq<char>) -> Option<CheckingView> {
    if exists|i: int| last_occurrence(section, "Result: "@, i) {
        let i = choose|i: int| last_occurrence(section, "Result: "@, i);
        let after = trimmed(section.subrange(i + 8, section.len() as int));
        let word = match first_index(after, ' ') {
            Some(k) => after.subrange(0, k),
            None => after,
        };
        Some(if word == "true"@ {
            CheckingView::Bool(true)
        } else if word == "false"@ {
            CheckingView::Bool(false)
        } else {
            CheckingView::Value(word)
        })
    } else {
        None
    }
}

/// Whether a section is the note on warnings that the model checker appends.
pub open spec fn is_warning_note(section: Seq<char>) -> bool {
    let t = trimmed(section);
    t.len() >= 11 && t.subrange(0, 11) == "Note: There"@
}

/// The results of `count` properties in the model checker's output: the sections between the
/// separator lines, without a trailing note on warnings, must be one more than the
/// properties; the last `count` sections hold the results, in order.
pub open spec fn checking_results(output: Seq<char>, count: nat) -> Result<Seq<CheckingView>, CheckingError> {
    let all = split_str(output, section_separator());
    let sections = if all.len() > 0 && is_warning_note(all.last()) { all.drop_last() } else { all };
    if sections.len() != count + 1 {
        Err(CheckingError::SectionCount { expected: (count + 1) as usize, found: sections.len() as usize })
    } else {
        results_of_sections(sections, 1, count)
    }
}

/// The results of sections `first .. first + count`; the first section without a result gives
/// the error.
pub open spec fn results_of_sections(sections: Seq<Seq<char>>, first: nat, count: nat) -> Result<Seq<CheckingView>, CheckingError>
    decreases count,
{
    if count == 0 {
        Ok(Seq::empty())
    } else {
        match results_of_sections(sections, first, (count - 1) as nat) {
            Err(e) => Err(e),
            Ok(done) => match section_result(sections[first + count - 1]) {
                None => Err(CheckingError::MissingResult { section: (first + count - 1) as usize }),
                Some(r) => Ok(done.push(r)),
            },
        }
    }
}

proof fn lemma_results_err(sections: Seq<Seq<char>>, first: nat, count: nat, n: nat)
    requires
        n <= count,
        results_of_sections(sections, first, n) is Err,
    ensures
        results_of_sections(sections, first, count) == results_of_sections(sections, first, n),
    decreases count - n,
{
    if n < count {
        lemma_results_err(sections, first, (count - 1) as nat, n);
    }
}

proof fn lemma_shifted_occurrence(s: Seq<char>, sep: Seq<char>, pos: int, i: int)
    requires
        0 <= pos <= s.len(),
        first_occurrence(s, sep, pos, i),
    ensures
        first_occurrence(s.subrange(pos, s.len() as int), sep, 0, i - pos),
{
    let t = s.subrange(pos, s.len() as int);
    assert(t.subrange(i - pos, i - pos + sep.len()) =~= s.subrange(i, i + sep.len()));
    assert forall|j: int| 0 <= j < i - pos implies !occurs_at(t, sep, j) by {
        if occurs_at(t, sep, j) {
            assert(t.subrange(j, j + sep.len()) =~= s.subrange(pos + j, pos + j + sep.len()));
            assert(occurs_at(s, sep, pos + j));
        }
    }
}

proof fn lemma_no_shifted_occurrence(s: Seq<char>, sep: Seq<char>, pos: int)
    requires
        0 <= pos <= s.len(),
        forall|j: int| pos <= j ==> !occurs_at(s, sep, j),
    ensures
        !exists|i: int| first_occurrence(s.subrange(pos, s.len() as int), sep, 0, i),
{
    let t = s.subrange(pos, s.len() as int);
    if exists|i: int| first_occurrence(t, sep, 0, i) {
        let i = choose|i: int| first_occurrence(t, sep, 0, i);
        assert(t.subrange(i, i + sep.len()) =~= s.subrange(pos + i, pos + i + sep.len()));
        assert(occurs_at(s, sep, pos + i));
    }
}

proof fn lemma_first_occurrence_unique(s: Seq<char>, needle: Seq<char>, from: int, i: int, k: int)
    requires
        first_occurrence(s, needle, from, i),
        first_occurrence(s, needle, from, k),
    ensures
        i == k,
{
    if i < k {
        assert(!occurs_at(s, needle, i));
    } else if k < i {
        assert(!occurs_at(s, needle, k));
    }
}

/// The pieces of `chars` between the separators, as `[start, end)` bounds, as [`split_str`] says.
fn split_sections(chars: &Vec<char>, sep: &Vec<char>) -> (r: Vec<(usize, usize)>)
    requires
        sep@.len() > 0,
    ensures
        r@.len() == split_str(chars@, sep@).len(),
        forall|k: int| 0 <= k < r@.len() ==> (#[trigger] r@[k]).0 <= r@[k].1 <= chars@.len()
            && chars@.subrange(r@[k].0 as int, r@[k].1 as int) == split_str(chars@, sep@)[k],
{
    let n = chars.len();
    let ghost s = chars@;
    assert(s.subrange(0, n as int) =~= s);
    let mut pieces: Vec<(usize, usize)> = Vec::new();
    let mut pos: usize = 0;
    let ghost mut done: Seq<Seq<char>> = Seq::empty();
    loop
        invariant
            n == s.len(),
            s == chars@,
            sep@.len() > 0,
            pos <= n,
            pieces@.len() == done.len(),
            forall|k: int| 0 <= k < pieces@.len() ==> (#[trigger] pieces@[k]).0 <= pieces@[k].1 <= n
                && s.subrange(pieces@[k].0 as int, pieces@[k].1 as int) == done[k],
            done + split_str(s.subrange(pos as int, n as int), sep@) == split_str(s, sep@),
        decreases n - pos,
    {
        let ghost t = s.subrange(pos as int, n as int);
        match find_from(chars, sep, pos, n) {
            Some(i) => {
                proof {
                    assert(s.subrange(0, n as int) =~= s);
                    lemma_shifted_occurrence(s, sep@, pos as int, i as int);
                    let c = choose|k: int| first_occurrence(t, sep@, 0, k);
                    lemma_first_occurrence_unique(t, sep@, 0, i - pos, c);
                    assert(t.subrange(0, i - pos) =~= s.subrange(pos as int, i as int));
                    assert(t.subrange(i - pos + sep@.len(), t.len() as int) =~= s.subrange(i + sep@.len(), n as int));
                    assert(split_str(t, sep@) == seq![s.subrange(pos as int, i as int)] + split_str(s.subrange(i + sep@.len(), n as int), sep@));
                    done = done.push(s.subrange(pos as int, i as int));
                    assert(done + split_str(s.subrange(i + sep@.len(), n as int), sep@) =~= split_str(s, sep@));
                }
                pieces.push((pos, i));
                pos = i + sep.len();
            },
            None => {
                proof {
                    assert(s.subrange(0, n as int) =~= s);
                    lemma_no_shifted_occurrence(s, sep@, pos as int);
                    assert(split_str(t, sep@) == seq![t]);
                }
                pieces.push((pos, n));
                proof {
                    done = done.push(t);
                    assert(done =~= split_str(s, sep@));
                }
                return pieces;
            },
        }
    }
}

/// The last place where `needle` occurs in `chars[from..to]`, counted from `from`, if any.
fn rfind(chars: &Vec<char>, from: usize, to: usize, needle: &Vec<char>) -> (r: Option<usize>)
    requires
        from <= to <= chars@.len(),
    ensures
        match r {
            Some(i) => from <= i && last_occurrence(chars@.subrange(from as int, to as int), needle@, i - from),
            None => forall|j: int| !occurs_at(chars@.subrange(from as int, to as int), needle@, j),
        },
{
    let ghost s = chars@.subrange(from as int, to as int);
    if needle.len() > to - from {
        return None;
    }
    let mut i = to - needle.len();
    loop
        invariant
            from <= i + needle@.len() <= to <= chars@.len(),
            from <= i,
            s == chars@.subrange(from as int, to as int),
            forall|j: int| i - from < j ==> !occurs_at(s, needle@, j),
        decreases i,
    {
        let mut k: usize = 0;
        while k < needle.len() && chars[i + k] == needle[k]
            invariant
                i + needle@.len() <= to <= chars@.len(),
                k <= needle@.len(),
                forall|m: int| 0 <= m < k ==> chars@[i + m] == needle@[m],
            decreases needle.len() - k,
        {
            k += 1;
        }
        if k == needle.len() {
            assert(s.subrange(i - from, i - from + needle@.len()) =~= needle@);
            return Some(i);
        }
        assert(s.subrange(i - from, i - from + needle@.len())[k as int] == chars@[i + k]);
        if i == from {
            return None;
        }
        i -= 1;
    }
}

/// The result of the section `chars[from..to]`, as [`section_result`] says.
fn result_in_section(chars: &Vec<char>, from: usize, to: usize) -> (r: Option<CheckingResult>)
    requires
        from <= to <= chars@.len(),
    ensures
        match section_result(chars@.subrange(from as int, to as int)) {
            Some(v) => r matches Some(x) && checking_views(seq![x])[0] == v,
            None => r is None,
        },
{
    let ghost s = chars@.subrange(from as int, to as int);
    let marker = str_chars("Result: ");
    proof { reveal_strlit("Result: "); }
    let i = match rfind(chars, from, to, &marker) {
        Some(i) => i,
        None => {
            assert(!exists|i: int| last_occurrence(s, "Result: "@, i));
            return None;
        },
    };
    proof {
        let c = choose|k: int| last_occurrence(s, "Result: "@, k);
        if c < i - from {
            assert(!occurs_at(s, "Result: "@, i - from));
        } else if i - from < c {
            assert(!occurs_at(s, "Result: "@, c));
        }
    }
    let start = i + 8;
    assert(s.subrange(i - from + 8, s.len() as int) =~= chars@.subrange(start as int, to as int));
    let (a, b) = trim_range(chars, start, to);
    let ghost after = chars@.subrange(a as int, b as int);
    let mut end = a;
    while end < b && chars[end] != ' '
        invariant
            a <= end <= b <= chars@.len(),
            forall|j: int| a <= j < end ==> chars@[j] != ' ',
        decreases b - end,
    {
        end += 1;
    }
    proof {
        lemma_first_space(after, end - a);
        if end < b {
            assert(after.subrange(0, end - a) =~= chars@.subrange(a as int, end as int));
        } else {
            assert(after =~= chars@.subrange(a as int, end as int));
        }
        reveal_strlit("true");
        reveal_strlit("false");
    }
    let word = string_of(chars, a, end);
    if crate::text::str_eq_string("true", &word) {
        Some(CheckingResult::Bool(true))
    } else if crate::text::str_eq_string("false", &word) {
        Some(CheckingResult::Bool(false))
    } else {
        Some(CheckingResult::Value(word))
    }
}

proof fn lemma_first_space(s: Seq<char>, k: int)
    requires
        0 <= k <= s.len(),
        forall|j: int| 0 <= j < k ==> s[j] != ' ',
        k < s.len() ==> s[k] == ' ',
    ensures
        k < s.len() ==> first_index(s, ' ') == Some(k),
        k == s.len() ==> first_index(s, ' ') is None,
    decreases k,
{
    if k > 0 {
        lemma_first_space(s.drop_first(), k - 1);
    }
}

/// Whether the section `chars[a..b]` is the note on warnings, as [`is_warning_note`] says.
fn is_note_section(chars: &Vec<char>, a: usize, b: usize) -> (r: bool)
    requires
        a <= b <= chars@.len(),
    ensures
        r == is_warning_note(chars@.subrange(a as int, b as int)),
{
    let (ta, tb) = trim_range(chars, a, b);
    let note = str_chars("Note: There");
    proof { reveal_strlit("Note: There"); }
    let ghost t = trimmed(chars@.subrange(a as int, b as int));
    assert(t == chars@.subrange(ta as int, tb as int));
    if tb - ta < 11 {
        return false;
    }
    let mut k: usize = 0;
    while k < 11
        invariant
            ta + 11 <= tb <= chars@.len(),
            t == chars@.subrange(ta as int, tb as int),
            a <= b <= chars@.len(),
            t == trimmed(chars@.subrange(a as int, b as int)),
            note@ == "Note: There"@,
            note@.len() == 11,
            k <= 11,
            forall|m: int| 0 <= m < k ==> chars@[ta + m] == note@[m],
        decreases 11 - k,
    {
        if chars[ta + k] != note[k] {
            assert(t.subrange(0, 11)[k as int] == chars@[ta + k]);
            assert(t.subrange(0, 11) != "Note: There"@);
            return false;
        }
        k += 1;
    }
    assert(t.subrange(0, 11) =~= "Note: There"@);
    true
}

/// The results of `count` properties in the model checker's output, as [`checking_results`]
/// says.
pub fn read_checking_output(output: &str, count: usize) -> (r: Result<Vec<CheckingResult>, CheckingError>)
    requires
        count < usize::MAX,
    ensures
        match checking_results(output@, count as nat) {
            Ok(v) => r matches Ok(x) && checking_views(x@) == v,
            Err(e) => r == Err::<Vec<CheckingResult>, CheckingError>(e),
        },
{
    let chars = str_chars(output);
    let mut sep: Vec<char> = Vec::new();
    let mut d: usize = 0;
    while d < 69
        invariant
            d <= 69,
            sep@ == Seq::new(d as nat, |i: int| '-'),
        decreases 69 - d,
    {
        sep.push('-');
        assert(sep@ =~= Seq::new((d + 1) as nat, |i: int| '-'));
        d += 1;
    }
    let pieces = split_sections(&chars, &sep);
    let ghost all = split_str(output@, section_separator());
    assert(sep@ =~= section_separator());
    let mut n = pieces.len();
    if n > 0 {
        let (a, b) = pieces[n - 1];
        assert(chars@.subrange(a as int, b as int) == all.last());
        if is_note_section(&chars, a, b) {
            n = n - 1;
        }
    }
    let ghost sections = if all.len() > 0 && is_warning_note(all.last()) { all.drop_last() } else { all };
    assert(n == sections.len());
    if n != count + 1 {
        return Err(CheckingError::SectionCount { expected: count + 1, found: n });
    }
    let mut results: Vec<CheckingResult> = Vec::new();
    let mut k: usize = 0;
    assert(checking_views(results@) =~= Seq::<CheckingView>::empty());
    assert(checking_results(output@, count as nat) == results_of_sections(sections, 1, count as nat));
    while k < count
        invariant
            checking_results(output@, count as nat) == results_of_sections(sections, 1, count as nat),
            n == count + 1,
            count < usize::MAX,
            n <= pieces@.len(),
            pieces@.len() == all.len(),
            sections.len() == n,
            forall|j: int| 0 <= j < sections.len() ==> #[trigger] sections[j] == all[j],
            forall|j: int| 0 <= j < pieces@.len() ==> (#[trigger] pieces@[j]).0 <= pieces@[j].1 <= chars@.len()
                && chars@.subrange(pieces@[j].0 as int, pieces@[j].1 as int) == all[j],
            k <= count,
            results_of_sections(sections, 1, k as nat) == Ok::<Seq<CheckingView>, CheckingError>(checking_views(results@)),
        decreases count - k,
    {
        let (a, b) = pieces[k + 1];
        assert(sections[k + 1] == all[k + 1]);
        let ghost before = results@;
        match result_in_section(&chars, a, b) {
            Some(x) => {
                let ghost xv = checking_views(seq![x])[0];
                results.push(x);
                assert(checking_views(results@) =~= checking_views(before).push(xv));
            },
            None => {
                proof {
                    assert(results_of_sections(sections, 1, (k + 1) as nat)
                        == Err::<Seq<CheckingView>, CheckingError>(CheckingError::MissingResult { section: (k + 1) as usize }));
                    lemma_results_err(sections, 1, count as nat, (k + 1) as nat);
                }
                return Err(CheckingError::MissingResult { section: k + 1 });
            },
        }
        k += 1;
    }
    Ok(results)
}

} // verus!

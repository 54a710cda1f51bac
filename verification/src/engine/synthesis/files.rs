//! The texts exchanged with `prism-games`: the game and its properties, its verdict, the
//! states it lists and the strategy it exports.
use vstd::prelude::*;
use crate::engine::synthesis::domains::Literal;
use crate::prism::results::{find_char, first_index};
use crate::text::{
    append_decimal, append_str, str_eq_string, decimal, find_from, line_ranges, lines_of, occurs_at, parse_i64, parse_usize,
    parsed_i64, parsed_usize, split_on, split_ranges, str_chars, string_from, string_of,
    trim_range, trimmed,
};

verus! {

/// The parts joined with `sep` between each two.
pub open spec fn joined(parts: Seq<Seq<char>>, sep: Seq<char>) -> Seq<char>
    decreases parts.len(),
{
    if parts.len() == 0 {
        Seq::empty()
    } else if parts.len() == 1 {
        parts[0]
    } else {
        joined(parts.drop_last(), sep) + sep + parts.last()
    }
}

/// Appends the strings joined with `sep`, as [`joined`] says.
pub fn append_joined(out: &mut Vec<char>, parts: &Vec<String>, sep: &str)
    ensures
        final(out)@ == old(out)@ + joined(parts@.map_values(|s: String| s@), sep@),
{
    let ghost pv = parts@.map_values(|s: String| s@);
    let mut i: usize = 0;
    while i < parts.len()
        invariant
            i <= parts@.len(),
            pv == parts@.map_values(|s: String| s@),
            out@ == old(out)@ + joined(pv.subrange(0, i as int), sep@),
        decreases parts.len() - i,
    {
        if i > 0 {
            append_str(out, sep);
        }
        append_str(out, parts[i].as_str());
        proof {
            let next = pv.subrange(0, i + 1);
            assert(next.drop_last() =~= pv.subrange(0, i as int));
            assert(next.last() == parts@[i as int]@);
            if i == 0 {
                assert(joined(pv.subrange(0, 0), sep@) =~= Seq::<char>::empty());
            }
        }
        i += 1;
    }
    assert(pv.subrange(0, parts@.len() as int) =~= pv);
}

/// The first place where `needle` occurs in `s`.
pub open spec fn first_occurrence_at(s: Seq<char>, needle: Seq<char>, i: int) -> bool {
    occurs_at(s, needle, i) && forall|j: int| 0 <= j < i ==> !occurs_at(s, needle, j)
}

/// `s` with its first `from` replaced by `to`, as `str::replacen(from, to, 1)` does.
pub open spec fn first_replaced(s: Seq<char>, from: Seq<char>, to: Seq<char>) -> Seq<char> {
    if exists|i: int| first_occurrence_at(s, from, i) {
        let i = choose|i: int| first_occurrence_at(s, from, i);
        s.subrange(0, i) + to + s.subrange(i + from.len(), s.len() as int)
    } else {
        s
    }
}

/// The text of the game: the printed model with its first `mdp` turned into `smg`, then the
/// two players with their actions and modules.
pub open spec fn game_text(printed: Seq<char>, repair: Seq<Seq<char>>, environment: Seq<Seq<char>>) -> Seq<char> {
    first_replaced(printed, "mdp"@, "smg"@) + "\n\nplayer Repair\n    "@ + joined(repair, ", "@)
        + "\nendplayer\n\nplayer Environment\n    "@ + joined(environment, ", "@) + "\nendplayer"@
}

/// The text of the game as [`game_text`] says, from the printed game model and the lists of
/// the two players.
pub fn game_source(printed: &str, repair: &Vec<String>, environment: &Vec<String>) -> (r: String)
    ensures
        r@ == game_text(printed@, repair@.map_values(|s: String| s@), environment@.map_values(|s: String| s@)),
{
    let chars = str_chars(printed);
    let needle = str_chars("mdp");
    let mut out: Vec<char> = Vec::new();
    match find_from(&chars, &needle, 0, chars.len()) {
        Some(i) => {
            proof {
                assert(chars@.subrange(0, chars@.len() as int) =~= chars@);
                assert(first_occurrence_at(printed@, "mdp"@, i as int));
                assert forall|j: int| #![auto] first_occurrence_at(printed@, "mdp"@, j) implies j == i by {
                    if j < i {
                        assert(!occurs_at(printed@, "mdp"@, j));
                    } else if j > i {
                        assert(!occurs_at(printed@, "mdp"@, i as int));
                    }
                }
            }
            let mut k: usize = 0;
            while k < i
                invariant
                    k <= i,
                    i + needle@.len() <= chars@.len(),
                    out@ == chars@.subrange(0, k as int),
                decreases i - k,
            {
                out.push(chars[k]);
                assert(out@ =~= chars@.subrange(0, k + 1));
                k += 1;
            }
            append_str(&mut out, "smg");
            let mut k2: usize = i + needle.len();
            let ghost mid = out@;
            while k2 < chars.len()
                invariant
                    i + needle@.len() <= k2 <= chars@.len(),
                    out@ == mid + chars@.subrange(i + needle@.len(), k2 as int),
                decreases chars.len() - k2,
            {
                out.push(chars[k2]);
                assert(out@ =~= mid + chars@.subrange(i + needle@.len(), k2 + 1));
                k2 += 1;
            }
            assert(out@ =~= first_replaced(printed@, "mdp"@, "smg"@));
        },
        None => {
            proof {
                assert(chars@.subrange(0, chars@.len() as int) =~= chars@);
                assert(!exists|i: int| first_occurrence_at(printed@, "mdp"@, i));
            }
            let mut k: usize = 0;
            while k < chars.len()
                invariant
                    k <= chars@.len(),
                    out@ == chars@.subrange(0, k as int),
                decreases chars.len() - k,
            {
                out.push(chars[k]);
                assert(out@ =~= chars@.subrange(0, k + 1));
                k += 1;
            }
            assert(out@ =~= first_replaced(printed@, "mdp"@, "smg"@));
        },
    }
    append_str(&mut out, "\n\nplayer Repair\n    ");
    append_joined(&mut out, repair, ", ");
    append_str(&mut out, "\nendplayer\n\nplayer Environment\n    ");
    append_joined(&mut out, environment, ", ");
    append_str(&mut out, "\nendplayer");
    assert(out@ =~= game_text(printed@, repair@.map_values(|s: String| s@), environment@.map_values(|s: String| s@)));
    string_from(&out)
}

/// The properties of the game: each property text after `<<Repair>> `, separated by `;` and a
/// line feed.
pub open spec fn properties_text(properties: Seq<Seq<char>>) -> Seq<char> {
    joined(properties.map_values(|p: Seq<char>| "<<Repair>> "@ + p), ";\n"@)
}

/// The properties of the game as [`properties_text`] says.
pub fn game_properties(properties: &Vec<String>) -> (r: String)
    ensures
        r@ == properties_text(properties@.map_values(|s: String| s@)),
{
    let mut prefixed: Vec<String> = Vec::new();
    let mut i: usize = 0;
    while i < properties.len()
        invariant
            i <= properties@.len(),
            prefixed@.map_values(|s: String| s@)
                == properties@.map_values(|s: String| s@).subrange(0, i as int).map_values(|p: Seq<char>| "<<Repair>> "@ + p),
        decreases properties.len() - i,
    {
        let mut text: Vec<char> = Vec::new();
        append_str(&mut text, "<<Repair>> ");
        append_str(&mut text, properties[i].as_str());
        let ghost f = |p: Seq<char>| "<<Repair>> "@ + p;
        let ghost pv = properties@.map_values(|s: String| s@);
        let ghost before = prefixed@.map_values(|s: String| s@);
        let t = string_from(&text);
        assert(t@ == f(pv[i as int]));
        prefixed.push(t);
        assert(prefixed@.map_values(|s: String| s@) =~= before.push(t@));
        assert(pv.subrange(0, i + 1).map_values(f) =~= pv.subrange(0, i as int).map_values(f).push(f(pv[i as int])));
        assert(prefixed@.map_values(|s: String| s@)
            =~= properties@.map_values(|s: String| s@).subrange(0, i + 1).map_values(|p: Seq<char>| "<<Repair>> "@ + p));
        i += 1;
    }
    assert(properties@.map_values(|s: String| s@).subrange(0, properties@.len() as int) =~= properties@.map_values(|s: String| s@));
    let mut out: Vec<char> = Vec::new();
    append_joined(&mut out, &prefixed, ";\n");
    assert(out@ =~= properties_text(properties@.map_values(|s: String| s@)));
    string_from(&out)
}

/// Whether `needle` occurs in `s`.
pub open spec fn contains_text(s: Seq<char>, needle: Seq<char>) -> bool {
    exists|i: int| occurs_at(s, needle, i)
}

/// What `prism-games` printed does not settle the question.
#[derive(Clone, Copy, PartialEq, Eq, Structural, Debug)]
pub struct Inconclusive {
    pub was_true: bool,
    pub was_false: bool,
}

/// Whether `prism-games` found a winning strategy: its output holds exactly one of
/// `Result: true` and `Result: false`.
pub fn synthesis_verdict(stdout: &str) -> (r: Result<bool, Inconclusive>)
    ensures
        ({
            let t = contains_text(stdout@, "Result: true"@);
            let f = contains_text(stdout@, "Result: false"@);
            if t != f { r == Ok::<bool, Inconclusive>(t) } else { r == Err::<bool, Inconclusive>(Inconclusive { was_true: t, was_false: f }) }
        }),
{
    let chars = str_chars(stdout);
    let yes = str_chars("Result: true");
    let no = str_chars("Result: false");
    proof { assert(chars@.subrange(0, chars@.len() as int) =~= chars@); }
    let was_true = match find_from(&chars, &yes, 0, chars.len()) {
        Some(_) => true,
        None => false,
    };
    let was_false = match find_from(&chars, &no, 0, chars.len()) {
        Some(_) => true,
        None => false,
    };
    assert(was_true == contains_text(stdout@, "Result: true"@));
    assert(was_false == contains_text(stdout@, "Result: false"@));
    if was_true != was_false {
        Ok(was_true)
    } else {
        Err(Inconclusive { was_true, was_false })
    }
}

/// Why a file that `prism-games` wrote cannot be read. Lines are counted from 0.
#[derive(Clone, Copy, PartialEq, Eq, Structural, Debug)]
pub enum FileError {
    /// The states file has no line.
    Empty,
    /// The first line of the states file is not `(<names>)`.
    MalformedHeader,
    /// The line has no `:`.
    MissingColon { line: usize },
    /// The line does not start with the number of the states before it.
    WrongIndex { line: usize },
    /// The values of the line are not `(<values>)`.
    MalformedValues { line: usize },
    /// A value of the line is neither `true`, `false` nor an integer.
    NotAValue { line: usize },
    /// The line has fewer than three components.
    MissingComponent { line: usize },
    /// A state number of the line is not a number.
    NotAnIndex { line: usize },
    /// The probability of the line is not a number.
    NotAProbability { line: usize },
}

/// The text without its first and last characters, where it has two.
pub open spec fn inner(s: Seq<char>) -> Option<Seq<char>> {
    if s.len() >= 2 { Some(s.subrange(1, s.len() - 1)) } else { None }
}

/// The value that a states file writes as this text.
pub open spec fn value_of_text(t: Seq<char>) -> Option<Literal> {
    if t == "true"@ {
        Some(Literal::Bool(true))
    } else if t == "false"@ {
        Some(Literal::Bool(false))
    } else {
        match parsed_i64(t) {
            Some(v) => Some(Literal::Int(v)),
            None => None,
        }
    }
}

/// The first `n` names paired with the values of the first `n` texts.
pub open spec fn zipped(names: Seq<Seq<char>>, parts: Seq<Seq<char>>, line: nat, n: nat)
    -> Result<Seq<(Seq<char>, Literal)>, FileError>
    decreases n,
{
    if n == 0 || n > names.len() || n > parts.len() {
        Ok(Seq::empty())
    } else {
        match zipped(names, parts, line, (n - 1) as nat) {
            Err(e) => Err(e),
            Ok(acc) => match value_of_text(parts[n - 1]) {
                None => Err(FileError::NotAValue { line: line as usize }),
                Some(v) => Ok(acc.push((names[n - 1], v))),
            },
        }
    }
}

pub open spec fn min_len(a: nat, b: nat) -> nat {
    if a <= b { a } else { b }
}

/// The state that line number `index + 1` lists: `<index>:(<values>)`.
pub open spec fn state_of(names: Seq<Seq<char>>, line: Seq<char>, index: nat) -> Result<Seq<(Seq<char>, Literal)>, FileError> {
    match first_index(line, ':') {
        None => Err(FileError::MissingColon { line: (index + 1) as usize }),
        Some(p) => if line.subrange(0, p) != decimal(index) {
            Err(FileError::WrongIndex { line: (index + 1) as usize })
        } else {
            match inner(line.subrange(p + 1, line.len() as int)) {
                None => Err(FileError::MalformedValues { line: (index + 1) as usize }),
                Some(vs) => {
                    let parts = split_on(vs, ',');
                    zipped(names, parts, index + 1, min_len(names.len(), parts.len()))
                },
            }
        },
    }
}

/// The states listed by the lines before line `n`.
pub open spec fn states_from(names: Seq<Seq<char>>, lines: Seq<Seq<char>>, n: nat)
    -> Result<Seq<Seq<(Seq<char>, Literal)>>, FileError>
    decreases n,
{
    if n <= 1 || n > lines.len() {
        Ok(Seq::empty())
    } else {
        match states_from(names, lines, (n - 1) as nat) {
            Err(e) => Err(e),
            Ok(acc) => match state_of(names, lines[n - 1], (n - 2) as nat) {
                Err(e) => Err(e),
                Ok(st) => Ok(acc.push(st)),
            },
        }
    }
}

/// The names of the header `(<names>)` of a states file.
pub open spec fn header_names(lines: Seq<Seq<char>>) -> Result<Seq<Seq<char>>, FileError> {
    if lines.len() == 0 {
        Err(FileError::Empty)
    } else {
        match inner(trimmed(lines[0])) {
            None => Err(FileError::MalformedHeader),
            Some(h) => Ok(split_on(h, ',')),
        }
    }
}

/// The states of a states file, each as the list of its variables with their values.
pub open spec fn sta_states(text: Seq<char>) -> Result<Seq<Seq<(Seq<char>, Literal)>>, FileError> {
    let lines = lines_of(text);
    match header_names(lines) {
        Err(e) => Err(e),
        Ok(names) => states_from(names, lines, lines.len()),
    }
}

/// The value that the last binding of the name gives.
pub open spec fn lookup(vars: Seq<(Seq<char>, Literal)>, name: Seq<char>) -> Option<Literal>
    decreases vars.len(),
{
    if vars.len() == 0 {
        None
    } else if vars.last().0 == name {
        Some(vars.last().1)
    } else {
        lookup(vars.drop_last(), name)
    }
}

/// A state of the game: its variables with their values.
pub struct StateEntry {
    pub variables: Vec<(String, Literal)>,
}

impl View for StateEntry {
    type V = Seq<(Seq<char>, Literal)>;

    open spec fn view(&self) -> Seq<(Seq<char>, Literal)> {
        self.variables@.map_values(|p: (String, Literal)| (p.0@, p.1))
    }
}

impl StateEntry {
    /// The value of the variable, as [`lookup`] says.
    pub fn get(&self, name: &str) -> (r: Option<Literal>)
        ensures
            r == lookup(self@, name@),
    {
        let mut i = self.variables.len();
        assert(self@.subrange(0, i as int) =~= self@);
        while i > 0
            invariant
                i <= self@.len(),
                lookup(self@, name@) == lookup(self@.subrange(0, i as int), name@),
            decreases i,
        {
            let ghost pre = self@.subrange(0, i as int);
            assert(pre.drop_last() =~= self@.subrange(0, i - 1));
            if str_eq_string(name, &self.variables[i - 1].0) {
                return Some(self.variables[i - 1].1);
            }
            i -= 1;
        }
        None
    }

    /// The integer value of the variable, if it has one.
    pub fn get_int(&self, name: &str) -> (r: Option<i64>)
        ensures
            r == (match lookup(self@, name@) {
                Some(Literal::Int(v)) => Some(v),
                _ => None::<i64>,
            }),
    {
        match self.get(name) {
            Some(Literal::Int(v)) => Some(v),
            _ => None,
        }
    }

    /// The Boolean value of the variable, if it has one.
    pub fn get_bool(&self, name: &str) -> (r: Option<bool>)
        ensures
            r == (match lookup(self@, name@) {
                Some(Literal::Bool(b)) => Some(b),
                _ => None::<bool>,
            }),
    {
        match self.get(name) {
            Some(Literal::Bool(b)) => Some(b),
            _ => None,
        }
    }
}

/// The states of the game as its states file lists them.
pub struct StateFile {
    pub states: Vec<StateEntry>,
}

/// Whether `chars[from..to]` is the text.
fn range_is(chars: &Vec<char>, from: usize, to: usize, text: &Vec<char>) -> (r: bool)
    requires
        from <= to <= chars@.len(),
    ensures
        r == (chars@.subrange(from as int, to as int) == text@),
{
    if to - from != text.len() {
        return false;
    }
    let mut k: usize = 0;
    while k < text.len()
        invariant
            to - from == text@.len(),
            from <= to <= chars@.len(),
            k <= text@.len(),
            forall|j: int| 0 <= j < k ==> chars@[from + j] == text@[j],
        decreases text.len() - k,
    {
        if chars[from + k] != text[k] {
            assert(chars@.subrange(from as int, to as int)[k as int] != text@[k as int]);
            return false;
        }
        k += 1;
    }
    assert(chars@.subrange(from as int, to as int) =~= text@);
    true
}

/// The value written in `chars[from..to]`, as [`value_of_text`] says.
fn value_in(chars: &Vec<char>, from: usize, to: usize) -> (r: Option<Literal>)
    requires
        from <= to <= chars@.len(),
    ensures
        r == value_of_text(chars@.subrange(from as int, to as int)),
{
    let t = str_chars("true");
    let f = str_chars("false");
    if range_is(chars, from, to, &t) {
        Some(Literal::Bool(true))
    } else if range_is(chars, from, to, &f) {
        Some(Literal::Bool(false))
    } else {
        match parse_i64(chars, from, to) {
            Some(v) => Some(Literal::Int(v)),
            None => None,
        }
    }
}

/// The state listed in `chars[from..to]`, the line after `index` states, as [`state_of`] says.
fn read_state(chars: &Vec<char>, from: usize, to: usize, names: &Vec<String>, index: usize) -> (r: Result<StateEntry, FileError>)
    requires
        from <= to <= chars@.len(),
        index + 1 <= usize::MAX,
    ensures
        match state_of(names@.map_values(|s: String| s@), chars@.subrange(from as int, to as int), index as nat) {
            Ok(st) => r matches Ok(e) && e@ == st,
            Err(err) => r == Err::<StateEntry, FileError>(err),
        },
{
    let ghost line = chars@.subrange(from as int, to as int);
    let ghost nv = names@.map_values(|s: String| s@);
    let p = match find_char(chars, from, to, ':') {
        Some(p) => p,
        None => return Err(FileError::MissingColon { line: index + 1 }),
    };
    let mut digits: Vec<char> = Vec::new();
    append_decimal(&mut digits, index as u64);
    assert(line.subrange(0, p - from) =~= chars@.subrange(from as int, p as int));
    if !range_is(chars, from, p, &digits) {
        return Err(FileError::WrongIndex { line: index + 1 });
    }
    assert(line.subrange(p - from + 1, line.len() as int) =~= chars@.subrange(p + 1, to as int));
    if to - (p + 1) < 2 {
        return Err(FileError::MalformedValues { line: index + 1 });
    }
    let a = p + 2;
    let b = to - 1;
    assert(chars@.subrange(p + 1, to as int).subrange(1, (to - p - 2) as int) =~= chars@.subrange(a as int, b as int));
    let parts = split_ranges(chars, a, b, ',');
    let ghost pv = split_on(chars@.subrange(a as int, b as int), ',');
    let count = if names.len() <= parts.len() { names.len() } else { parts.len() };
    let mut variables: Vec<(String, Literal)> = Vec::new();
    let mut k: usize = 0;
    assert(variables@.map_values(|q: (String, Literal)| (q.0@, q.1)) =~= Seq::<(Seq<char>, Literal)>::empty());
    assert(state_of(nv, line, index as nat) == zipped(nv, pv, (index + 1) as nat, count as nat));
    while k < count
        invariant
            k <= count,
            index + 1 <= usize::MAX,
            line == chars@.subrange(from as int, to as int),
            count <= nv.len(),
            count <= pv.len(),
            state_of(nv, line, index as nat) == zipped(nv, pv, (index + 1) as nat, count as nat),
            count == min_len(nv.len(), pv.len()),
            nv == names@.map_values(|s: String| s@),
            parts@.len() == pv.len(),
            b <= chars@.len(),
            forall|j: int| 0 <= j < parts@.len() ==> a <= (#[trigger] parts@[j]).0 <= parts@[j].1 <= b
                && chars@.subrange(parts@[j].0 as int, parts@[j].1 as int) == pv[j],
            zipped(nv, pv, (index + 1) as nat, k as nat) == Ok::<Seq<(Seq<char>, Literal)>, FileError>(
                variables@.map_values(|q: (String, Literal)| (q.0@, q.1))),
        decreases count - k,
    {
        let (x, y) = parts[k];
        match value_in(chars, x, y) {
            Some(v) => {
                let ghost before = variables@.map_values(|q: (String, Literal)| (q.0@, q.1));
                variables.push((names[k].clone(), v));
                assert(variables@.map_values(|q: (String, Literal)| (q.0@, q.1)) =~= before.push((nv[k as int], v)));
            },
            None => {
                assert(chars@.subrange(x as int, y as int) == pv[k as int]);
                proof { lemma_zipped_stays(nv, pv, (index + 1) as nat, (k + 1) as nat, count as nat); }
                return Err(FileError::NotAValue { line: index + 1 });
            },
        }
        k += 1;
    }
    Ok(StateEntry { variables })
}

proof fn lemma_zipped_stays(names: Seq<Seq<char>>, parts: Seq<Seq<char>>, line: nat, i: nat, n: nat)
    requires
        i <= n <= names.len(),
        n <= parts.len(),
        zipped(names, parts, line, i) is Err,
    ensures
        zipped(names, parts, line, n) == zipped(names, parts, line, i),
    decreases n - i,
{
    if i < n {
        lemma_zipped_stays(names, parts, line, i, (n - 1) as nat);
    }
}

impl StateFile {
    /// Reads a states file, as [`sta_states`] says.
    pub fn from_sta(source: &str) -> (r: Result<StateFile, FileError>)
        ensures
            match sta_states(source@) {
                Ok(states) => r matches Ok(f) && f.states@.map_values(|e: StateEntry| e@) == states,
                Err(e) => r == Err::<StateFile, FileError>(e),
            },
    {
        let chars = str_chars(source);
        let ghost text = chars@;
        assert(text.subrange(0, text.len() as int) =~= text);
        let ranges = line_ranges(&chars, 0, chars.len());
        let ghost lines = lines_of(text);
        if ranges.len() == 0 {
            return Err(FileError::Empty);
        }
        let (h0, h1) = ranges[0];
        let (t0, t1) = trim_range(&chars, h0, h1);
        if t1 - t0 < 2 {
            return Err(FileError::MalformedHeader);
        }
        assert(chars@.subrange(t0 as int, t1 as int).subrange(1, (t1 - t0 - 1) as int) =~= chars@.subrange(t0 + 1, t1 - 1));
        let name_ranges = split_ranges(&chars, t0 + 1, t1 - 1, ',');
        let ghost nv = split_on(chars@.subrange(t0 + 1, t1 - 1), ',');
        let mut names: Vec<String> = Vec::new();
        let mut k: usize = 0;
        while k < name_ranges.len()
            invariant
                k <= name_ranges@.len(),
                name_ranges@.len() == nv.len(),
                t1 <= chars@.len(),
                forall|j: int| 0 <= j < name_ranges@.len() ==> t0 + 1 <= (#[trigger] name_ranges@[j]).0 <= name_ranges@[j].1 <= t1 - 1
                    && chars@.subrange(name_ranges@[j].0 as int, name_ranges@[j].1 as int) == nv[j],
                names@.map_values(|s: String| s@) == nv.subrange(0, k as int),
            decreases name_ranges.len() - k,
        {
            let (x, y) = name_ranges[k];
            let ghost before = names@.map_values(|s: String| s@);
            names.push(string_of(&chars, x, y));
            assert(names@.map_values(|s: String| s@) =~= before.push(nv[k as int]));
            assert(nv.subrange(0, k + 1) =~= nv.subrange(0, k as int).push(nv[k as int]));
            k += 1;
        }
        assert(nv.subrange(0, nv.len() as int) =~= nv);
        assert(header_names(lines) == Ok::<Seq<Seq<char>>, FileError>(nv));
        let mut states: Vec<StateEntry> = Vec::new();
        let mut l: usize = 1;
        assert(states@.map_values(|e: StateEntry| e@) =~= Seq::<Seq<(Seq<char>, Literal)>>::empty());
        assert(sta_states(source@) == states_from(nv, lines, lines.len()));
        while l < ranges.len()
            invariant
                sta_states(source@) == states_from(nv, lines, lines.len()),
                1 <= l <= ranges@.len(),
                ranges@.len() == lines.len(),
                lines == lines_of(text),
                text == chars@,
                forall|j: int| 0 <= j < ranges@.len() ==> 0 <= (#[trigger] ranges@[j]).0 <= ranges@[j].1 <= chars@.len()
                    && chars@.subrange(ranges@[j].0 as int, ranges@[j].1 as int) == lines[j],
                names@.map_values(|s: String| s@) == nv,
                states_from(nv, lines, l as nat) == Ok::<Seq<Seq<(Seq<char>, Literal)>>, FileError>(
                    states@.map_values(|e: StateEntry| e@)),
            decreases ranges.len() - l,
        {
            let (x, y) = ranges[l];
            match read_state(&chars, x, y, &names, l - 1) {
                Ok(e) => {
                    let ghost before = states@.map_values(|e: StateEntry| e@);
                    states.push(e);
                    assert(states@.map_values(|e: StateEntry| e@) =~= before.push(e@));
                },
                Err(err) => {
                    proof { lemma_states_from_stays(nv, lines, (l + 1) as nat, lines.len()); }
                    return Err(err);
                },
            }
            l += 1;
        }
        Ok(StateFile { states })
    }
}

proof fn lemma_states_from_stays(names: Seq<Seq<char>>, lines: Seq<Seq<char>>, i: nat, n: nat)
    requires
        i <= n <= lines.len(),
        states_from(names, lines, i) is Err,
    ensures
        states_from(names, lines, n) == states_from(names, lines, i),
    decreases n - i,
{
    if i < n {
        lemma_states_from_stays(names, lines, i, (n - 1) as nat);
    }
}

/// A transition of the strategy-induced game: from a state to a state, with the text of its
/// probability and the action it takes, if the line names one.
pub struct InducedGameEntry {
    pub from: usize,
    pub to: usize,
    pub probability: String,
    pub action_name: Option<String>,
}

impl View for InducedGameEntry {
    type V = (usize, usize, Seq<char>, Option<Seq<char>>);

    open spec fn view(&self) -> (usize, usize, Seq<char>, Option<Seq<char>>) {
        (self.from, self.to, self.probability@, match self.action_name { Some(a) => Some(a@), None => None })
    }
}

/// The transitions of the game that the synthesised strategy induces.
pub struct InducedGame {
    pub entries: Vec<InducedGameEntry>,
}

/// The transition that line number `line_no` writes: `<from> <to> <probability> [<action>]`.
pub open spec fn strategy_entry(line: Seq<char>, line_no: nat) -> Result<(usize, usize, Seq<char>, Option<Seq<char>>), FileError> {
    let parts = split_on(line, ' ');
    match parsed_usize(parts[0]) {
        None => Err(FileError::NotAnIndex { line: line_no as usize }),
        Some(from) => if parts.len() < 2 {
            Err(FileError::MissingComponent { line: line_no as usize })
        } else {
            match parsed_usize(parts[1]) {
                None => Err(FileError::NotAnIndex { line: line_no as usize }),
                Some(to) => if parts.len() < 3 {
                    Err(FileError::MissingComponent { line: line_no as usize })
                } else {
                    Ok((from, to, parts[2], if parts.len() > 3 { Some(parts[3]) } else { None }))
                },
            }
        },
    }
}

/// The transitions written by the lines after the first and before line `n`.
pub open spec fn strategy_from(lines: Seq<Seq<char>>, n: nat)
    -> Result<Seq<(usize, usize, Seq<char>, Option<Seq<char>>)>, FileError>
    decreases n,
{
    if n <= 1 || n > lines.len() {
        Ok(Seq::empty())
    } else {
        match strategy_from(lines, (n - 1) as nat) {
            Err(e) => Err(e),
            Ok(acc) => match strategy_entry(lines[n - 1], (n - 1) as nat) {
                Err(e) => Err(e),
                Ok(t) => Ok(acc.push(t)),
            },
        }
    }
}

/// The transitions of a strategy file; its first line is skipped.
pub open spec fn strategy_entries(text: Seq<char>) -> Result<Seq<(usize, usize, Seq<char>, Option<Seq<char>>)>, FileError> {
    strategy_from(lines_of(text), lines_of(text).len())
}

/// The transition written in `chars[from..to]`, line number `line_no`.
fn read_transition(chars: &Vec<char>, from: usize, to: usize, line_no: usize) -> (r: Result<InducedGameEntry, FileError>)
    requires
        from <= to <= chars@.len(),
    ensures
        match strategy_entry(chars@.subrange(from as int, to as int), line_no as nat) {
            Ok(t) => r matches Ok(e) && e@ == t,
            Err(err) => r == Err::<InducedGameEntry, FileError>(err),
        },
{
    let parts = split_ranges(chars, from, to, ' ');
    let ghost pv = split_on(chars@.subrange(from as int, to as int), ' ');
    proof { crate::text::lemma_split_on_len(chars@.subrange(from as int, to as int), ' '); }
    let (a0, b0) = parts[0];
    let source = match parse_usize(chars, a0, b0) {
        Some(v) => v,
        None => return Err(FileError::NotAnIndex { line: line_no }),
    };
    if parts.len() < 2 {
        return Err(FileError::MissingComponent { line: line_no });
    }
    let (a1, b1) = parts[1];
    let target = match parse_usize(chars, a1, b1) {
        Some(v) => v,
        None => return Err(FileError::NotAnIndex { line: line_no }),
    };
    if parts.len() < 3 {
        return Err(FileError::MissingComponent { line: line_no });
    }
    let (a2, b2) = parts[2];
    let probability = string_of(chars, a2, b2);
    let action_name = if parts.len() > 3 {
        let (a3, b3) = parts[3];
        Some(string_of(chars, a3, b3))
    } else {
        None
    };
    Ok(InducedGameEntry { from: source, to: target, probability, action_name })
}

impl InducedGame {
    /// Reads a strategy file, as [`strategy_entries`] says.
    pub fn from_strat(source: &str) -> (r: Result<InducedGame, FileError>)
        ensures
            match strategy_entries(source@) {
                Ok(ts) => r matches Ok(g) && g.entries@.map_values(|e: InducedGameEntry| e@) == ts,
                Err(e) => r == Err::<InducedGame, FileError>(e),
            },
    {
        let chars = str_chars(source);
        assert(chars@.subrange(0, chars@.len() as int) =~= chars@);
        let ranges = line_ranges(&chars, 0, chars.len());
        let ghost lines = lines_of(source@);
        let mut entries: Vec<InducedGameEntry> = Vec::new();
        let mut l: usize = 1;
        assert(entries@.map_values(|e: InducedGameEntry| e@) =~= Seq::<(usize, usize, Seq<char>, Option<Seq<char>>)>::empty());
        while l < ranges.len()
            invariant
                1 <= l,
                l <= ranges@.len() || ranges@.len() == 0,
                ranges@.len() == lines.len(),
                lines == lines_of(source@),
                forall|j: int| 0 <= j < ranges@.len() ==> 0 <= (#[trigger] ranges@[j]).0 <= ranges@[j].1 <= chars@.len()
                    && chars@.subrange(ranges@[j].0 as int, ranges@[j].1 as int) == lines[j],
                strategy_from(lines, l as nat) == Ok::<Seq<(usize, usize, Seq<char>, Option<Seq<char>>)>, FileError>(
                    entries@.map_values(|e: InducedGameEntry| e@)),
            decreases ranges.len() - l,
        {
            let (x, y) = ranges[l];
            match read_transition(&chars, x, y, l) {
                Ok(e) => {
                    let ghost before = entries@.map_values(|e: InducedGameEntry| e@);
                    entries.push(e);
                    assert(entries@.map_values(|e: InducedGameEntry| e@) =~= before.push(e@));
                },
                Err(err) => {
                    proof { lemma_strategy_from_stays(lines, (l + 1) as nat, lines.len()); }
                    return Err(err);
                },
            }
            l += 1;
        }
        Ok(InducedGame { entries })
    }
}

proof fn lemma_strategy_from_stays(lines: Seq<Seq<char>>, i: nat, n: nat)
    requires
        i <= n <= lines.len(),
        strategy_from(lines, i) is Err,
    ensures
        strategy_from(lines, n) == strategy_from(lines, i),
    decreases n - i,
{
    if i < n {
        lemma_strategy_from_stays(lines, i, (n - 1) as nat);
    }
}

} // verus!

//! The HTML report of the repairs: the model source with the repaired places marked, one tab
//! per repair.
use vstd::prelude::*;
use crate::engine::synthesis::files::{first_occurrence_at, joined};
use crate::engine::synthesis::game::string_views;
use crate::prism::expression::Span;
use crate::text::{
    append_chars, append_decimal, append_str, decimal, find_from, line_ranges, lines_of,
    occurs_at, str_chars, string_from,
};

verus! {

/// How a marked place of the source is shown.
#[derive(Clone, Copy, PartialEq, Eq, Structural, Debug)]
pub enum RepairKind {
    /// A place that a repair changed.
    Fix,
    /// A place left as it was.
    Unchanged,
    /// A place that is to be repaired.
    ToRepair,
}

/// A place of the source (by character positions) and the text shown there.
pub struct RepairedSpan {
    pub section: Span,
    pub replace_by: String,
    pub kind: RepairKind,
}

impl RepairedSpan {
    pub fn new(section: Span, replace_by: String, kind: RepairKind) -> (r: Self)
        ensures
            r.section == section,
            r.replace_by@ == replace_by@,
            r.kind == kind,
    {
        RepairedSpan { section, replace_by, kind }
    }
}

impl View for RepairedSpan {
    type V = (Span, Seq<char>, RepairKind);

    open spec fn view(&self) -> (Span, Seq<char>, RepairKind) {
        (self.section, self.replace_by@, self.kind)
    }
}

/// The title of a tab: the unrepaired model, or a repair with its cost already written out.
pub enum RepairTitle {
    Base,
    Repair { cost_text: String },
}

/// The marked places of one tab and its title.
pub struct Repair {
    pub spans: Vec<RepairedSpan>,
    pub title: RepairTitle,
}

impl Repair {
    /// The tab of the unrepaired model.
    pub fn new_base() -> (r: Self)
        ensures
            r.spans@.len() == 0,
            r.title is Base,
    {
        Repair { spans: Vec::new(), title: RepairTitle::Base }
    }

    /// The tab of a repair whose cost is written as `cost_text`.
    pub fn new_repair(cost_text: String) -> (r: Self)
        ensures
            r.spans@.len() == 0,
            r.title matches RepairTitle::Repair { cost_text: t } && t@ == cost_text@,
    {
        Repair { spans: Vec::new(), title: RepairTitle::Repair { cost_text } }
    }

    /// Marks one more place.
    pub fn add_span(&mut self, span: RepairedSpan)
        ensures
            final(self).spans@ == old(self).spans@.push(span),
            final(self).title == old(self).title,
    {
        self.spans.push(span);
    }
}

/// The source of a model and the tabs of the report.
pub struct RepairOutput {
    pub base_source_code: String,
    pub repairs: Vec<Repair>,
}

/// The text of a source line as a paragraph: each space outside a tag as `&nbsp;` (a tag runs
/// from `<` to `>`), for the first `n` characters; with whether a tag is open after them.
pub open spec fn spaced(line: Seq<char>, n: nat) -> (Seq<char>, bool)
    decreases n,
{
    if n == 0 || n > line.len() {
        (Seq::empty(), false)
    } else {
        let (before, open) = spaced(line, (n - 1) as nat);
        let c = line[n - 1];
        let inside = if c == '<' { true } else if c == '>' { false } else { open };
        (before + if c == ' ' && !inside { "&nbsp;"@ } else { seq![c] }, inside)
    }
}

/// A source line as HTML: `<p>` and `</p>` around its spaced text, `&nbsp;` for an empty line.
pub open spec fn paragraph(line: Seq<char>) -> Seq<char> {
    let text = spaced(line, line.len()).0;
    "<p>"@ + (if text.len() == 0 { "&nbsp;"@ } else { text }) + "</p>"@
}

/// The source as HTML: one paragraph per line, separated by line feeds.
pub open spec fn code_html(code: Seq<char>) -> Seq<char> {
    joined(lines_of(code).map_values(|l: Seq<char>| paragraph(l)), "\n"@)
}

/// A line as a paragraph, as [`paragraph`] says.
fn paragraph_of(chars: &Vec<char>, from: usize, to: usize) -> (r: Vec<char>)
    requires
        from <= to <= chars@.len(),
    ensures
        r@ == paragraph(chars@.subrange(from as int, to as int)),
{
    let ghost line = chars@.subrange(from as int, to as int);
    let mut text: Vec<char> = Vec::new();
    let mut inside = false;
    let mut i = from;
    while i < to
        invariant
            from <= i <= to <= chars@.len(),
            line == chars@.subrange(from as int, to as int),
            (text@, inside) == spaced(line, (i - from) as nat),
        decreases to - i,
    {
        let c = chars[i];
        assert(c == line[(i - from) as int]);
        if c == '<' {
            inside = true;
        } else if c == '>' {
            inside = false;
        }
        if c == ' ' && !inside {
            append_str(&mut text, "&nbsp;");
        } else {
            text.push(c);
        }
        i += 1;
    }
    let mut out: Vec<char> = Vec::new();
    append_str(&mut out, "<p>");
    if text.len() == 0 {
        append_str(&mut out, "&nbsp;");
    } else {
        append_chars(&mut out, &text);
    }
    append_str(&mut out, "</p>");
    out
}

/// The source as HTML, as [`code_html`] says.
pub fn code_to_html(code: &str) -> (r: String)
    ensures
        r@ == code_html(code@),
{
    let chars = str_chars(code);
    assert(chars@.subrange(0, chars@.len() as int) =~= chars@);
    let ranges = line_ranges(&chars, 0, chars.len());
    let ghost lines = lines_of(code@);
    let ghost ps = lines.map_values(|l: Seq<char>| paragraph(l));
    let mut out: Vec<char> = Vec::new();
    let mut k: usize = 0;
    while k < ranges.len()
        invariant
            k <= ranges@.len(),
            ranges@.len() == lines.len(),
            lines == lines_of(code@),
            ps == lines.map_values(|l: Seq<char>| paragraph(l)),
            forall|j: int| 0 <= j < ranges@.len() ==> 0 <= (#[trigger] ranges@[j]).0 <= ranges@[j].1 <= chars@.len()
                && chars@.subrange(ranges@[j].0 as int, ranges@[j].1 as int) == lines[j],
            out@ == joined(ps.subrange(0, k as int), "\n"@),
        decreases ranges.len() - k,
    {
        let (x, y) = ranges[k];
        if k > 0 {
            append_str(&mut out, "\n");
        }
        let p = paragraph_of(&chars, x, y);
        append_chars(&mut out, &p);
        proof {
            let next = ps.subrange(0, k + 1);
            assert(next.drop_last() =~= ps.subrange(0, k as int));
            assert(next.last() == paragraph(lines[k as int]));
            if k == 0 {
                assert(joined(ps.subrange(0, 0), "\n"@) =~= Seq::<char>::empty());
            }
        }
        k += 1;
    }
    assert(ps.subrange(0, ps.len() as int) =~= ps);
    string_from(&out)
}

/// The source with `<` and `>` set aside as `\` and `~`, so that marking does not move them.
pub open spec fn masked(s: Seq<char>) -> Seq<char> {
    s.map_values(|c: char| if c == '<' { '\\' } else if c == '>' { '~' } else { c })
}

/// The text with every `\` written as `&lt;` and every `~` as `&gt;`.
pub open spec fn unmasked(s: Seq<char>) -> Seq<char>
    decreases s.len(),
{
    if s.len() == 0 {
        Seq::empty()
    } else {
        unmasked(s.drop_last()) + if s.last() == '\\' {
            "&lt;"@
        } else if s.last() == '~' {
            "&gt;"@
        } else {
            seq![s.last()]
        }
    }
}

/// Whether no character of `s` is an angle bracket.
pub open spec fn no_angle_brackets(s: Seq<char>) -> bool {
    forall|i: int| 0 <= i < s.len() ==> #[trigger] s[i] != '<' && s[i] != '>'
}

proof fn lemma_unmasked_no_angle_brackets(s: Seq<char>)
    requires
        no_angle_brackets(s),
    ensures
        no_angle_brackets(unmasked(s)),
    decreases s.len(),
{
    if s.len() > 0 {
        let rest = s.drop_last();
        assert(no_angle_brackets(rest)) by {
            assert forall|i: int| 0 <= i < rest.len() implies #[trigger] rest[i] != '<' && rest[i] != '>' by {
                assert(rest[i] == s[i]);
            }
        }
        lemma_unmasked_no_angle_brackets(rest);
        reveal_strlit("&lt;");
        reveal_strlit("&gt;");
        let piece: Seq<char> = if s.last() == '\\' { "&lt;"@ } else if s.last() == '~' { "&gt;"@ } else { seq![s.last()] };
        assert(unmasked(s) == unmasked(rest) + piece);
        assert forall|i: int| 0 <= i < unmasked(s).len() implies #[trigger] unmasked(s)[i] != '<' && unmasked(s)[i] != '>' by {
            if i >= unmasked(rest).len() {
                assert(unmasked(s)[i] == piece[i - unmasked(rest).len()]);
            } else {
                assert(unmasked(s)[i] == unmasked(rest)[i]);
            }
        }
    }
}

/// How a source character is written in the report: `<` as `&lt;`, `>` as `&gt;`, any other
/// character as itself.
pub open spec fn escaped_char(c: char) -> Seq<char> {
    if c == '<' {
        "&lt;"@
    } else if c == '>' {
        "&gt;"@
    } else {
        seq![c]
    }
}

/// Whether a text holds neither of the characters that stand in for angle brackets while the
/// report is marked (`\` and `~`).
pub open spec fn no_stand_ins(s: Seq<char>) -> bool {
    forall|i: int| 0 <= i < s.len() ==> #[trigger] s[i] != '\\' && s[i] != '~'
}

/// The text that an escaped text stands for: `&lt;` read as `<`, `&gt;` as `>`, every other
/// character as itself, from left to right.
pub open spec fn decoded(t: Seq<char>) -> Seq<char>
    decreases t.len(),
{
    if t.len() == 0 {
        Seq::empty()
    } else if t.len() >= 4 && t.subrange(0, 4) == "&lt;"@ {
        seq!['<'] + decoded(t.subrange(4, t.len() as int))
    } else if t.len() >= 4 && t.subrange(0, 4) == "&gt;"@ {
        seq!['>'] + decoded(t.subrange(4, t.len() as int))
    } else {
        seq![t[0]] + decoded(t.subrange(1, t.len() as int))
    }
}

proof fn lemma_unmasked_concat(a: Seq<char>, b: Seq<char>)
    ensures
        unmasked(a + b) == unmasked(a) + unmasked(b),
    decreases b.len(),
{
    if b.len() == 0 {
        assert(a + b =~= a);
        assert(unmasked(a) + unmasked(b) =~= unmasked(a));
    } else {
        assert((a + b).drop_last() =~= a + b.drop_last());
        assert((a + b).last() == b.last());
        lemma_unmasked_concat(a, b.drop_last());
    }
}

/// Writing back a masked source that holds no stand-in characters gives the source with each
/// `<` written `&lt;` and each `>` written `&gt;`, and nothing else changed.
pub proof fn law_unmasking_escapes(s: Seq<char>)
    requires
        no_stand_ins(s),
    ensures
        unmasked(masked(s)) == escaped_text(s),
    decreases s.len(),
{
    reveal_strlit("&lt;");
    reveal_strlit("&gt;");
    if s.len() > 0 {
        let rest = s.drop_last();
        assert(no_stand_ins(rest)) by {
            assert forall|i: int| 0 <= i < rest.len() implies #[trigger] rest[i] != '\\' && rest[i] != '~' by {
                assert(rest[i] == s[i]);
            }
        }
        law_unmasking_escapes(rest);
        assert(masked(s).drop_last() =~= masked(rest));
        assert(s[s.len() - 1] != '\\' && s[s.len() - 1] != '~');
        assert(masked(s).last() == masked(s)[s.len() - 1]);
    }
}

/// The text of a source with each character written as [`escaped_char`] says.
pub open spec fn escaped_text(s: Seq<char>) -> Seq<char>
    decreases s.len(),
{
    if s.len() == 0 {
        Seq::empty()
    } else {
        escaped_text(s.drop_last()) + escaped_char(s.last())
    }
}

proof fn lemma_escaped_front(s: Seq<char>)
    requires
        s.len() > 0,
    ensures
        escaped_text(s) == escaped_char(s[0]) + escaped_text(s.drop_first()),
    decreases s.len(),
{
    if s.len() == 1 {
        assert(s.drop_last() =~= Seq::<char>::empty());
        assert(s.drop_first() =~= Seq::<char>::empty());
        assert(escaped_text(s.drop_first()) =~= Seq::<char>::empty());
        assert(escaped_text(s) =~= escaped_char(s[0]));
    } else {
        lemma_escaped_front(s.drop_last());
        assert(s.drop_last().drop_first() =~= s.drop_first().drop_last());
        assert(s.drop_first().last() == s.last());
        assert(s.drop_last()[0] == s[0]);
    }
}

/// Reading back the report text of a source that holds no `&` and no stand-in characters
/// gives the source itself: every `<` and `>` comes back, and nothing else is lost or added.
pub proof fn law_report_text_reads_back(s: Seq<char>)
    requires
        no_stand_ins(s),
        forall|i: int| 0 <= i < s.len() ==> #[trigger] s[i] != '&',
    ensures
        decoded(unmasked(masked(s))) == s,
    decreases s.len(),
{
    law_unmasking_escapes(s);
    lemma_decoded_escaped(s);
}

proof fn lemma_decoded_escaped(s: Seq<char>)
    requires
        forall|i: int| 0 <= i < s.len() ==> #[trigger] s[i] != '&',
    ensures
        decoded(escaped_text(s)) == s,
    decreases s.len(),
{
    reveal_strlit("&lt;");
    reveal_strlit("&gt;");
    if s.len() > 0 {
        let rest = s.drop_first();
        assert forall|i: int| 0 <= i < rest.len() implies #[trigger] rest[i] != '&' by {
            assert(rest[i] == s[i + 1]);
        }
        lemma_decoded_escaped(rest);
        lemma_escaped_front(s);
        let c = s[0];
        let piece = escaped_char(c);
        let t = piece + escaped_text(rest);
        assert(c != '&');
        if c == '<' || c == '>' {
            assert(t.subrange(0, 4) =~= piece);
            assert(t.subrange(4, t.len() as int) =~= escaped_text(rest));
            if c == '>' {
                assert("&gt;"@[1] != "&lt;"@[1]);
                assert(t.subrange(0, 4) != "&lt;"@);
            }
            assert(decoded(t) == seq![c] + decoded(escaped_text(rest)));
        } else {
            assert(t[0] == c);
            assert(t.subrange(1, t.len() as int) =~= escaped_text(rest));
            if t.len() >= 4 {
                assert(t.subrange(0, 4)[0] == c);
                assert("&lt;"@[0] == '&');
                assert("&gt;"@[0] == '&');
                assert(t.subrange(0, 4) != "&lt;"@);
                assert(t.subrange(0, 4) != "&gt;"@);
            }
            assert(decoded(t) == seq![c] + decoded(t.subrange(1, t.len() as int)));
        }
        assert(seq![c] + rest =~= s);
    }
}

/// Setting the angle brackets of a source aside keeps every position of it, and writing the
/// masked source back leaves none of its angle brackets unescaped.
pub proof fn law_masking_keeps_positions_and_escapes(s: Seq<char>)
    ensures
        masked(s).len() == s.len(),
        no_angle_brackets(unmasked(masked(s))),
{
    assert(no_angle_brackets(masked(s)));
    lemma_unmasked_no_angle_brackets(masked(s));
}

/// The places sorted by their start, latest first; places with the same start keep their order.
pub open spec fn sorted_by_start(spans: Seq<(Span, Seq<char>, RepairKind)>) -> Seq<(Span, Seq<char>, RepairKind)>
    decreases spans.len(),
{
    if spans.len() == 0 {
        Seq::empty()
    } else {
        inserted_by_start(sorted_by_start(spans.drop_last()), spans.last())
    }
}

/// The first place of the list that starts before `start`; the length where none does.
pub open spec fn insertion_point(sorted: Seq<(Span, Seq<char>, RepairKind)>, start: usize) -> int
    decreases sorted.len(),
{
    if sorted.len() == 0 {
        0
    } else if insertion_point(sorted.drop_last(), start) < sorted.len() - 1 {
        insertion_point(sorted.drop_last(), start)
    } else if sorted.last().0.start < start {
        sorted.len() - 1
    } else {
        sorted.len() as int
    }
}

pub open spec fn inserted_by_start(sorted: Seq<(Span, Seq<char>, RepairKind)>, e: (Span, Seq<char>, RepairKind))
    -> Seq<(Span, Seq<char>, RepairKind)>
{
    sorted.insert(insertion_point(sorted, e.0.start), e)
}

/// The class of the marking element of a kind of place.
pub open spec fn kind_class(kind: RepairKind) -> Seq<char> {
    match kind {
        RepairKind::Fix => "repair"@,
        RepairKind::Unchanged => ""@,
        RepairKind::ToRepair => "to-repair"@,
    }
}

/// The element that replaces a place: `<span class="<class>"><text></span>`.
pub open spec fn marking(text: Seq<char>, kind: RepairKind) -> Seq<char> {
    "<span class=\""@ + kind_class(kind) + "\">"@ + text + "</span>"@
}

/// Why the report cannot be written.
#[derive(Clone, Copy, PartialEq, Eq, Structural, Debug)]
pub enum HtmlError {
    /// A place of repair `repair` does not lie within the text it is to replace.
    SpanOutOfRange { repair: usize },
}

/// The code with the first `n` places of the sorted list replaced by their markings, in order.
pub open spec fn marked(code: Seq<char>, sorted: Seq<(Span, Seq<char>, RepairKind)>, n: nat) -> Option<Seq<char>>
    decreases n,
{
    if n == 0 || n > sorted.len() {
        Some(code)
    } else {
        match marked(code, sorted, (n - 1) as nat) {
            None => None,
            Some(c) => {
                let e = sorted[n - 1];
                if e.0.start <= e.0.end && e.0.end <= c.len() {
                    Some(c.subrange(0, e.0.start as int) + marking(e.1, e.2) + c.subrange(e.0.end as int, c.len() as int))
                } else {
                    None
                }
            },
        }
    }
}

/// The tab of a repair: the masked source marked at its places (latest first), unmasked and
/// written as HTML.
pub open spec fn repair_tab(code: Seq<char>, spans: Seq<(Span, Seq<char>, RepairKind)>) -> Option<Seq<char>> {
    let sorted = sorted_by_start(spans);
    match marked(masked(code), sorted, sorted.len()) {
        Some(c) => Some(code_html(unmasked(c))),
        None => None,
    }
}

/// The place of the list with the index that [`insertion_point`] gives.
fn insertion_index(sorted: &Vec<RepairedSpan>, start: usize) -> (r: usize)
    ensures
        r as int == insertion_point(sorted@.map_values(|x: RepairedSpan| x@), start),
{
    let ghost sv = sorted@.map_values(|x: RepairedSpan| x@);
    let mut i: usize = 0;
    while i < sorted.len()
        invariant
            i <= sorted@.len(),
            sv == sorted@.map_values(|x: RepairedSpan| x@),
            insertion_point(sv.subrange(0, i as int), start) == i,
        decreases sorted.len() - i,
    {
        assert(sv.subrange(0, i + 1).drop_last() =~= sv.subrange(0, i as int));
        if sorted[i].section.start < start {
            assert(insertion_point(sv.subrange(0, i + 1), start) == i);
            proof { lemma_insertion_point_stays(sv, i as int + 1, sorted@.len() as int, i as int, start); }
            assert(sv.subrange(0, sv.len() as int) =~= sv);
            return i;
        }
        i += 1;
    }
    assert(sv.subrange(0, sv.len() as int) =~= sv);
    i
}

proof fn lemma_insertion_point_stays(sv: Seq<(Span, Seq<char>, RepairKind)>, k: int, n: int, p: int, start: usize)
    requires
        0 <= p < k <= n <= sv.len(),
        insertion_point(sv.subrange(0, k), start) == p,
    ensures
        insertion_point(sv.subrange(0, n), start) == p,
    decreases n - k,
{
    if k < n {
        assert(sv.subrange(0, k + 1).drop_last() =~= sv.subrange(0, k));
        lemma_insertion_point_stays(sv, k + 1, n, p, start);
    }
}

fn copy_span(x: &RepairedSpan) -> (r: RepairedSpan)
    ensures
        r@ == x@,
{
    RepairedSpan { section: x.section, replace_by: x.replace_by.clone(), kind: x.kind }
}

/// The places sorted as [`sorted_by_start`] says.
fn sort_by_start(spans: &Vec<RepairedSpan>) -> (r: Vec<RepairedSpan>)
    ensures
        r@.map_values(|x: RepairedSpan| x@) == sorted_by_start(spans@.map_values(|x: RepairedSpan| x@)),
{
    let ghost sv = spans@.map_values(|x: RepairedSpan| x@);
    let mut sorted: Vec<RepairedSpan> = Vec::new();
    let mut i: usize = 0;
    assert(sorted@.map_values(|x: RepairedSpan| x@) =~= sorted_by_start(sv.subrange(0, 0)));
    while i < spans.len()
        invariant
            i <= spans@.len(),
            sv == spans@.map_values(|x: RepairedSpan| x@),
            sorted@.map_values(|x: RepairedSpan| x@) == sorted_by_start(sv.subrange(0, i as int)),
        decreases spans.len() - i,
    {
        assert(sv.subrange(0, i + 1).drop_last() =~= sv.subrange(0, i as int));
        let p = insertion_index(&sorted, spans[i].section.start);
        let ghost before = sorted@.map_values(|x: RepairedSpan| x@);
        proof { crate::html::lemma_insertion_point_bound(before, spans[i as int].section.start); }
        sorted.insert(p, copy_span(&spans[i]));
        assert(sorted@.map_values(|x: RepairedSpan| x@) =~= before.insert(p as int, sv[i as int]));
        i += 1;
    }
    assert(sv.subrange(0, sv.len() as int) =~= sv);
    sorted
}

proof fn lemma_insertion_point_bound(sorted: Seq<(Span, Seq<char>, RepairKind)>, start: usize)
    ensures
        0 <= insertion_point(sorted, start) <= sorted.len(),
    decreases sorted.len(),
{
    if sorted.len() > 0 {
        lemma_insertion_point_bound(sorted.drop_last(), start);
    }
}

/// The code with every `<` and `>` set aside, as [`masked`] says.
fn mask(code: &Vec<char>) -> (r: Vec<char>)
    ensures
        r@ == masked(code@),
{
    let mut out: Vec<char> = Vec::new();
    let mut i: usize = 0;
    while i < code.len()
        invariant
            i <= code@.len(),
            out@ == masked(code@.subrange(0, i as int)),
        decreases code.len() - i,
    {
        let c = code[i];
        out.push(if c == '<' { '\\' } else if c == '>' { '~' } else { c });
        assert(out@ =~= masked(code@.subrange(0, i + 1)));
        i += 1;
    }
    assert(code@.subrange(0, code@.len() as int) =~= code@);
    out
}

/// The text with the set-aside characters written as entities, as [`unmasked`] says.
fn unmask(code: &Vec<char>) -> (r: Vec<char>)
    ensures
        r@ == unmasked(code@),
{
    let mut out: Vec<char> = Vec::new();
    let mut i: usize = 0;
    while i < code.len()
        invariant
            i <= code@.len(),
            out@ == unmasked(code@.subrange(0, i as int)),
        decreases code.len() - i,
    {
        assert(code@.subrange(0, i + 1).drop_last() =~= code@.subrange(0, i as int));
        let c = code[i];
        if c == '\\' {
            append_str(&mut out, "&lt;");
        } else if c == '~' {
            append_str(&mut out, "&gt;");
        } else {
            out.push(c);
        }
        i += 1;
    }
    assert(code@.subrange(0, code@.len() as int) =~= code@);
    out
}

/// The code with the place replaced by its marking.
fn replace_place(code: &Vec<char>, start: usize, end: usize, text: &String, kind: RepairKind) -> (r: Vec<char>)
    requires
        start <= end <= code@.len(),
    ensures
        r@ == code@.subrange(0, start as int) + marking(text@, kind) + code@.subrange(end as int, code@.len() as int),
{
    let mut out: Vec<char> = Vec::new();
    let mut i: usize = 0;
    while i < start
        invariant
            i <= start <= code@.len(),
            out@ == code@.subrange(0, i as int),
        decreases start - i,
    {
        out.push(code[i]);
        assert(out@ =~= code@.subrange(0, i + 1));
        i += 1;
    }
    append_str(&mut out, "<span class=\"");
    match kind {
        RepairKind::Fix => append_str(&mut out, "repair"),
        RepairKind::Unchanged => append_str(&mut out, ""),
        RepairKind::ToRepair => append_str(&mut out, "to-repair"),
    }
    append_str(&mut out, "\">");
    append_str(&mut out, text.as_str());
    append_str(&mut out, "</span>");
    let ghost mid = out@;
    let mut j: usize = end;
    while j < code.len()
        invariant
            end <= j <= code@.len(),
            out@ == mid + code@.subrange(end as int, j as int),
        decreases code.len() - j,
    {
        out.push(code[j]);
        assert(out@ =~= mid + code@.subrange(end as int, j + 1));
        j += 1;
    }
    out
}

impl RepairOutput {
    pub fn new(base_source_code: String) -> (r: Self)
        ensures
            r.base_source_code@ == base_source_code@,
            r.repairs@.len() == 0,
    {
        RepairOutput { base_source_code, repairs: Vec::new() }
    }

    /// Adds a tab.
    pub fn add_repair(&mut self, repair: Repair)
        ensures
            final(self).base_source_code == old(self).base_source_code,
            final(self).repairs@ == old(self).repairs@.push(repair),
    {
        self.repairs.push(repair);
    }

    /// The HTML of the tab of repair number `index`, as [`repair_tab`] says; `None` where a
    /// place does not lie within the text it is to replace.
    pub fn tab_html(&self, index: usize) -> (r: Option<String>)
        requires
            index < self.repairs@.len(),
        ensures
            match repair_tab(self.base_source_code@, self.repairs@[index as int].spans@.map_values(|x: RepairedSpan| x@)) {
                Some(t) => r matches Some(x) && x@ == t,
                None => r is None,
            },
    {
        let sorted = sort_by_start(&self.repairs[index].spans);
        let ghost sv = sorted@.map_values(|x: RepairedSpan| x@);
        let source = str_chars(self.base_source_code.as_str());
        let mut code = mask(&source);
        let ghost start = code@;
        let mut k: usize = 0;
        while k < sorted.len()
            invariant
                k <= sorted@.len(),
                sv == sorted@.map_values(|x: RepairedSpan| x@),
                sv == sorted_by_start(self.repairs@[index as int].spans@.map_values(|x: RepairedSpan| x@)),
                start == masked(self.base_source_code@),
                marked(start, sv, k as nat) == Some(code@),
            decreases sorted.len() - k,
        {
            let e = &sorted[k];
            assert(e@ == sv[k as int]);
            if e.section.start <= e.section.end && e.section.end <= code.len() {
                code = replace_place(&code, e.section.start, e.section.end, &e.replace_by, e.kind);
            } else {
                proof { lemma_marked_stays(start, sv, (k + 1) as nat, sv.len()); }
                return None;
            }
            k += 1;
        }
        let plain = unmask(&code);
        Some(code_to_html(string_from(&plain).as_str()))
    }
}

proof fn lemma_marked_stays(code: Seq<char>, sorted: Seq<(Span, Seq<char>, RepairKind)>, i: nat, n: nat)
    requires
        i <= n <= sorted.len(),
        marked(code, sorted, i) is None,
    ensures
        marked(code, sorted, n) is None,
    decreases n - i,
{
    if i < n {
        lemma_marked_stays(code, sorted, i, (n - 1) as nat);
    }
}

/// The title of a tab: `base`, or `repair (cost: <cost>)`.
pub open spec fn title_text(t: RepairTitle) -> Seq<char> {
    match t {
        RepairTitle::Base => "base"@,
        RepairTitle::Repair { cost_text } => "repair (cost: "@ + cost_text@ + ")"@,
    }
}

/// The header of tab number `i`; the first is active.
pub open spec fn header_html(i: nat, title: Seq<char>) -> Seq<char> {
    "<span class=\"repair-tab"@ + (if i == 0 { " active"@ } else { ""@ }) + "\" onclick=\"show("@ + decimal(i)
        + ");\" id=\"tab-header-"@ + decimal(i) + "\">"@ + title + "</span>"@
}

/// Tab number `i` around its HTML; all but the first are hidden.
pub open spec fn tab_div(i: nat, html: Seq<char>) -> Seq<char> {
    "<div class=\"tab\" id=\"tab-"@ + decimal(i) + "\""@ + (if i == 0 { ""@ } else { " style=\"display: none;\""@ })
        + ">\n"@ + html + "\n</div>"@
}

/// The text with every occurrence of `pat` replaced by `rep`, from left to right, as
/// `str::replace` does.
pub open spec fn replace_all(s: Seq<char>, pat: Seq<char>, rep: Seq<char>) -> Seq<char>
    decreases s.len(),
{
    if pat.len() == 0 {
        s
    } else if exists|i: int| first_occurrence_at(s, pat, i) {
        let i = choose|i: int| first_occurrence_at(s, pat, i);
        if i + pat.len() <= s.len() && 0 <= i {
            s.subrange(0, i) + rep + replace_all(s.subrange(i + pat.len(), s.len() as int), pat, rep)
        } else {
            s
        }
    } else {
        s
    }
}

/// The tabs of the first `n` repairs, or the first repair with a place outside its text.
pub open spec fn tabs_of(code: Seq<char>, repairs: Seq<Seq<(Span, Seq<char>, RepairKind)>>, n: nat) -> Result<Seq<Seq<char>>, HtmlError>
    decreases n,
{
    if n == 0 || n > repairs.len() {
        Ok(Seq::empty())
    } else {
        match tabs_of(code, repairs, (n - 1) as nat) {
            Err(e) => Err(e),
            Ok(before) => match repair_tab(code, repairs[n - 1]) {
                None => Err(HtmlError::SpanOutOfRange { repair: (n - 1) as usize }),
                Some(t) => Ok(before.push(t)),
            },
        }
    }
}

/// The report: the template with its headers placeholder replaced by the tab headers and its
/// tabs placeholder by the tabs, each list joined with line feeds.
pub open spec fn report_html(template: Seq<char>, titles: Seq<Seq<char>>, tabs: Seq<Seq<char>>) -> Seq<char> {
    let headers = joined(Seq::new(titles.len(), |i: int| header_html(i as nat, titles[i])), "\n"@);
    let divs = joined(Seq::new(tabs.len(), |i: int| tab_div(i as nat, tabs[i])), "\n"@);
    replace_all(replace_all(template, "<!-- insert tab headers here -->"@, headers), "<!-- insert tabs here -->"@, divs)
}

proof fn lemma_first_occurrence_unique(s: Seq<char>, pat: Seq<char>, i: int, j: int)
    requires
        first_occurrence_at(s, pat, i),
        first_occurrence_at(s, pat, j),
    ensures
        i == j,
{
    if i < j {
        assert(!occurs_at(s, pat, i));
    } else if j < i {
        assert(!occurs_at(s, pat, j));
    }
}

proof fn lemma_occurs_shift(s: Seq<char>, pat: Seq<char>, pos: int, j: int)
    requires
        0 <= pos <= s.len(),
        0 <= j,
    ensures
        occurs_at(s, pat, j + pos) <==> occurs_at(s.subrange(pos, s.len() as int), pat, j),
{
    let t = s.subrange(pos, s.len() as int);
    if j >= 0 && j + pat.len() <= t.len() {
        assert(t.subrange(j, j + pat.len()) =~= s.subrange(j + pos, j + pos + pat.len()));
    }
}

/// Replaces every occurrence, as [`replace_all`] says.
fn replace_every(s: &Vec<char>, pat: &Vec<char>, rep: &Vec<char>) -> (r: Vec<char>)
    requires
        pat@.len() > 0,
    ensures
        r@ == replace_all(s@, pat@, rep@),
{
    let mut out: Vec<char> = Vec::new();
    let mut pos: usize = 0;
    assert(s@.subrange(0, s@.len() as int) =~= s@);
    while pos <= s.len()
        invariant
            pos <= s@.len(),
            pat@.len() > 0,
            out@ + replace_all(s@.subrange(pos as int, s@.len() as int), pat@, rep@) == replace_all(s@, pat@, rep@),
        decreases s@.len() - pos,
    {
        let ghost t = s@.subrange(pos as int, s@.len() as int);
        proof { assert(s@.subrange(0, s@.len() as int) =~= s@); }
        match find_from(s, pat, pos, s.len()) {
            Some(j) => {
                proof {
                    let k = j - pos;
                    lemma_occurs_shift(s@, pat@, pos as int, k);
                    assert(first_occurrence_at(t, pat@, k)) by {
                        assert forall|q: int| 0 <= q < k implies !occurs_at(t, pat@, q) by {
                            lemma_occurs_shift(s@, pat@, pos as int, q);
                        }
                    }
                    let c = choose|i: int| first_occurrence_at(t, pat@, i);
                    lemma_first_occurrence_unique(t, pat@, c, k);
                    assert(t.subrange(0, k) =~= s@.subrange(pos as int, j as int));
                    assert(t.subrange(k + pat@.len(), t.len() as int) =~= s@.subrange(j + pat@.len(), s@.len() as int));
                }
                let mut i = pos;
                let ghost before = out@;
                while i < j
                    invariant
                        pos <= i <= j,
                        j + pat@.len() <= s@.len(),
                        out@ == before + s@.subrange(pos as int, i as int),
                    decreases j - i,
                {
                    out.push(s[i]);
                    assert(out@ =~= before + s@.subrange(pos as int, i + 1));
                    i += 1;
                }
                append_chars(&mut out, rep);
                assert(out@ + replace_all(s@.subrange(j + pat@.len(), s@.len() as int), pat@, rep@)
                    =~= before + replace_all(t, pat@, rep@));
                pos = j + pat.len();
            },
            None => {
                proof {
                    assert forall|q: int| #![auto] !first_occurrence_at(t, pat@, q) by {
                        if q >= 0 {
                            lemma_occurs_shift(s@, pat@, pos as int, q);
                        }
                    }
                }
                let mut i = pos;
                let ghost before = out@;
                while i < s.len()
                    invariant
                        pos <= i <= s@.len(),
                        out@ == before + s@.subrange(pos as int, i as int),
                    decreases s@.len() - i,
                {
                    out.push(s[i]);
                    assert(out@ =~= before + s@.subrange(pos as int, i + 1));
                    i += 1;
                }
                assert(out@ =~= before + t);
                return out;
            },
        }
    }
    out
}

impl RepairOutput {
    /// The report, as [`report_html`] says, from the template with its two placeholders; the
    /// error names the first repair with a place outside its text.
    pub fn to_html(&self, template: &str) -> (r: Result<String, HtmlError>)
        ensures
            match tabs_of(self.base_source_code@, self.repairs@.map_values(|x: Repair| x.spans@.map_values(|y: RepairedSpan| y@)), self.repairs@.len()) {
                Err(e) => r == Err::<String, HtmlError>(e),
                Ok(tabs) => r matches Ok(x) && x@ == report_html(template@, self.repairs@.map_values(|x: Repair| title_text(x.title)), tabs),
            },
    {
        let ghost rv = self.repairs@.map_values(|x: Repair| x.spans@.map_values(|y: RepairedSpan| y@));
        let ghost titles = self.repairs@.map_values(|x: Repair| title_text(x.title));
        let mut tabs: Vec<String> = Vec::new();
        let mut divs: Vec<String> = Vec::new();
        let mut headers: Vec<String> = Vec::new();
        let mut k: usize = 0;
        assert(string_views(tabs@) =~= Seq::<Seq<char>>::empty());
        assert(string_views(divs@) =~= Seq::<Seq<char>>::empty());
        assert(string_views(headers@) =~= Seq::<Seq<char>>::empty());
        while k < self.repairs.len()
            invariant
                k <= self.repairs@.len(),
                rv == self.repairs@.map_values(|x: Repair| x.spans@.map_values(|y: RepairedSpan| y@)),
                titles == self.repairs@.map_values(|x: Repair| title_text(x.title)),
                tabs_of(self.base_source_code@, rv, k as nat) == Ok::<Seq<Seq<char>>, HtmlError>(string_views(tabs@)),
                string_views(headers@) == Seq::new(k as nat, |i: int| header_html(i as nat, titles[i])),
                string_views(divs@) == Seq::new(k as nat, |i: int| tab_div(i as nat, string_views(tabs@)[i])),
                tabs@.len() == k,
            decreases self.repairs.len() - k,
        {
            assert(rv[k as int] == self.repairs@[k as int].spans@.map_values(|y: RepairedSpan| y@));
            let tab = match self.tab_html(k) {
                Some(t) => t,
                None => {
                    proof { lemma_tabs_of_stays(self.base_source_code@, rv, (k + 1) as nat, rv.len()); }
                    return Err(HtmlError::SpanOutOfRange { repair: k });
                },
            };
            let mut div: Vec<char> = Vec::new();
            append_str(&mut div, "<div class=\"tab\" id=\"tab-");
            append_decimal(&mut div, k as u64);
            append_str(&mut div, "\"");
            if k == 0 {
                append_str(&mut div, "");
            } else {
                append_str(&mut div, " style=\"display: none;\"");
            }
            append_str(&mut div, ">\n");
            append_str(&mut div, tab.as_str());
            append_str(&mut div, "\n</div>");
            let mut header: Vec<char> = Vec::new();
            append_str(&mut header, "<span class=\"repair-tab");
            if k == 0 {
                append_str(&mut header, " active");
            } else {
                append_str(&mut header, "");
            }
            append_str(&mut header, "\" onclick=\"show(");
            append_decimal(&mut header, k as u64);
            append_str(&mut header, ");\" id=\"tab-header-");
            append_decimal(&mut header, k as u64);
            append_str(&mut header, "\">");
            match &self.repairs[k].title {
                RepairTitle::Base => append_str(&mut header, "base"),
                RepairTitle::Repair { cost_text } => {
                    append_str(&mut header, "repair (cost: ");
                    append_str(&mut header, cost_text.as_str());
                    append_str(&mut header, ")");
                },
            }
            append_str(&mut header, "</span>");
            assert(header@ =~= header_html(k as nat, titles[k as int]));
            assert(div@ =~= tab_div(k as nat, tab@));
            let ghost tb = string_views(tabs@);
            let ghost db = string_views(divs@);
            let ghost hb = string_views(headers@);
            let ghost tab_view = tab@;
            tabs.push(tab);
            divs.push(string_from(&div));
            headers.push(string_from(&header));
            assert(string_views(tabs@) =~= tb.push(tab_view));
            assert(string_views(divs@) =~= db.push(div@));
            assert forall|i: int| 0 <= i < k + 1 implies
                #[trigger] string_views(divs@)[i] == tab_div(i as nat, string_views(tabs@)[i]) by {
                if i < k {
                    assert(string_views(tabs@)[i] == tb[i]);
                    assert(db[i] == tab_div(i as nat, tb[i]));
                }
            }
            assert(string_views(divs@) =~= Seq::new((k + 1) as nat, |i: int| tab_div(i as nat, string_views(tabs@)[i])));
            assert(string_views(headers@) =~= hb.push(header@));
            assert(Seq::new((k + 1) as nat, |i: int| header_html(i as nat, titles[i]))
                =~= Seq::new(k as nat, |i: int| header_html(i as nat, titles[i])).push(header_html(k as nat, titles[k as int])));
            k += 1;
        }
        let mut header_text: Vec<char> = Vec::new();
        crate::engine::synthesis::files::append_joined(&mut header_text, &headers, "\n");
        let mut tabs_text: Vec<char> = Vec::new();
        crate::engine::synthesis::files::append_joined(&mut tabs_text, &divs, "\n");
        let t = str_chars(template);
        let p1 = str_chars("<!-- insert tab headers here -->");
        let p2 = str_chars("<!-- insert tabs here -->");
        proof {
            reveal_strlit("<!-- insert tab headers here -->");
            reveal_strlit("<!-- insert tabs here -->");
        }
        let once = replace_every(&t, &p1, &header_text);
        let twice = replace_every(&once, &p2, &tabs_text);
        Ok(string_from(&twice))
    }
}

proof fn lemma_tabs_of_stays(code: Seq<char>, repairs: Seq<Seq<(Span, Seq<char>, RepairKind)>>, i: nat, n: nat)
    requires
        i <= n <= repairs.len(),
        tabs_of(code, repairs, i) is Err,
    ensures
        tabs_of(code, repairs, n) == tabs_of(code, repairs, i),
    decreases n - i,
{
    if i < n {
        lemma_tabs_of_stays(code, repairs, i, (n - 1) as nat);
    }
}

} // verus!

use vstd::prelude::*;
use crate::text::{append_decimal, append_str, decimal, string_from};

verus! {

/// A message a window handles itself.
#[derive(Clone, Copy, PartialEq, Eq, Debug)]
pub enum InternalWindowMessage {
    SwitchSection { index: usize },
}

/// Which sections of a window are expanded.
pub struct WindowState {
    pub collapsed: Vec<bool>,
}

impl WindowState {
    /// A window without sections.
    pub fn new() -> (r: Self)
        ensures
            r.collapsed@.len() == 0,
    {
        WindowState { collapsed: Vec::new() }
    }

    /// A window whose `number_sections` sections are all expanded.
    pub fn with_expanded_sections(number_sections: usize) -> (r: Self)
        ensures
            r.collapsed@ == Seq::new(number_sections as nat, |i: int| true),
    {
        let mut collapsed: Vec<bool> = Vec::new();
        let mut i: usize = 0;
        while i < number_sections
            invariant
                i <= number_sections,
                collapsed@ == Seq::new(i as nat, |j: int| true),
            decreases number_sections - i,
        {
            collapsed.push(true);
            assert(collapsed@ =~= Seq::new((i + 1) as nat, |j: int| true));
            i += 1;
        }
        WindowState { collapsed }
    }

    /// Switches a section between expanded and collapsed.
    pub fn update(&mut self, message: InternalWindowMessage)
        requires
            match message {
                InternalWindowMessage::SwitchSection { index } => index < old(self).collapsed@.len(),
            },
        ensures
            match message {
                InternalWindowMessage::SwitchSection { index } =>
                    final(self).collapsed@ == old(self).collapsed@.update(index as int, !old(self).collapsed@[index as int]),
            },
    {
        match message {
            InternalWindowMessage::SwitchSection { index } => {
                let value = !self.collapsed[index];
                self.collapsed.set(index, value);
            },
        }
    }

    /// Whether a section of the given kind, at position `section_index`, is shown expanded:
    /// as the kind forces it, else as the state says.
    pub fn is_expanded(&self, kind: &SectionKind, section_index: usize) -> (r: bool)
        requires
            kind.expanded_override is None ==> section_index < self.collapsed@.len(),
        ensures
            r == match kind.expanded_override {
                Some(b) => b,
                None => self.collapsed@[section_index as int],
            },
    {
        match kind.expanded_override {
            Some(b) => b,
            None => self.collapsed[section_index],
        }
    }

    /// The symbol of the button that switches section `section_index`: a downward triangle
    /// where the state holds `true`, a leftward one otherwise.
    pub fn toggle_symbol(&self, section_index: usize) -> (r: char)
        requires
            section_index < self.collapsed@.len(),
        ensures
            r == if self.collapsed@[section_index as int] { '\u{25bc}' } else { '\u{25c0}' },
    {
        if self.collapsed[section_index] { '\u{25bc}' } else { '\u{25c0}' }
    }
}

/// How a section of a window opens: by the user's choice (with a toggle button), or forced
/// open or closed.
#[derive(Clone, Copy, PartialEq, Eq, Debug)]
pub struct SectionKind {
    pub expanded_override: Option<bool>,
    pub has_toggle_button: bool,
}

impl SectionKind {
    pub fn togglable() -> (r: Self)
        ensures
            r.expanded_override is None,
            r.has_toggle_button,
    {
        SectionKind { expanded_override: None, has_toggle_button: true }
    }

    pub fn forced_open() -> (r: Self)
        ensures
            r.expanded_override == Some(true),
            !r.has_toggle_button,
    {
        SectionKind { expanded_override: Some(true), has_toggle_button: false }
    }

    pub fn forced_close() -> (r: Self)
        ensures
            r.expanded_override == Some(false),
            !r.has_toggle_button,
    {
        SectionKind { expanded_override: Some(false), has_toggle_button: false }
    }
}

/// A duration of `seconds` as the task log shows it: days, hours and minutes where they are
/// not zero (`1d 2h 3m`), then the seconds (`4s`), separated by spaces.
pub open spec fn elapsed_text(seconds: u64) -> Seq<char> {
    let s = seconds % 60;
    let m = (seconds / 60) % 60;
    let h = (seconds / 3600) % 24;
    let d = seconds / 86400;
    (if d > 0 { decimal(d as nat) + "d "@ } else { Seq::empty() })
        + (if h > 0 { decimal(h as nat) + "h "@ } else { Seq::empty() })
        + (if m > 0 { decimal(m as nat) + "m "@ } else { Seq::empty() })
        + decimal(s as nat) + "s"@
}

/// A duration of `seconds` written as [`elapsed_text`] says.
pub fn format_elapsed(seconds: u64) -> (r: String)
    ensures
        r@ == elapsed_text(seconds),
{
    let s = seconds % 60;
    let minutes = seconds / 60;
    let hours = minutes / 60;
    let d = hours / 24;
    let m = minutes % 60;
    let h = hours % 24;
    assert(hours == seconds / 3600) by (nonlinear_arith)
        requires minutes == seconds / 60, hours == minutes / 60;
    assert(d == seconds / 86400) by (nonlinear_arith)
        requires hours == seconds / 3600, d == hours / 24;
    let mut out: Vec<char> = Vec::new();
    let ghost mut expected: Seq<char> = Seq::empty();
    if d > 0 {
        append_decimal(&mut out, d);
        append_str(&mut out, "d ");
    }
    if h > 0 {
        append_decimal(&mut out, h);
        append_str(&mut out, "h ");
    }
    if m > 0 {
        append_decimal(&mut out, m);
        append_str(&mut out, "m ");
    }
    append_decimal(&mut out, s);
    append_str(&mut out, "s");
    assert(out@ =~= elapsed_text(seconds));
    string_from(&out)
}

/// A duration of `seconds` as a text element shows it: each unit from the largest that is not
/// zero down to the seconds, each followed by its letter and a space (`1d 0h 0m 5s `).
pub open spec fn duration_text(seconds: u64) -> Seq<char> {
    let s = seconds % 60;
    let m = (seconds / 60) % 60;
    let h = (seconds / 3600) % 24;
    let d = seconds / 86400;
    (if d > 0 { decimal(d as nat) + "d "@ } else { Seq::empty() })
        + (if h > 0 || d > 0 { decimal(h as nat) + "h "@ } else { Seq::empty() })
        + (if m > 0 || h > 0 || d > 0 { decimal(m as nat) + "m "@ } else { Seq::empty() })
        + decimal(s as nat) + "s "@
}

/// A duration of `seconds` written as [`duration_text`] says.
pub fn format_duration(seconds: u64) -> (r: String)
    ensures
        r@ == duration_text(seconds),
{
    let s = seconds % 60;
    let minutes = seconds / 60;
    let hours = minutes / 60;
    let d = hours / 24;
    let m = minutes % 60;
    let h = hours % 24;
    assert(hours == seconds / 3600) by (nonlinear_arith)
        requires minutes == seconds / 60, hours == minutes / 60;
    assert(d == seconds / 86400) by (nonlinear_arith)
        requires hours == seconds / 3600, d == hours / 24;
    let mut out: Vec<char> = Vec::new();
    if d > 0 {
        append_decimal(&mut out, d);
        append_str(&mut out, "d ");
    }
    if h > 0 || d > 0 {
        append_decimal(&mut out, h);
        append_str(&mut out, "h ");
    }
    if m > 0 || h > 0 || d > 0 {
        append_decimal(&mut out, m);
        append_str(&mut out, "m ");
    }
    append_decimal(&mut out, s);
    append_str(&mut out, "s ");
    assert(out@ =~= duration_text(seconds));
    string_from(&out)
}

} // verus!

//! The tabs of the panes of the tabbed workspace: which tab is selected as tabs are closed,
//! dragged away and dropped.
use vstd::prelude::*;

verus! {

/// Where a dragged tab would land in a pane.
#[derive(Clone, Copy, PartialEq, Eq, Structural, Debug)]
pub enum SplitKind {
    Center,
    Top,
    Bottom,
    Left,
    Right,
}

/// How a pane is split to make room for a dropped tab.
#[derive(Clone, Copy, PartialEq, Eq, Structural, Debug)]
pub enum SplitAxis {
    Horizontal,
    Vertical,
}

impl SplitKind {
    /// The axis of the split: a tab dropped at the top or bottom splits horizontally, one
    /// dropped at the left or right vertically; one dropped in the centre does not split.
    pub fn axis(&self) -> (r: Option<SplitAxis>)
        ensures
            r == (match *self {
                SplitKind::Top | SplitKind::Bottom => Some(SplitAxis::Horizontal),
                SplitKind::Left | SplitKind::Right => Some(SplitAxis::Vertical),
                SplitKind::Center => None::<SplitAxis>,
            }),
    {
        match self {
            SplitKind::Top => Some(SplitAxis::Horizontal),
            SplitKind::Bottom => Some(SplitAxis::Horizontal),
            SplitKind::Left => Some(SplitAxis::Vertical),
            SplitKind::Right => Some(SplitAxis::Vertical),
            SplitKind::Center => None,
        }
    }

    /// Whether the new pane goes before the old one (above or to its left), so that the two
    /// are swapped after the split.
    pub fn new_pane_first(&self) -> (r: bool)
        ensures
            r == (*self == SplitKind::Top || *self == SplitKind::Left),
    {
        *self == SplitKind::Top || *self == SplitKind::Left
    }
}

/// The tabs of a pane, in order, and the index of the selected one.
pub struct TabView<W> {
    pub tabs: Vec<W>,
    pub selected: usize,
}

impl<W> TabView<W> {
    /// A pane without tabs.
    pub fn new() -> (r: Self)
        ensures
            r.tabs@.len() == 0,
            r.selected == 0,
    {
        TabView { tabs: Vec::new(), selected: 0 }
    }

    /// Selects a tab.
    pub fn select(&mut self, tab: usize)
        ensures
            final(self).tabs@ == old(self).tabs@,
            final(self).selected == tab,
    {
        self.selected = tab;
    }

    /// Closes a tab; the selection moves one to the left where it was at or after the closed
    /// tab and not the first. Returns whether the pane is left without tabs.
    pub fn close_tab(&mut self, tab: usize) -> (empty: bool)
        requires
            tab < old(self).tabs@.len(),
        ensures
            final(self).tabs@ == old(self).tabs@.remove(tab as int),
            final(self).selected == if old(self).selected > 0 && old(self).selected >= tab {
                (old(self).selected - 1) as usize
            } else {
                old(self).selected
            },
            empty == (final(self).tabs@.len() == 0),
    {
        self.tabs.remove(tab);
        if self.selected > 0 && self.selected >= tab {
            self.selected = self.selected - 1;
        }
        self.tabs.len() == 0
    }

    /// Takes a tab away to drop it elsewhere; the selection moves one to the left where it was
    /// at or after the tab and the tab was not the first.
    pub fn take_tab(&mut self, tab: usize) -> (r: W)
        requires
            tab < old(self).tabs@.len(),
        ensures
            r == old(self).tabs@[tab as int],
            final(self).tabs@ == old(self).tabs@.remove(tab as int),
            final(self).selected == if old(self).selected >= tab && tab > 0 {
                (old(self).selected - 1) as usize
            } else {
                old(self).selected
            },
    {
        let r = self.tabs.remove(tab);
        if self.selected >= tab && tab > 0 {
            self.selected = self.selected - 1;
        }
        r
    }

    /// Drops a tab before the tab at `index` and selects it.
    pub fn insert_tab(&mut self, index: usize, tab: W)
        requires
            index <= old(self).tabs@.len(),
        ensures
            final(self).tabs@ == old(self).tabs@.insert(index as int, tab),
            final(self).selected == index,
    {
        self.selected = index;
        self.tabs.insert(index, tab);
    }

    /// Drops a tab after the last one and selects it.
    pub fn push_tab(&mut self, tab: W)
        ensures
            final(self).tabs@ == old(self).tabs@.push(tab),
            final(self).selected == old(self).tabs@.len(),
    {
        self.selected = self.tabs.len();
        self.tabs.push(tab);
    }
}

/// Taking a tab away and dropping it back at the same place gives back the tab list.
pub proof fn law_take_then_insert_restores<W>(tabs: Seq<W>, i: int)
    requires
        0 <= i < tabs.len(),
    ensures
        tabs.remove(i).insert(i, tabs[i]) == tabs,
{
    assert(tabs.remove(i).insert(i, tabs[i]) =~= tabs);
}

} // verus!

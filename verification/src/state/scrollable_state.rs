//! A list of options with a selection that scrolls through it.

use vstd::prelude::*;

verus! {

/// What a widget state must offer to carry the selection of a
/// [`ScrollableState`]: the selected index, read and written.
pub trait ScrollableStateInternal: Sized {
    /// The selected index.
    spec fn selection(&self) -> Option<usize>;

    /// The selected index.
    fn selected(&self) -> (r: Option<usize>)
        ensures
            r == self.selection(),
    ;

    /// The selected index, to be written through.
    fn selected_mut(&mut self) -> (r: &mut Option<usize>)
        ensures
            *r == old(self).selection(),
            final(self).selection() == *final(r),
    ;

    /// A state with the given selection.
    fn default_with_selected(idx: Option<usize>) -> (r: Self)
        ensures
            r.selection() == idx,
    ;
}

/// A selection and nothing else.
#[derive(Clone, Copy, Debug, PartialEq, Eq)]
pub struct Selection {
    pub selected: Option<usize>,
}

impl ScrollableStateInternal for Selection {
    open spec fn selection(&self) -> Option<usize> {
        self.selected
    }

    fn selected(&self) -> (r: Option<usize>) {
        self.selected
    }

    fn selected_mut(&mut self) -> (r: &mut Option<usize>) {
        &mut self.selected
    }

    fn default_with_selected(idx: Option<usize>) -> (r: Self) {
        Selection { selected: idx }
    }
}

/// The options of a list and the state of the widget that shows them.
pub struct ScrollableState<T, S> {
    pub state: S,
    pub options: Vec<T>,
}

/// The index that scrolling by `n` leads to from `idx` in a list of `len`
/// options: `idx + n`, held within the list.
pub open spec fn scrolled(idx: int, n: int, len: int) -> int {
    if idx + n < 0 {
        0
    } else if idx + n > len - 1 {
        len - 1
    } else {
        idx + n
    }
}

impl<T: Clone, S: ScrollableStateInternal> ScrollableState<T, S> {
    /// The selected index.
    pub fn get_current_selection_idx(&self) -> (r: Option<usize>)
        ensures
            r == self.state.selection(),
    {
        match self.state.selected() {
            Some(idx) => Some(idx),
            None => None,
        }
    }

    /// A copy of the selected option, if an option is selected and the list
    /// has an option at that index.
    pub fn get_current_selection(&self) -> (r: Option<T>)
        ensures
            match self.state.selection() {
                Some(idx) => if idx < self.options@.len() {
                    r is Some && cloned(self.options@[idx as int], r->0)
                } else {
                    r is None
                },
                None => r is None,
            },
    {
        let curr_idx = match self.state.selected() {
            Some(idx) => idx,
            None => {
                return None;
            },
        };
        if curr_idx < self.options.len() {
            Some(self.options[curr_idx].clone())
        } else {
            None
        }
    }

    /// Moves the selection up by one option.
    pub fn scroll_up_single(&mut self)
        requires
            old(self).state.selection() is Some ==> 0 < old(self).options@.len() <= i32::MAX,
        ensures
            final(self).options == old(self).options,
            final(self).state.selection() == match old(self).state.selection() {
                Some(idx) => Some(scrolled(idx as int, -1, old(self).options@.len() as int) as usize),
                None => None,
            },
    {
        self.scroll(-1);
    }

    /// Moves the selection down by one option.
    pub fn scroll_down_single(&mut self)
        requires
            old(self).state.selection() is Some ==> 0 < old(self).options@.len() <= i32::MAX,
        ensures
            final(self).options == old(self).options,
            final(self).state.selection() == match old(self).state.selection() {
                Some(idx) => Some(scrolled(idx as int, 1, old(self).options@.len() as int) as usize),
                None => None,
            },
    {
        self.scroll(1);
    }

    /// Moves the selection by `n` options, down for a positive `n` and up for
    /// a negative one, and stops at the first and at the last option. Without
    /// a selection nothing changes.
    pub fn scroll(&mut self, n: i32)
        requires
            old(self).state.selection() is Some ==> 0 < old(self).options@.len() <= i32::MAX,
        ensures
            final(self).options == old(self).options,
            final(self).state.selection() == match old(self).state.selection() {
                Some(idx) => Some(scrolled(idx as int, n as int, old(self).options@.len() as int) as usize),
                None => None,
            },
    {
        let len = self.options.len();
        let slot = self.state.selected_mut();
        match *slot {
            Some(idx) => {
                *slot = Some(scroll_index(idx, n, len));
            },
            None => {},
        }
    }

    /// Selects the option `n`. Without a selection nothing changes.
    pub fn set_scroll(&mut self, n: usize)
        ensures
            final(self).options == old(self).options,
            final(self).state.selection() == match old(self).state.selection() {
                Some(_) => Some(n),
                None => None,
            },
    {
        let slot = self.state.selected_mut();
        match *slot {
            Some(_) => {
                *slot = Some(n);
            },
            None => {},
        }
    }

    /// Selects the last option. Without a selection nothing changes.
    pub fn set_scroll_last(&mut self)
        requires
            old(self).options@.len() > 0,
        ensures
            final(self).options == old(self).options,
            final(self).state.selection() == match old(self).state.selection() {
                Some(_) => Some((old(self).options@.len() - 1) as usize),
                None => None,
            },
    {
        let last_idx = self.options.len() - 1;
        self.set_scroll(last_idx);
    }
}

impl<T, S> Default for ScrollableState<T, S> where S: Default + ScrollableStateInternal {
    /// No options, and the first index selected.
    fn default() -> (r: Self)
        ensures
            r.options@.len() == 0,
            r.state.selection() == Some(0usize),
    {
        ScrollableState { state: S::default_with_selected(Some(0)), options: Vec::new() }
    }
}

/// The index that scrolling by `n` leads to from `idx` in a list of `len`
/// options.
pub fn scroll_index(idx: usize, n: i32, len: usize) -> (r: usize)
    requires
        0 < len <= i32::MAX,
    ensures
        r == scrolled(idx as int, n as int, len as int),
{
    let last = len - 1;
    if n >= 0 {
        let step = n as usize;
        if idx >= last || step >= last - idx {
            last
        } else {
            idx + step
        }
    } else {
        let back = if n == i32::MIN {
            2147483648usize
        } else {
            (-n) as usize
        };
        if back >= idx {
            0
        } else if idx - back > last {
            last
        } else {
            idx - back
        }
    }
}

} // verus!

use vstd::prelude::*;

use crate::action::{match_actions, ranked_matches, Action, ActionInfo};
use crate::text::{append_str, chars_of, string_from_chars};

verus! {

/// How many palette rows are visible at once.
pub const VISIBLE_ROWS: usize = 9;

/// `value` limited to `low ..= high`.
pub open spec fn clamp_int(value: int, low: int, high: int) -> int {
    if value < low {
        low
    } else if value > high {
        high
    } else {
        value
    }
}

/// The query, selection and scroll position of the command palette.
pub struct CommandPaletteState {
    pub query: String,
    pub selected: usize,
    pub scroll_offset: usize,
}

impl Default for CommandPaletteState {
    fn default() -> (state: CommandPaletteState)
        ensures
            state.query@ == Seq::<char>::empty(),
            state.selected == 0,
            state.scroll_offset == 0,
    {
        CommandPaletteState { query: String::new(), selected: 0, scroll_offset: 0 }
    }
}

impl CommandPaletteState {
    /// The entries matching the query, best first.
    pub fn matches(&self) -> (matches: Vec<ActionInfo>)
        ensures
            matches@ == ranked_matches(self.query@),
    {
        match_actions(self.query.as_str())
    }

    /// Moves the selection by `delta` rows, kept on a match and in view. The selection is read
    /// as an `isize`, as a cast gives it.
    pub fn move_selection(&mut self, delta: isize)
        requires
            isize::MIN <= (old(self).selected as isize) + delta <= isize::MAX,
        ensures
            final(self).query@ == old(self).query@,
            ({
                let count = ranked_matches(old(self).query@).len();
                if count == 0 {
                    final(self).selected == 0 && final(self).scroll_offset == 0
                } else {
                    let selected = clamp_int((old(self).selected as isize) + delta, 0, count - 1);
                    let kept = if old(self).scroll_offset <= selected {
                        old(self).scroll_offset as int
                    } else {
                        selected
                    };
                    &&& final(self).selected == selected
                    &&& final(self).scroll_offset == (if selected >= kept + VISIBLE_ROWS {
                        selected + 1 - VISIBLE_ROWS
                    } else {
                        kept
                    })
                    &&& final(self).selected < count
                    &&& final(self).scroll_offset <= final(self).selected
                    &&& final(self).selected < final(self).scroll_offset + VISIBLE_ROWS
                }
            }),
    {
        let count = self.matches().len();
        if count == 0 {
            self.selected = 0;
            self.scroll_offset = 0;
            return;
        }
        let target: isize = self.selected as isize + delta;
        self.selected = if target < 0 {
            0
        } else if target as usize > count - 1 {
            count - 1
        } else {
            target as usize
        };
        if self.selected < self.scroll_offset {
            self.scroll_offset = self.selected;
        }
        if self.selected >= self.scroll_offset + VISIBLE_ROWS {
            self.scroll_offset = self.selected + 1 - VISIBLE_ROWS;
        }
    }

    /// The action of the selected entry.
    pub fn selected_action(&self) -> (action: Option<Action>)
        ensures
            action == (if self.selected < ranked_matches(self.query@).len() {
                Some(ranked_matches(self.query@)[self.selected as int].action)
            } else {
                None
            }),
    {
        let matches = self.matches();
        if self.selected < matches.len() {
            Some(matches[self.selected].action)
        } else {
            None
        }
    }

    /// Edits the query: removes its last character on `backspace`, then appends `text`; the
    /// selection and scroll return to the top.
    pub fn edit(&mut self, text: Option<&str>, backspace: bool)
        ensures
            final(self).query@ == (if backspace && old(self).query@.len() > 0 {
                old(self).query@.drop_last()
            } else {
                old(self).query@
            }) + (match text {
                Some(text) => text@,
                None => Seq::empty(),
            }),
            final(self).selected == 0,
            final(self).scroll_offset == 0,
    {
        if backspace {
            let characters = chars_of(self.query.as_str());
            if characters.len() > 0 {
                let mut kept: Vec<char> = Vec::new();
                let mut index: usize = 0;
                while index < characters.len() - 1
                    invariant
                        characters@ == self.query@,
                        characters@.len() > 0,
                        index < characters@.len(),
                        kept@ == characters@.take(index as int),
                    decreases characters@.len() - index,
                {
                    kept.push(characters[index]);
                    index += 1;
                    proof {
                        assert(kept@ =~= characters@.take(index as int));
                    }
                }
                proof {
                    assert(kept@ =~= self.query@.drop_last());
                }
                self.query = string_from_chars(&kept);
            }
        }
        match text {
            Some(text) => append_str(&mut self.query, text),
            None => {
                proof {
                    assert(self.query@ =~= self.query@ + Seq::<char>::empty());
                }
            },
        }
        self.selected = 0;
        self.scroll_offset = 0;
    }

    /// Scrolls the list by `delta` rows and keeps the selection among the visible ones. The
    /// offset is read as an `isize`, as a cast gives it.
    pub fn scroll(&mut self, delta: isize)
        requires
            isize::MIN <= (old(self).scroll_offset as isize) + delta <= isize::MAX,
        ensures
            final(self).query@ == old(self).query@,
            ({
                let count = ranked_matches(old(self).query@).len();
                let maximum = if count > VISIBLE_ROWS { count - VISIBLE_ROWS } else { 0 };
                let scroll = clamp_int((old(self).scroll_offset as isize) + delta, 0, maximum);
                let last_visible = if scroll + VISIBLE_ROWS - 1 < count - 1 {
                    scroll + VISIBLE_ROWS - 1
                } else if count > 0 {
                    count - 1
                } else {
                    0
                };
                &&& final(self).scroll_offset == scroll
                &&& final(self).selected == clamp_int(old(self).selected as int, scroll, last_visible)
                &&& final(self).scroll_offset <= maximum
                &&& final(self).scroll_offset <= final(self).selected
                &&& final(self).selected < final(self).scroll_offset + VISIBLE_ROWS
                &&& (count > 0 ==> final(self).selected < count)
            }),
    {
        let count = self.matches().len();
        let maximum = count.saturating_sub(VISIBLE_ROWS);
        let target: isize = self.scroll_offset as isize + delta;
        self.scroll_offset = if target < 0 {
            0
        } else if target as usize > maximum {
            maximum
        } else {
            target as usize
        };
        let last = count.saturating_sub(1);
        let high = if self.scroll_offset + VISIBLE_ROWS - 1 < last {
            self.scroll_offset + VISIBLE_ROWS - 1
        } else {
            last
        };
        self.selected = if self.selected < self.scroll_offset {
            self.scroll_offset
        } else if self.selected > high {
            high
        } else {
            self.selected
        };
    }
}

} // verus!

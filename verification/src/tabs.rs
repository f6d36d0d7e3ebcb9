use vstd::prelude::*;

verus! {

/// Whether the pinned tabs all come before the others.
pub open spec fn pinned_first(pinned: Seq<bool>) -> bool {
    forall|i: int, j: int| 0 <= i < j < pinned.len() && #[trigger] pinned[j] ==> #[trigger] pinned[i]
}

/// How many tabs lead the strip pinned.
pub open spec fn pinned_count(pinned: Seq<bool>) -> nat
    decreases pinned.len(),
{
    if pinned.len() > 0 && pinned[0] {
        1 + pinned_count(pinned.drop_first())
    } else {
        0
    }
}

pub proof fn lemma_pinned_count_bound(pinned: Seq<bool>)
    ensures
        pinned_count(pinned) <= pinned.len(),
{
    lemma_pinned_count(pinned);
}

proof fn lemma_pinned_count(pinned: Seq<bool>)
    ensures
        pinned_count(pinned) <= pinned.len(),
        forall|i: int| 0 <= i < pinned_count(pinned) ==> #[trigger] pinned[i],
        pinned_count(pinned) < pinned.len() ==> !pinned[pinned_count(pinned) as int],
    decreases pinned.len(),
{
    if pinned.len() > 0 && pinned[0] {
        lemma_pinned_count(pinned.drop_first());
        assert forall|i: int| 0 <= i < pinned_count(pinned) implies #[trigger] pinned[i] by {
            if i > 0 {
                assert(pinned[i] == pinned.drop_first()[i - 1]);
            }
        }
    }
}

/// What a tab strip holds: the tabs in order, which are pinned, the active tab, and the
/// pinned tab that a second close request would close.
pub struct TabStripView<T> {
    pub tabs: Seq<T>,
    pub pinned: Seq<bool>,
    pub active: usize,
    pub pending_pinned_close: Option<usize>,
}

/// The tabs of a window: pinned tabs first, one of them active.
pub struct TabStrip<T> {
    tabs: Vec<T>,
    pinned: Vec<bool>,
    active: usize,
    pending_pinned_close: Option<usize>,
}

impl<T> View for TabStrip<T> {
    type V = TabStripView<T>;

    closed spec fn view(&self) -> TabStripView<T> {
        TabStripView {
            tabs: self.tabs@,
            pinned: self.pinned@,
            active: self.active,
            pending_pinned_close: self.pending_pinned_close,
        }
    }
}

impl<T> TabStripView<T> {
    /// A strip is sound when every tab has its pinned flag, pinned tabs come first, and the
    /// active index names a tab (or is zero when there is none).
    pub open spec fn wf(self) -> bool {
        &&& self.tabs.len() == self.pinned.len()
        &&& pinned_first(self.pinned)
        &&& (self.tabs.len() > 0 ==> self.active < self.tabs.len())
        &&& (self.tabs.len() == 0 ==> self.active == 0)
    }

    /// Where a tab goes when it joins the strip: after the pinned tabs when pinned, else at the
    /// end.
    pub open spec fn place_for(self, pinned: bool) -> nat {
        if pinned {
            pinned_count(self.pinned)
        } else {
            self.tabs.len()
        }
    }
}

impl<T> TabStrip<T> {
    /// A strip without tabs.
    pub fn new() -> (strip: TabStrip<T>)
        ensures
            strip@.tabs.len() == 0,
            strip@.pending_pinned_close is None,
            strip@.wf(),
    {
        TabStrip { tabs: Vec::new(), pinned: Vec::new(), active: 0, pending_pinned_close: None }
    }

    pub fn len(&self) -> (count: usize)
        ensures
            count == self@.tabs.len(),
    {
        self.tabs.len()
    }

    pub fn active_index(&self) -> (index: usize)
        ensures
            index == self@.active,
    {
        self.active
    }

    pub fn pending_pinned_close(&self) -> (pending: Option<usize>)
        ensures
            pending == self@.pending_pinned_close,
    {
        self.pending_pinned_close
    }

    pub fn is_pinned(&self, index: usize) -> (pinned: bool)
        requires
            self@.wf(),
            index < self@.tabs.len(),
        ensures
            pinned == self@.pinned[index as int],
    {
        self.pinned[index]
    }

    pub fn tab(&self, index: usize) -> (tab: &T)
        requires
            index < self@.tabs.len(),
        ensures
            *tab == self@.tabs[index as int],
    {
        &self.tabs[index]
    }

    pub fn tab_mut(&mut self, index: usize) -> (tab: &mut T)
        requires
            index < old(self)@.tabs.len(),
        ensures
            *tab == old(self)@.tabs[index as int],
            final(self)@ == (TabStripView {
                tabs: old(self)@.tabs.update(index as int, *final(tab)),
                ..old(self)@
            }),
    {
        &mut self.tabs[index]
    }

    /// The tabs in order.
    pub fn tabs(&self) -> (tabs: &[T])
        ensures
            tabs@ == self@.tabs,
    {
        self.tabs.as_slice()
    }

    /// Forgets a pending request to close a pinned tab.
    pub fn clear_pending_close(&mut self)
        requires
            old(self)@.wf(),
        ensures
            final(self)@ == (TabStripView { pending_pinned_close: None, ..old(self)@ }),
            final(self)@.wf(),
    {
        self.pending_pinned_close = None;
    }

    /// Adds an unpinned tab at the end and makes it active.
    pub fn push(&mut self, tab: T)
        requires
            old(self)@.wf(),
        ensures
            final(self)@ == (TabStripView {
                tabs: old(self)@.tabs.push(tab),
                pinned: old(self)@.pinned.push(false),
                active: old(self)@.tabs.len() as usize,
                ..old(self)@
            }),
            final(self)@.wf(),
    {
        let mut tabs = Vec::new();
        std::mem::swap(&mut tabs, &mut self.tabs);
        let mut pinned = Vec::new();
        std::mem::swap(&mut pinned, &mut self.pinned);
        tabs.push(tab);
        pinned.push(false);
        let active = tabs.len() - 1;
        proof {
            assert forall|i: int, j: int| 0 <= i < j < pinned@.len() && #[trigger] pinned@[j] implies #[trigger] pinned@[i] by {
                assert(j < pinned@.len() - 1);
                assert(old(self)@.pinned[j]);
            }
        }
        *self = TabStrip { tabs, pinned, active, pending_pinned_close: self.pending_pinned_close };
    }

    /// Puts a reopened tab back: after the pinned tabs when it is pinned, else at the end, and
    /// makes it active.
    pub fn restore(&mut self, tab: T, pinned: bool)
        requires
            old(self)@.wf(),
        ensures
            ({
                let place = old(self)@.place_for(pinned) as int;
                final(self)@ == (TabStripView {
                    tabs: old(self)@.tabs.insert(place, tab),
                    pinned: old(self)@.pinned.insert(place, pinned),
                    active: place as usize,
                    ..old(self)@
                })
            }),
            final(self)@.wf(),
    {
        proof {
            lemma_pinned_count(self@.pinned);
        }
        let place = if pinned { self.count_pinned() } else { self.tabs.len() };
        let mut tabs = Vec::new();
        std::mem::swap(&mut tabs, &mut self.tabs);
        let mut flags = Vec::new();
        std::mem::swap(&mut flags, &mut self.pinned);
        let ghost before = flags@;
        tabs.insert(place, tab);
        flags.insert(place, pinned);
        proof {
            lemma_insert_keeps_pinned_first(before, place as int, pinned);
        }
        *self = TabStrip { tabs, pinned: flags, active: place, pending_pinned_close: self.pending_pinned_close };
    }

    fn count_pinned(&self) -> (count: usize)
        requires
            self@.wf(),
        ensures
            count == pinned_count(self@.pinned),
    {
        proof {
            lemma_pinned_count(self@.pinned);
        }
        let mut count: usize = 0;
        proof {
            assert(self.pinned@.skip(0) =~= self.pinned@);
        }
        while count < self.pinned.len() && self.pinned[count]
            invariant
                count <= self.pinned@.len(),
                pinned_count(self@.pinned) == count + pinned_count(self.pinned@.skip(count as int)),
            decreases self.pinned@.len() - count,
        {
            proof {
                assert(self.pinned@.skip(count as int).drop_first() =~= self.pinned@.skip(count + 1));
            }
            count += 1;
        }
        count
    }

    /// Closes the tab at `index` unless it is the only one or absent, and returns it. The
    /// active tab stays the same tab when it is another one; when it is the closed one, the
    /// tab now at its place (or the last) becomes active.
    pub fn close_at(&mut self, index: usize) -> (closed: Option<T>)
        requires
            old(self)@.wf(),
        ensures
            if old(self)@.tabs.len() <= 1 || index >= old(self)@.tabs.len() {
                closed is None && final(self)@ == old(self)@
            } else {
                &&& closed == Some(old(self)@.tabs[index as int])
                &&& final(self)@ == (TabStripView {
                    tabs: old(self)@.tabs.remove(index as int),
                    pinned: old(self)@.pinned.remove(index as int),
                    active: (if old(self)@.active > index {
                        old(self)@.active - 1
                    } else if old(self)@.active < old(self)@.tabs.len() - 1 {
                        old(self)@.active as int
                    } else {
                        old(self)@.tabs.len() - 2
                    }) as usize,
                    pending_pinned_close: None,
                })
            },
            final(self)@.wf(),
    {
        if self.tabs.len() <= 1 || index >= self.tabs.len() {
            return None;
        }
        let mut tabs = Vec::new();
        std::mem::swap(&mut tabs, &mut self.tabs);
        let mut flags = Vec::new();
        std::mem::swap(&mut flags, &mut self.pinned);
        let ghost before = flags@;
        let closed = tabs.remove(index);
        flags.remove(index);
        let active = if self.active > index {
            self.active - 1
        } else if self.active < tabs.len() {
            self.active
        } else {
            tabs.len() - 1
        };
        proof {
            assert forall|i: int, j: int| 0 <= i < j < flags@.len() && #[trigger] flags@[j] implies #[trigger] flags@[i] by {
                let oi = if i < index { i } else { i + 1 };
                let oj = if j < index { j } else { j + 1 };
                assert(flags@[i] == before[oi]);
                assert(flags@[j] == before[oj]);
            }
        }
        *self = TabStrip { tabs, pinned: flags, active, pending_pinned_close: None };
        Some(closed)
    }

    /// Makes the tab at `index` active; false when it is absent or already active.
    pub fn switch_to(&mut self, index: usize) -> (switched: bool)
        requires
            old(self)@.wf(),
        ensures
            switched == (index < old(self)@.tabs.len() && index != old(self)@.active),
            switched ==> final(self)@ == (TabStripView {
                active: index,
                pending_pinned_close: None,
                ..old(self)@
            }),
            !switched ==> final(self)@ == old(self)@,
            final(self)@.wf(),
    {
        if index >= self.tabs.len() || index == self.active {
            return false;
        }
        self.pending_pinned_close = None;
        self.active = index;
        true
    }

    /// Pins the active tab, moving it to the front, or unpins it, moving it after the pinned
    /// tabs; it stays active.
    pub fn toggle_active_pin(&mut self)
        requires
            old(self)@.wf(),
        ensures
            old(self)@.tabs.len() == 0 ==> final(self)@ == old(self)@,
            old(self)@.tabs.len() > 0 ==> ({
                let index = old(self)@.active as int;
                let now_pinned = !old(self)@.pinned[index];
                let rest = old(self)@.pinned.remove(index);
                let place: int = if now_pinned { 0 } else { pinned_count(rest) as int };
                final(self)@ == (TabStripView {
                    tabs: old(self)@.tabs.remove(index).insert(place, old(self)@.tabs[index]),
                    pinned: rest.insert(place, now_pinned),
                    active: place as usize,
                    pending_pinned_close: None,
                })
            }),
            final(self)@.wf(),
    {
        if self.tabs.len() == 0 {
            return;
        }
        let index = self.active;
        let mut tabs = Vec::new();
        std::mem::swap(&mut tabs, &mut self.tabs);
        let mut flags = Vec::new();
        std::mem::swap(&mut flags, &mut self.pinned);
        let ghost before = flags@;
        let tab = tabs.remove(index);
        let was_pinned = flags.remove(index);
        let now_pinned = !was_pinned;
        let ghost rest = flags@;
        proof {
            assert forall|i: int, j: int| 0 <= i < j < rest.len() && #[trigger] rest[j] implies #[trigger] rest[i] by {
                let oi = if i < index { i } else { i + 1 };
                let oj = if j < index { j } else { j + 1 };
                assert(rest[i] == before[oi]);
                assert(rest[j] == before[oj]);
            }
            lemma_pinned_count(rest);
        }
        let place = if now_pinned {
            0
        } else {
            let mut count: usize = 0;
            proof {
                assert(rest.skip(0) =~= rest);
            }
            while count < flags.len() && flags[count]
                invariant
                    flags@ == rest,
                    count <= rest.len(),
                    pinned_count(rest) == count + pinned_count(rest.skip(count as int)),
                decreases rest.len() - count,
            {
                proof {
                    assert(rest.skip(count as int).drop_first() =~= rest.skip(count + 1));
                }
                count += 1;
            }
            count
        };
        tabs.insert(place, tab);
        flags.insert(place, now_pinned);
        proof {
            if now_pinned {
                assert(pinned_first(rest.insert(0, true))) by {
                    assert forall|i: int, j: int| 0 <= i < j < rest.len() + 1 && #[trigger] rest.insert(0, true)[j] implies #[trigger] rest.insert(0, true)[i] by {
                        if i > 0 {
                            assert(rest.insert(0, true)[i] == rest[i - 1]);
                            assert(rest.insert(0, true)[j] == rest[j - 1]);
                        }
                    }
                }
            } else {
                lemma_insert_keeps_pinned_first(rest, place as int, false);
            }
        }
        *self = TabStrip { tabs, pinned: flags, active: place, pending_pinned_close: None };
    }

    /// Asks to close the tab at `index`: an absent or unpinned tab may close at once, a pinned
    /// one only when the same request was made just before; otherwise the request is recorded.
    pub fn confirm_pinned_close(&mut self, index: usize) -> (confirmed: bool)
        requires
            old(self)@.wf(),
        ensures
            ({
                let pinned = index < old(self)@.tabs.len() && old(self)@.pinned[index as int];
                if !pinned || old(self)@.pending_pinned_close == Some(index) {
                    confirmed && final(self)@ == (TabStripView { pending_pinned_close: None, ..old(self)@ })
                } else {
                    !confirmed && final(self)@ == (TabStripView {
                        pending_pinned_close: Some(index),
                        ..old(self)@
                    })
                }
            }),
            final(self)@.wf(),
    {
        if index >= self.tabs.len() || !self.pinned[index] {
            self.pending_pinned_close = None;
            return true;
        }
        if self.pending_pinned_close == Some(index) {
            self.pending_pinned_close = None;
            return true;
        }
        self.pending_pinned_close = Some(index);
        false
    }

    /// Moves the active tab one place by `direction` (-1 or 1) within its own group (pinned or
    /// not); false when that would leave the strip or the group.
    pub fn move_active(&mut self, direction: isize) -> (moved: bool)
        requires
            old(self)@.wf(),
        ensures
            ({
                let current = old(self)@.active as int;
                let target = current + direction;
                let possible = old(self)@.tabs.len() >= 2 && 0 <= target < old(self)@.tabs.len()
                    && old(self)@.pinned[current] == old(self)@.pinned[target];
                &&& moved == possible
                &&& moved ==> final(self)@ == (TabStripView {
                    tabs: old(self)@.tabs.update(current, old(self)@.tabs[target]).update(target, old(self)@.tabs[current]),
                    active: target as usize,
                    pending_pinned_close: None,
                    ..old(self)@
                })
                &&& !moved ==> final(self)@ == old(self)@
            }),
            final(self)@.wf(),
    {
        if self.tabs.len() < 2 {
            return false;
        }
        let current = self.active;
        let target_wide: i128 = current as i128 + direction as i128;
        if target_wide < 0 || target_wide >= self.tabs.len() as i128 {
            return false;
        }
        let target = target_wide as usize;
        if self.pinned[current] != self.pinned[target] {
            return false;
        }
        if target == current {
            self.pending_pinned_close = None;
            proof {
                let tabs = old(self)@.tabs;
                assert(tabs.update(current as int, tabs[current as int]).update(
                    current as int,
                    tabs[current as int],
                ) =~= tabs);
            }
            return true;
        }
        self.swap_active_with(target)
    }

    fn swap_active_with(&mut self, target: usize) -> (moved: bool)
        requires
            old(self)@.wf(),
            target < old(self)@.tabs.len(),
            old(self)@.pinned[old(self)@.active as int] == old(self)@.pinned[target as int],
            target != old(self)@.active,
        ensures
            moved,
            final(self)@ == (TabStripView {
                tabs: old(self)@.tabs.update(
                    old(self)@.active as int,
                    old(self)@.tabs[target as int],
                ).update(target as int, old(self)@.tabs[old(self)@.active as int]),
                active: target,
                pending_pinned_close: None,
                ..old(self)@
            }),
            final(self)@.wf(),
    {
        let current = self.active;
        let mut tabs = Vec::new();
        std::mem::swap(&mut tabs, &mut self.tabs);
        let ghost before = tabs@;
        let (low, high) = if current < target { (current, target) } else { (target, current) };
        let upper = tabs.remove(high);
        let lower = tabs.remove(low);
        tabs.insert(low, upper);
        tabs.insert(high, lower);
        proof {
            assert(tabs@ =~= before.update(current as int, before[target as int]).update(
                target as int,
                before[current as int],
            ));
        }
        let pinned = self.pinned.clone();
        *self = TabStrip { tabs, pinned, active: target, pending_pinned_close: None };
        true
    }
    /// Drags the tab at `source` to the place `target`, within its own group (pinned or not),
    /// and makes it active; false, with the strip unchanged, when either place is absent, they
    /// are the same, or they lie in different groups.
    pub fn drag_to(&mut self, source: usize, target: usize) -> (moved: bool)
        requires
            old(self)@.wf(),
        ensures
            moved == (source < old(self)@.tabs.len() && target < old(self)@.tabs.len() && source != target
                && old(self)@.pinned[source as int] == old(self)@.pinned[target as int]),
            moved ==> final(self)@ == (TabStripView {
                tabs: old(self)@.tabs.remove(source as int).insert(target as int, old(self)@.tabs[source as int]),
                pinned: old(self)@.pinned.remove(source as int).insert(target as int, old(self)@.pinned[source as int]),
                active: target,
                pending_pinned_close: None,
            }),
            !moved ==> final(self)@ == old(self)@,
            final(self)@.wf(),
    {
        if source == target || source >= self.tabs.len() || target >= self.tabs.len() {
            return false;
        }
        if self.pinned[source] != self.pinned[target] {
            return false;
        }
        proof {
            lemma_drag_keeps_pinned_first(self@.pinned, source as int, target as int);
        }
        let mut tabs = Vec::new();
        std::mem::swap(&mut tabs, &mut self.tabs);
        let mut flags = Vec::new();
        std::mem::swap(&mut flags, &mut self.pinned);
        let tab = tabs.remove(source);
        let flag = flags.remove(source);
        tabs.insert(target, tab);
        flags.insert(target, flag);
        *self = TabStrip { tabs, pinned: flags, active: target, pending_pinned_close: None };
        true
    }
}

/// With pinned tabs first, a tab is pinned exactly when it comes before the count of pinned
/// tabs.
proof fn lemma_pinned_below_count(pinned: Seq<bool>)
    requires
        pinned_first(pinned),
    ensures
        forall|i: int| 0 <= i < pinned.len() ==> (#[trigger] pinned[i] <==> i < pinned_count(pinned)),
{
    lemma_pinned_count(pinned);
    assert forall|i: int| 0 <= i < pinned.len() implies (#[trigger] pinned[i] <==> i < pinned_count(pinned)) by {
        if pinned[i] && i >= pinned_count(pinned) {
            if i > pinned_count(pinned) {
                assert(pinned[pinned_count(pinned) as int]);
            }
        }
    }
}

/// Taking one tab out keeps the pinned tabs first.
proof fn lemma_remove_keeps_pinned_first(pinned: Seq<bool>, index: int)
    requires
        pinned_first(pinned),
        0 <= index < pinned.len(),
    ensures
        pinned_first(pinned.remove(index)),
{
    let rest = pinned.remove(index);
    assert forall|i: int, j: int| 0 <= i < j < rest.len() && #[trigger] rest[j] implies #[trigger] rest[i] by {
        let oi = if i < index { i } else { i + 1 };
        let oj = if j < index { j } else { j + 1 };
        assert(rest[i] == pinned[oi]);
        assert(rest[j] == pinned[oj]);
    }
}

/// Moving a tab from `source` to `target` within its own group keeps the pinned tabs first.
proof fn lemma_drag_keeps_pinned_first(pinned: Seq<bool>, source: int, target: int)
    requires
        pinned_first(pinned),
        0 <= source < pinned.len(),
        0 <= target < pinned.len(),
        pinned[source] == pinned[target],
    ensures
        pinned_first(pinned.remove(source).insert(target, pinned[source])),
{
    let rest = pinned.remove(source);
    pinned.remove_ensures(source);
    let count = pinned_count(pinned) as int;
    lemma_pinned_count(pinned);
    lemma_pinned_below_count(pinned);
    lemma_remove_keeps_pinned_first(pinned, source);
    lemma_pinned_below_count(rest);
    lemma_pinned_count(rest);
    let after = pinned_count(rest) as int;
    if pinned[source] {
        assert(target < count);
        if after < count - 1 {
            let oi: int = if after < source { after } else { after + 1 };
            assert(rest[after] == pinned[oi]);
        }
    } else {
        assert(target >= count);
        if after < count {
            let oi: int = if after < source { after } else { after + 1 };
            assert(rest[after] == pinned[oi]);
        } else if after > count {
            let oi: int = if count < source { count } else { count + 1 };
            assert(rest[count] == pinned[oi]);
        }
    }
    lemma_insert_keeps_pinned_first(rest, target, pinned[source]);
}

/// Inserting a tab where the pinned tabs end keeps them first: a pinned tab at or before
/// that place, an unpinned one at or after it.
proof fn lemma_insert_keeps_pinned_first(pinned: Seq<bool>, place: int, flag: bool)
    requires
        pinned_first(pinned),
        0 <= place <= pinned.len(),
        flag ==> place <= pinned_count(pinned),
        !flag ==> place >= pinned_count(pinned),
    ensures
        pinned_first(pinned.insert(place, flag)),
{
    lemma_pinned_count(pinned);
    let updated = pinned.insert(place, flag);
    assert forall|i: int, j: int| 0 <= i < j < updated.len() && #[trigger] updated[j] implies #[trigger] updated[i] by {
        let oi = if i < place { i } else { i - 1 };
        let oj = if j < place { j } else { j - 1 };
        if i == place {
            if !flag {
                assert(pinned[oj]);
                if oj >= pinned_count(pinned) as int {
                    assert(pinned[pinned_count(pinned) as int]);
                }
            }
        } else if j == place {
            assert(flag);
            assert(i < pinned_count(pinned));
        } else {
            assert(updated[i] == pinned[oi]);
            assert(updated[j] == pinned[oj]);
        }
    }
}

/// Recently closed tabs, newest last, at most twenty.
pub struct ClosedTabs<S> {
    entries: Vec<S>,
}

/// How many closed tabs are remembered.
pub const CLOSED_TAB_LIMIT: usize = 20;

impl<S> ClosedTabs<S> {
    pub closed spec fn entries_view(&self) -> Seq<S> {
        self.entries@
    }

    pub fn new() -> (closed: ClosedTabs<S>)
        ensures
            closed.entries_view().len() == 0,
    {
        ClosedTabs { entries: Vec::new() }
    }

    pub fn len(&self) -> (count: usize)
        ensures
            count == self.entries_view().len(),
    {
        self.entries.len()
    }

    /// Remembers a closed tab, forgetting the oldest beyond twenty.
    pub fn push(&mut self, entry: S)
        requires
            old(self).entries_view().len() <= CLOSED_TAB_LIMIT,
        ensures
            final(self).entries_view() == (if old(self).entries_view().len() == CLOSED_TAB_LIMIT {
                old(self).entries_view().push(entry).drop_first()
            } else {
                old(self).entries_view().push(entry)
            }),
            final(self).entries_view().len() <= CLOSED_TAB_LIMIT,
    {
        let mut entries = Vec::new();
        std::mem::swap(&mut entries, &mut self.entries);
        entries.push(entry);
        if entries.len() > CLOSED_TAB_LIMIT {
            entries.remove(0);
            proof {
                assert(entries@ =~= old(self).entries_view().push(entry).drop_first());
            }
        }
        *self = ClosedTabs { entries };
    }

    /// The most recently closed tab, forgotten.
    pub fn pop(&mut self) -> (entry: Option<S>)
        ensures
            old(self).entries_view().len() == 0 ==> entry is None && final(self).entries_view() == old(
                self,
            ).entries_view(),
            old(self).entries_view().len() > 0 ==> entry == Some(old(self).entries_view().last())
                && final(self).entries_view() == old(self).entries_view().drop_last(),
    {
        let mut entries = Vec::new();
        std::mem::swap(&mut entries, &mut self.entries);
        let entry = entries.pop();
        *self = ClosedTabs { entries };
        entry
    }
}

} // verus!

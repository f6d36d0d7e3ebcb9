use vstd::prelude::*;
use vstd::utf8::{decode_utf8, encode_utf8, valid_utf8};

use crate::layout::{
    close_tree, first_position, lemma_close_removes_target, lemma_split_inserts_after_target, split_tree,
    tree_contains, tree_panes, PaneId, PaneTree, SplitAxis,
};
use crate::text::{chars_of, decode_utf8_string, has_prefix, string_from_chars};
use crate::workspace::{PaneState, PaneStateView, TabState};

verus! {

/// What processing a pane's shell events changed.
#[derive(Debug)]
pub struct PaneUpdate {
    pub changed: bool,
    pub title_changed: bool,
    pub error: Option<String>,
}

/// The value of an ASCII hexadecimal digit.
pub open spec fn hex_digit(byte: u8) -> Option<u8> {
    if 0x30 <= byte <= 0x39 {
        Some((byte - 0x30) as u8)
    } else if 0x61 <= byte <= 0x66 {
        Some((byte - 0x61 + 10) as u8)
    } else if 0x41 <= byte <= 0x46 {
        Some((byte - 0x41 + 10) as u8)
    } else {
        None
    }
}

/// The byte that two bytes after `%` stand for, read as `u8::from_str_radix(_, 16)` reads
/// them: two hexadecimal digits, or `+` and one digit.
pub open spec fn percent_value(high: u8, low: u8) -> Option<u8> {
    match hex_digit(low) {
        None => None,
        Some(low_value) => if high == 0x2b {
            Some(low_value)
        } else {
            match hex_digit(high) {
                Some(high_value) => Some((high_value * 16 + low_value) as u8),
                None => None,
            }
        },
    }
}

/// The bytes of `bytes` from `index` on with `%XX` escapes decoded; an escape is read only
/// where two more bytes follow the `%`. `None` when one of them is not a valid escape.
pub open spec fn percent_decode_from(bytes: Seq<u8>, index: nat) -> Option<Seq<u8>>
    decreases bytes.len() - index,
{
    if index >= bytes.len() {
        Some(Seq::empty())
    } else if bytes[index as int] == 0x25 && index + 2 < bytes.len() {
        match percent_value(bytes[index + 1int], bytes[index + 2int]) {
            None => None,
            Some(value) => match percent_decode_from(bytes, index + 3) {
                Some(rest) => Some(seq![value] + rest),
                None => None,
            },
        }
    } else {
        match percent_decode_from(bytes, index + 1) {
            Some(rest) => Some(seq![bytes[index as int]] + rest),
            None => None,
        }
    }
}

/// The index of the first `/` in `text` at or after `start`.
pub open spec fn first_slash_from(text: Seq<char>, start: nat) -> Option<nat>
    decreases text.len() - start,
{
    if start >= text.len() {
        None
    } else if text[start as int] == '/' {
        Some(start)
    } else {
        first_slash_from(text, start + 1)
    }
}

/// The directory an OSC 7 `file://host/path` URI names: the path after the host,
/// percent-decoded, when that gives UTF-8.
pub open spec fn osc7_directory(uri: Seq<char>) -> Option<Seq<char>> {
    if !has_prefix(uri, "file://"@) {
        None
    } else {
        match first_slash_from(uri, 7) {
            None => None,
            Some(slash) => match percent_decode_from(encode_utf8(uri.skip(slash as int)), 0) {
                Some(decoded) => if valid_utf8(decoded) {
                    Some(decode_utf8(decoded))
                } else {
                    None
                },
                None => None,
            },
        }
    }
}

fn hex_value(byte: u8) -> (value: Option<u8>)
    ensures
        value == hex_digit(byte),
{
    if 0x30 <= byte && byte <= 0x39 {
        Some(byte - 0x30)
    } else if 0x61 <= byte && byte <= 0x66 {
        Some(byte - 0x61 + 10)
    } else if 0x41 <= byte && byte <= 0x46 {
        Some(byte - 0x41 + 10)
    } else {
        None
    }
}

fn escape_value(high: u8, low: u8) -> (value: Option<u8>)
    ensures
        value == percent_value(high, low),
{
    match hex_value(low) {
        None => None,
        Some(low_value) => if high == 0x2b {
            Some(low_value)
        } else {
            match hex_value(high) {
                Some(high_value) => Some(high_value * 16 + low_value),
                None => None,
            }
        },
    }
}

/// The directory an OSC 7 `file://host/path` URI names.
pub fn directory_from_osc7(uri: &str) -> (directory: Option<String>)
    ensures
        match directory {
            Some(path) => osc7_directory(uri@) == Some(path@),
            None => osc7_directory(uri@) is None,
        },
{
    let characters = chars_of(uri);
    let scheme = chars_of("file://");
    proof {
        reveal_strlit("file://");
    }
    if characters.len() < 7 {
        return None;
    }
    let mut k: usize = 0;
    while k < 7
        invariant
            k <= 7,
            characters@.len() >= 7,
            scheme@ == "file://"@,
            scheme@.len() == 7,
            characters@ == uri@,
            forall|j: int| 0 <= j < k ==> characters@[j] == scheme@[j],
        decreases 7 - k,
    {
        if characters[k] != scheme[k] {
            proof {
                assert(characters@.subrange(0, 7)[k as int] != scheme@[k as int]);
            }
            return None;
        }
        k += 1;
    }
    proof {
        assert(characters@.subrange(0, 7) =~= "file://"@);
    }
    let mut slash: usize = 7;
    while slash < characters.len() && characters[slash] != '/'
        invariant
            7 <= slash <= characters@.len(),
            first_slash_from(characters@, 7) == first_slash_from(characters@, slash as nat),
        decreases characters@.len() - slash,
    {
        slash += 1;
    }
    if slash >= characters.len() {
        return None;
    }
    proof {
        assert(first_slash_from(characters@, 7) == Some(slash as nat));
    }
    let mut tail: Vec<char> = Vec::new();
    let mut index: usize = slash;
    while index < characters.len()
        invariant
            slash <= index <= characters@.len(),
            tail@ == characters@.subrange(slash as int, index as int),
        decreases characters@.len() - index,
    {
        tail.push(characters[index]);
        index += 1;
        proof {
            assert(tail@ =~= characters@.subrange(slash as int, index as int));
        }
    }
    proof {
        assert(tail@ =~= uri@.skip(slash as int));
    }
    let path = string_from_chars(&tail);
    let bytes = path.as_str().as_bytes();
    proof {
        assert(has_prefix(uri@, "file://"@));
        assert(first_slash_from(uri@, 7) == Some(slash as nat));
        assert(bytes@ == encode_utf8(uri@.skip(slash as int)));
    }
    let mut decoded: Vec<u8> = Vec::new();
    let mut position: usize = 0;
    proof {
        assert(decoded@ + Seq::<u8>::empty() =~= decoded@);
    }
    while position < bytes.len()
        invariant
            position <= bytes@.len(),
            has_prefix(uri@, "file://"@),
            first_slash_from(uri@, 7) == Some(slash as nat),
            bytes@ == encode_utf8(uri@.skip(slash as int)),
            percent_decode_from(bytes@, 0) == match percent_decode_from(bytes@, position as nat) {
                Some(rest) => Some(decoded@ + rest),
                None => None::<Seq<u8>>,
            },
        decreases bytes@.len() - position,
    {
        let ghost before = decoded@;
        if bytes[position] == 0x25 && bytes.len() - position > 2 {
            match escape_value(bytes[position + 1], bytes[position + 2]) {
                Some(value) => {
                    decoded.push(value);
                    proof {
                        match percent_decode_from(bytes@, (position + 3) as nat) {
                            Some(rest) => assert(before + (seq![value] + rest) =~= decoded@ + rest),
                            None => {},
                        }
                    }
                    position += 3;
                },
                None => {
                    proof {
                        assert(percent_decode_from(bytes@, position as nat) is None);
                    }
                    return None;
                },
            }
        } else {
            let byte = bytes[position];
            decoded.push(byte);
            proof {
                match percent_decode_from(bytes@, (position + 1) as nat) {
                    Some(rest) => assert(before + (seq![byte] + rest) =~= decoded@ + rest),
                    None => {},
                }
            }
            position += 1;
        }
    }
    proof {
        assert(decoded@ + Seq::<u8>::empty() =~= decoded@);
    }
    decode_utf8_string(decoded.as_slice())
}


/// When `panes` holds `target`, its first position is an index that holds it, and no
/// earlier index does.
proof fn lemma_first_position_bound(panes: Seq<PaneId>, target: PaneId)
    requires
        panes.contains(target),
    ensures
        0 <= first_position(panes, target) < panes.len(),
        panes[first_position(panes, target)] == target,
        forall|k: int| 0 <= k < first_position(panes, target) ==> panes[k] != target,
    decreases panes.len(),
{
    if panes[0] != target {
        let i = choose|i: int| 0 <= i < panes.len() && panes[i] == target;
        assert(panes.drop_first()[i - 1] == target);
        lemma_first_position_bound(panes.drop_first(), target);
        assert forall|k: int| 0 <= k < first_position(panes, target) implies panes[k] != target by {
            if k > 0 {
                assert(panes[k] == panes.drop_first()[k - 1]);
            }
        }
    }
}

proof fn lemma_insert_fresh(items: Seq<PaneId>, position: int, item: PaneId)
    requires
        0 <= position <= items.len(),
        items.no_duplicates(),
        !items.contains(item),
    ensures
        items.insert(position, item).no_duplicates(),
        forall|other: PaneId| #[trigger] items.insert(position, item).contains(other) <==> (items.contains(other) || other == item),
{
    let grown = items.insert(position, item);
    items.insert_ensures(position, item);
    assert forall|other: PaneId| #[trigger] grown.contains(other) <==> (items.contains(other) || other == item) by {
        if grown.contains(other) {
            let k = choose|k: int| 0 <= k < grown.len() && grown[k] == other;
            if k < position {
                assert(items[k] == other);
            } else if k > position {
                assert(items[k - 1] == other);
            }
        }
        if items.contains(other) {
            let k = choose|k: int| 0 <= k < items.len() && items[k] == other;
            if k < position {
                assert(grown[k] == other);
            } else {
                assert(grown[k + 1] == other);
            }
        }
        if other == item {
            assert(grown[position] == other);
        }
    }
    assert forall|i: int, j: int| 0 <= i < grown.len() && 0 <= j < grown.len() && i != j implies grown[i] != grown[j] by {
        if i == position {
            if j < position {
                assert(items[j] == grown[j]);
            } else {
                assert(items[j - 1] == grown[j]);
            }
        } else if j == position {
            if i < position {
                assert(items[i] == grown[i]);
            } else {
                assert(items[i - 1] == grown[i]);
            }
        } else {
            let a = if i < position { i } else { i - 1 };
            let b = if j < position { j } else { j - 1 };
            assert(items[a] == grown[i]);
            assert(items[b] == grown[j]);
        }
    }
}

proof fn lemma_remove_unique(items: Seq<PaneId>, position: int)
    requires
        0 <= position < items.len(),
        items.no_duplicates(),
    ensures
        items.remove(position).no_duplicates(),
        forall|other: PaneId| #[trigger] items.remove(position).contains(other) <==> (items.contains(other) && other != items[position]),
{
    let shrunk = items.remove(position);
    items.remove_ensures(position);
    assert forall|other: PaneId| #[trigger] shrunk.contains(other) <==> (items.contains(other) && other != items[position]) by {
        if shrunk.contains(other) {
            let k = choose|k: int| 0 <= k < shrunk.len() && shrunk[k] == other;
            if k < position {
                assert(items[k] == other);
            } else {
                assert(items[k + 1] == other);
            }
        }
        if items.contains(other) && other != items[position] {
            let k = choose|k: int| 0 <= k < items.len() && items[k] == other;
            if k < position {
                assert(shrunk[k] == other);
            } else {
                assert(shrunk[k - 1] == other);
            }
        }
    }
    assert forall|i: int, j: int| 0 <= i < shrunk.len() && 0 <= j < shrunk.len() && i != j implies shrunk[i] != shrunk[j] by {
        let a = if i < position { i } else { i + 1 };
        let b = if j < position { j } else { j + 1 };
        assert(items[a] == shrunk[i]);
        assert(items[b] == shrunk[j]);
    }
}

proof fn lemma_sorted_insert(before: Seq<PaneState>, position: int, entry: PaneState)
    requires
        0 <= position <= before.len(),
        forall|i: int, j: int| 0 <= i < j < before.len() ==> before[i].id.0 < before[j].id.0,
        forall|k: int| 0 <= k < position ==> before[k].id.0 < entry.id.0,
        forall|k: int| position <= k < before.len() ==> before[k].id.0 > entry.id.0,
    ensures
        forall|i: int, j: int|
            0 <= i < j < before.len() + 1 ==> before.insert(position, entry)[i].id.0 < before.insert(
                position,
                entry,
            )[j].id.0,
{
    let after = before.insert(position, entry);
    before.insert_ensures(position, entry);
    assert forall|i: int, j: int| 0 <= i < j < before.len() + 1 implies after[i].id.0 < after[j].id.0 by {
        if i < position {
            assert(after[i] == before[i]);
        } else if i > position {
            assert(after[i] == before[i - 1]);
        }
        if j < position {
            assert(after[j] == before[j]);
        } else if j > position {
            assert(after[j] == before[j - 1]);
        }
    }
}

/// Whether `saved` holds each pane of `ids` with the directory at the same place of
/// `directories`, by ascending id.
pub open spec fn saved_in_id_order(saved: Seq<PaneStateView>, ids: Seq<PaneId>, directories: Seq<Seq<char>>) -> bool {
    &&& saved.len() == ids.len()
    &&& forall|i: int, j: int| 0 <= i < j < saved.len() ==> saved[i].id.0 < saved[j].id.0
    &&& forall|i: int|
        0 <= i < ids.len() ==> exists|j: int|
            0 <= j < saved.len() && #[trigger] saved[j] == (PaneStateView { id: #[trigger] ids[i], working_directory: directories[i] })
}

/// The ids of a tab's panes, in the order they are held.
pub open spec fn entry_ids<P>(entries: Seq<(PaneId, P)>) -> Seq<PaneId> {
    entries.map_values(|entry: (PaneId, P)| entry.0)
}

/// A tab: its panes, how they divide its area, and which one has focus. The panes are held
/// with their ids, each id once.
pub struct TabSession<P> {
    pub title: String,
    pub root: PaneTree,
    pub focused_pane: PaneId,
    pub zoomed_pane: Option<PaneId>,
    pub panes: Vec<(PaneId, P)>,
    pub custom_title: bool,
    pub pinned: bool,
}

impl<P> TabSession<P> {
    pub open spec fn pane_ids(&self) -> Seq<PaneId> {
        entry_ids(self.panes@)
    }

    /// The tree and the held panes name the same panes, each once, and focus is on one of
    /// them.
    pub open spec fn wf(&self) -> bool {
        &&& tree_panes(self.root).no_duplicates()
        &&& self.pane_ids().no_duplicates()
        &&& forall|id: PaneId| tree_contains(self.root, id) <==> self.pane_ids().contains(id)
        &&& tree_contains(self.root, self.focused_pane)
    }

    /// Where the focused pane is held.
    pub open spec fn focused_index(&self) -> int {
        choose|index: int| 0 <= index < self.panes@.len() && self.panes@[index].0 == self.focused_pane
    }

    proof fn lemma_focused_index(&self, index: int)
        requires
            self.pane_ids().no_duplicates(),
            0 <= index < self.panes@.len(),
            self.panes@[index].0 == self.focused_pane,
        ensures
            self.focused_index() == index,
    {
        let found = self.focused_index();
        assert(self.pane_ids()[index] == self.focused_pane);
        assert(self.pane_ids()[found] == self.focused_pane);
    }

    /// A tab of one pane, focused and not zoomed.
    pub fn new(title: String, id: PaneId, pane: P) -> (tab: TabSession<P>)
        ensures
            tab.wf(),
            tab.title == title,
            tab.root == (PaneTree::Leaf { pane: id }),
            tab.focused_pane == id,
            tab.zoomed_pane is None,
            tab.panes@ == seq![(id, pane)],
            !tab.custom_title,
            !tab.pinned,
    {
        let panes = vec![(id, pane)];
        let tab = TabSession {
            title,
            root: PaneTree::leaf(id),
            focused_pane: id,
            zoomed_pane: None,
            panes,
            custom_title: false,
            pinned: false,
        };
        proof {
            assert(tab.pane_ids() =~= seq![id]);
            assert(tree_panes(tab.root) =~= seq![id]);
            assert(tree_panes(tab.root)[0] == id);
        }
        tab
    }

    /// Where `id` is held.
    fn index_of(&self, id: PaneId) -> (index: usize)
        requires
            self.pane_ids().contains(id),
        ensures
            index < self.panes@.len(),
            self.panes@[index as int].0 == id,
    {
        let mut index: usize = 0;
        while index < self.panes.len()
            invariant
                index <= self.panes@.len(),
                self.pane_ids().contains(id),
                forall|k: int| 0 <= k < index ==> self.panes@[k].0 != id,
            decreases self.panes@.len() - index,
        {
            if self.panes[index].0 == id {
                return index;
            }
            index += 1;
        }
        proof {
            let k = choose|k: int| 0 <= k < self.pane_ids().len() && self.pane_ids()[k] == id;
            assert(self.panes@[k].0 == id);
        }
        index
    }

    /// The focused pane.
    pub fn focused(&self) -> (pane: &P)
        requires
            self.wf(),
        ensures
            0 <= self.focused_index() < self.panes@.len(),
            self.panes@[self.focused_index()].0 == self.focused_pane,
            *pane == self.panes@[self.focused_index()].1,
    {
        let index = self.index_of(self.focused_pane);
        proof {
            self.lemma_focused_index(index as int);
        }
        &self.panes[index].1
    }
    /// The focused pane, to change it in place.
    pub fn focused_mut(&mut self) -> (pane: &mut P)
        requires
            old(self).wf(),
        ensures
            0 <= old(self).focused_index() < old(self).panes@.len(),
            *pane == old(self).panes@[old(self).focused_index()].1,
            final(self).panes@ == old(self).panes@.update(
                old(self).focused_index(),
                (old(self).focused_pane, *final(pane)),
            ),
            final(self).title == old(self).title,
            final(self).root == old(self).root,
            final(self).focused_pane == old(self).focused_pane,
            final(self).zoomed_pane == old(self).zoomed_pane,
            final(self).custom_title == old(self).custom_title,
            final(self).pinned == old(self).pinned,
    {
        let index = self.index_of(self.focused_pane);
        proof {
            self.lemma_focused_index(index as int);
        }
        &mut self.panes[index].1
    }

    /// Zooms the focused pane, or undoes the zoom when it is the one zoomed.
    pub fn toggle_zoom(&mut self)
        ensures
            final(self).zoomed_pane == (if old(self).zoomed_pane == Some(old(self).focused_pane) {
                None
            } else {
                Some(old(self).focused_pane)
            }),
            final(self).title == old(self).title,
            final(self).root == old(self).root,
            final(self).focused_pane == old(self).focused_pane,
            final(self).panes@ == old(self).panes@,
            final(self).custom_title == old(self).custom_title,
            final(self).pinned == old(self).pinned,
    {
        self.zoomed_pane = if self.zoomed_pane == Some(self.focused_pane) {
            None
        } else {
            Some(self.focused_pane)
        };
    }
    /// Splits the pane `target` along `axis`, placing `pane` after it, and focuses the new
    /// pane with no pane zoomed. When the tab has no pane `target` the tab is unchanged and
    /// `pane` comes back.
    pub fn insert_split_at(&mut self, target: PaneId, id: PaneId, pane: P, axis: SplitAxis) -> (placed: Result<(), P>)
        requires
            old(self).wf(),
            !tree_contains(old(self).root, id),
        ensures
            final(self).wf(),
            placed is Ok == tree_contains(old(self).root, target),
            placed is Ok ==> {
                &&& final(self).root == split_tree(old(self).root, target, id, axis).0
                &&& final(self).panes@ == old(self).panes@.push((id, pane))
                &&& final(self).focused_pane == id
                &&& final(self).zoomed_pane is None
                &&& final(self).title == old(self).title
                &&& final(self).custom_title == old(self).custom_title
                &&& final(self).pinned == old(self).pinned
            },
            placed is Err ==> placed == Err::<(), P>(pane) && *final(self) == *old(self),
    {
        proof {
            lemma_split_inserts_after_target(self.root, target, id, axis);
        }
        if !self.root.split(target, id, axis) {
            return Err(pane);
        }
        let ghost before = old(self).pane_ids();
        let ghost before_tree = tree_panes(old(self).root);
        self.panes.push((id, pane));
        self.focused_pane = id;
        self.zoomed_pane = None;
        proof {
            let position = first_position(before_tree, target);
            assert(self.pane_ids() =~= before.push(id));
            assert(before.push(id) =~= before.insert(before.len() as int, id));
            lemma_insert_fresh(before, before.len() as int, id);
            lemma_first_position_bound(before_tree, target);
            lemma_insert_fresh(before_tree, position + 1, id);
            assert(tree_panes(self.root) == before_tree.insert(position + 1, id));
            assert forall|other: PaneId| tree_contains(self.root, other) <==> self.pane_ids().contains(other) by {
                assert(before_tree.insert(position + 1, id).contains(other) <==> (before_tree.contains(other) || other == id));
                assert(before.insert(before.len() as int, id).contains(other) <==> (before.contains(other) || other == id));
                assert(tree_contains(old(self).root, other) <==> before.contains(other));
            }
            assert(self.pane_ids().contains(id));
        }
        Ok(())
    }
    /// Closes the focused pane and focuses the first pane of the part that takes its place;
    /// the zoom ends when it was on the closed pane. `None`, with the tab unchanged, when the
    /// focused pane is the tab's last.
    pub fn close_focused_pane(&mut self) -> (closed: Option<PaneId>)
        requires
            old(self).wf(),
        ensures
            final(self).wf(),
            closed is Some == (old(self).panes@.len() > 1),
            closed is Some ==> {
                &&& closed == Some(old(self).focused_pane)
                &&& close_tree(old(self).root, old(self).focused_pane) matches Some((tree, next))
                &&& final(self).root == tree
                &&& final(self).focused_pane == next
                &&& final(self).panes@ == old(self).panes@.remove(old(self).focused_index())
                &&& final(self).zoomed_pane == (if old(self).zoomed_pane == Some(old(self).focused_pane) {
                    None
                } else {
                    old(self).zoomed_pane
                })
                &&& final(self).title == old(self).title
                &&& final(self).custom_title == old(self).custom_title
                &&& final(self).pinned == old(self).pinned
            },
            closed is None ==> *final(self) == *old(self),
    {
        if self.panes.len() <= 1 {
            return None;
        }
        let closing = self.focused_pane;
        let ghost before = old(self).pane_ids();
        let ghost before_tree = tree_panes(old(self).root);
        proof {
            lemma_close_removes_target(self.root, closing);
            assert(self.root is Split) by {
                if let PaneTree::Leaf { pane } = self.root {
                    assert(before_tree =~= seq![pane]);
                    assert(self.pane_ids()[0] != self.pane_ids()[1]);
                    assert(self.pane_ids().contains(self.pane_ids()[0]));
                    assert(self.pane_ids().contains(self.pane_ids()[1]));
                    assert(tree_contains(self.root, self.pane_ids()[0]));
                    assert(tree_contains(self.root, self.pane_ids()[1]));
                }
            }
        }
        let next = match self.root.close(closing) {
            Some(next) => next,
            None => return None,
        };
        let index = self.index_of(closing);
        proof {
            self.lemma_focused_index(index as int);
        }
        let _ = self.panes.remove(index);
        self.focused_pane = next;
        if self.zoomed_pane == Some(closing) {
            self.zoomed_pane = None;
        }
        proof {
            let position = first_position(before_tree, closing);
            lemma_first_position_bound(before_tree, closing);
            lemma_remove_unique(before_tree, position);
            lemma_remove_unique(before, index as int);
            assert(self.pane_ids() =~= before.remove(index as int));
            assert(before[index as int] == closing);
            assert forall|other: PaneId| tree_contains(self.root, other) <==> self.pane_ids().contains(other) by {
                assert(before_tree.remove(position).contains(other) <==> (before_tree.contains(other) && other != closing));
                assert(before.remove(index as int).contains(other) <==> (before.contains(other) && other != closing));
                assert(tree_contains(old(self).root, other) <==> before.contains(other));
            }
        }
        Some(closing)
    }
    /// The tab as it is saved: its panes by ascending id, each with the directory at the
    /// same place of `working_directories`.
    pub fn snapshot(&self, working_directories: &Vec<String>) -> (state: TabState)
        requires
            self.wf(),
            working_directories@.len() == self.panes@.len(),
        ensures
            state@.title == self.title@,
            state@.root == self.root,
            state@.focused_pane == self.focused_pane,
            state@.zoomed_pane == self.zoomed_pane,
            state@.pinned == self.pinned,
            saved_in_id_order(
                state@.panes,
                self.pane_ids(),
                working_directories@.map_values(|directory: String| directory@),
            ),
    {
        let ghost ids = self.pane_ids();
        let ghost directories = working_directories@.map_values(|directory: String| directory@);
        let mut panes: Vec<PaneState> = Vec::new();
        // `place[i]` is where the pane held at `i` was saved; `origin[j]` where the saved pane
        // `j` is held.
        let ghost mut place: Seq<int> = Seq::empty();
        let ghost mut origin: Seq<int> = Seq::empty();
        let mut index: usize = 0;
        while index < self.panes.len()
            invariant
                index <= self.panes@.len(),
                working_directories@.len() == self.panes@.len(),
                ids == self.pane_ids(),
                ids.no_duplicates(),
                directories == working_directories@.map_values(|directory: String| directory@),
                panes@.len() == index,
                place.len() == index,
                origin.len() == index,
                forall|i: int, j: int| 0 <= i < j < panes@.len() ==> panes@[i].id.0 < panes@[j].id.0,
                forall|i: int|
                    0 <= i < index ==> 0 <= #[trigger] place[i] < panes@.len() && panes@[place[i]]@ == (PaneStateView {
                        id: ids[i],
                        working_directory: directories[i],
                    }),
                forall|j: int| 0 <= j < index ==> 0 <= #[trigger] origin[j] < index && panes@[j].id == ids[origin[j]],
            decreases self.panes@.len() - index,
        {
            let id = self.panes[index].0;
            let mut position: usize = 0;
            while position < panes.len() && panes[position].id.0 < id.0
                invariant
                    position <= panes@.len(),
                    forall|k: int| 0 <= k < position ==> panes@[k].id.0 < id.0,
                decreases panes@.len() - position,
            {
                position += 1;
            }
            let ghost before = panes@;
            proof {
                assert(ids[index as int] == id);
                assert forall|k: int| position <= k < before.len() implies before[k].id.0 > id.0 by {
                    assert(origin[k] != index);
                    assert(ids[origin[k]] != ids[index as int]);
                    assert(before[position as int].id.0 >= id.0);
                    if k > position {
                        assert(before[position as int].id.0 < before[k].id.0);
                    }
                }
            }
            let entry = PaneState { id, working_directory: working_directories[index].clone() };
            panes.insert(position, entry);
            proof {
                assert(panes@ == before.insert(position as int, entry));
                lemma_sorted_insert(before, position as int, entry);
                before.insert_ensures(position as int, entry);
                let moved = |spot: int| if spot >= position { spot + 1 } else { spot };
                place = place.map_values(moved).push(position as int);
                origin = origin.insert(position as int, index as int);
                assert(directories[index as int] == working_directories@[index as int]@);
                assert forall|i: int| 0 <= i < index + 1 implies 0 <= #[trigger] place[i] < panes@.len() && panes@[place[i]]@ == (PaneStateView {
                    id: ids[i],
                    working_directory: directories[i],
                }) by {
                    if i < index {
                        let old_spot = if place[i] > position { place[i] - 1 } else { place[i] };
                        assert(panes@[place[i]] == before[old_spot]);
                    }
                }
                assert forall|j: int| 0 <= j < index + 1 implies 0 <= #[trigger] origin[j] < index + 1 && panes@[j].id == ids[origin[j]] by {
                    if j < position {
                        assert(panes@[j] == before[j]);
                    } else if j > position {
                        assert(panes@[j] == before[j - 1]);
                    }
                }
            }
            index += 1;
        }
        let state = TabState {
            title: self.title.clone(),
            root: self.root.duplicate(),
            focused_pane: self.focused_pane,
            zoomed_pane: self.zoomed_pane,
            panes,
            pinned: self.pinned,
        };
        proof {
            assert forall|i: int|
                0 <= i < ids.len() implies exists|j: int|
                    0 <= j < state@.panes.len() && #[trigger] state@.panes[j] == (PaneStateView { id: #[trigger] ids[i], working_directory: directories[i] }) by {
                assert(state@.panes[place[i]] == panes@[place[i]]@);
            }
        }
        state
    }
}

} // verus!
